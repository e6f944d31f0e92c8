//! JSON values as the link reads them: one level at a time, with nested values as their text.
use serde_json::value::RawValue;
use serde_json::{from_str, Value};
use std::collections::BTreeMap;
use vstd::prelude::*;

verus! {

/// One JSON value. What an object or a list holds is kept as JSON text.
#[derive(Debug)]
pub enum Json {
    Null,
    Bool(bool),
    /// A number, as the integers of either kind that it equals.
    Number { unsigned: Option<u64>, signed: Option<i64> },
    Text(String),
    List(Vec<String>),
    Object(Vec<(String, String)>),
}

/// What a JSON value says.
#[verifier::ext_equal]
pub enum JsonView {
    Null,
    Bool(bool),
    Number { unsigned: Option<u64>, signed: Option<i64> },
    Text(Seq<char>),
    List(Seq<Seq<char>>),
    Object(Seq<(Seq<char>, Seq<char>)>),
}

impl View for Json {
    type V = JsonView;

    open spec fn view(&self) -> JsonView {
        match *self {
            Json::Null => JsonView::Null,
            Json::Bool(b) => JsonView::Bool(b),
            Json::Number { unsigned, signed } => JsonView::Number { unsigned, signed },
            Json::Text(t) => JsonView::Text(t@),
            Json::List(items) => JsonView::List(crate::text::texts(items@)),
            Json::Object(members) => JsonView::Object(pairs(members@)),
        }
    }
}

/// The views of a list of named texts.
pub open spec fn pairs(members: Seq<(String, String)>) -> Seq<(Seq<char>, Seq<char>)> {
    Seq::new(members.len(), |i: int| (members[i].0@, members[i].1@))
}

/// The view of a value that may be missing.
pub open spec fn optional(json: Option<Json>) -> Option<JsonView> {
    match json {
        Some(j) => Some(j@),
        None => None,
    }
}

/// What `serde_json::from_str` makes of `text`: its outermost value, or nothing where `text` is
/// not JSON.
pub uninterp spec fn json_of(text: Seq<char>) -> Option<JsonView>;

/// `serde_json::from_str`: of a `Value`, and where that is a list or an object, of its items or
/// members as `RawValue`s, which are the texts that they have in `text`. Members are in the order
/// of their names, and the last one of a name counts. The result depends on `text` alone; it is
/// named, not described.
#[verifier::external_body]
pub(crate) fn parse_json(text: &str) -> (json: Option<Json>)
    ensures
        optional(json) == json_of(text@),
{
    Some(match from_str::<Value>(text).ok()? {
        Value::Null => Json::Null,
        Value::Bool(b) => Json::Bool(b),
        Value::Number(n) => Json::Number { unsigned: n.as_u64(), signed: n.as_i64() },
        Value::String(s) => Json::Text(s),
        Value::Array(_) => {
            let items: Vec<&RawValue> = from_str(text).ok()?;
            Json::List(items.iter().map(ToString::to_string).collect())
        },
        Value::Object(_) => {
            let members: BTreeMap<String, &RawValue> = from_str(text).ok()?;
            Json::Object(members.into_iter().map(|(k, v)| (k, v.to_string())).collect())
        },
    })
}

// ── Writing ──────────────────────────────────────────────────────────────────

/// A character inside a JSON string.
pub open spec fn escaped(c: char) -> Seq<char> {
    if c == '"' || c == '\\' {
        seq!['\\', c]
    } else if c == '\u{8}' {
        seq!['\\', 'b']
    } else if c == '\t' {
        seq!['\\', 't']
    } else if c == '\n' {
        seq!['\\', 'n']
    } else if c == '\u{c}' {
        seq!['\\', 'f']
    } else if c == '\r' {
        seq!['\\', 'r']
    } else if (c as nat) < 32 {
        seq![
            '\\',
            'u',
            '0',
            '0',
            crate::text::digit(c as nat / 16),
            crate::text::digit(c as nat % 16),
        ]
    } else {
        seq![c]
    }
}

/// The characters of `text`, each as it stands inside a JSON string.
pub open spec fn escaped_text(text: Seq<char>) -> Seq<char>
    decreases text.len(),
{
    if text.len() == 0 {
        Seq::empty()
    } else {
        escaped_text(text.drop_last()) + escaped(text.last())
    }
}

/// `text` as a JSON string.
pub open spec fn quoted(text: Seq<char>) -> Seq<char> {
    "\""@ + escaped_text(text) + "\""@
}

/// Adds a character as it stands inside a JSON string.
fn push_escaped(json: &mut String, c: char)
    ensures
        final(json)@ == old(json)@ + escaped(c),
{
    let ghost before = json@;
    if c == '"' || c == '\\' {
        json.push('\\');
        json.push(c);
    } else if c == '\u{8}' {
        json.push('\\');
        json.push('b');
    } else if c == '\t' {
        json.push('\\');
        json.push('t');
    } else if c == '\n' {
        json.push('\\');
        json.push('n');
    } else if c == '\u{c}' {
        json.push('\\');
        json.push('f');
    } else if c == '\r' {
        json.push('\\');
        json.push('r');
    } else if (c as u32) < 32 {
        json.push('\\');
        json.push('u');
        json.push('0');
        json.push('0');
        json.push(crate::text::digit_char((c as u32 / 16) as u8));
        json.push(crate::text::digit_char((c as u32 % 16) as u8));
    } else {
        json.push(c);
    }
    assert(json@ =~= before + escaped(c));
}

/// Writes `text` as a JSON string.
pub(crate) fn quote(text: &str) -> (json: String)
    ensures
        json@ == quoted(text@),
{
    let chars = crate::text::chars_of(text);
    let mut json = "\"".to_owned();
    let mut i: usize = 0;
    assert(text@.take(0).len() == 0);
    assert("\""@ + escaped_text(text@.take(0)) =~= "\""@);
    while i < chars.len()
        invariant
            i <= chars@.len(),
            chars@ == text@,
            json@ == "\""@ + escaped_text(text@.take(i as int)),
        decreases chars@.len() - i,
    {
        push_escaped(&mut json, chars[i]);
        proof {
            assert(text@.take(i + 1).drop_last() =~= text@.take(i as int));
            assert(json@ =~= "\""@ + escaped_text(text@.take(i + 1)));
        }
        i += 1;
    }
    assert(text@.take(i as int) =~= text@);
    json.append("\"");
    json
}

/// The views of named lists of texts.
pub open spec fn named_lists(lists: Seq<(String, Vec<String>)>) -> Seq<
    (Seq<char>, Seq<Seq<char>>),
> {
    Seq::new(lists.len(), |i: int| (lists[i].0@, crate::text::texts(lists[i].1@)))
}

/// What `serde_json::to_string_pretty` makes of an object with the one member `name`, an object
/// whose members are these lists of strings.
pub uninterp spec fn pretty_of(
    name: Seq<char>,
    lists: Seq<(Seq<char>, Seq<Seq<char>>)>,
) -> Seq<char>;

/// `serde_json::to_string_pretty`: the object as JSON text over several lines. It fails only on a
/// value that refuses to be written, or on a map whose keys are no strings, so that it does not
/// fail here. The text depends on the arguments alone; it is named, not described.
#[verifier::external_body]
pub(crate) fn write_pretty(name: &str, lists: &Vec<(String, Vec<String>)>) -> (text: Option<String>)
    ensures
        text is Some,
        text->Some_0@ == pretty_of(name@, named_lists(lists@)),
{
    let members = lists.iter().map(|(k, items)| (k.clone(), Value::from(items.clone()))).collect();
    let mut outer = serde_json::Map::new();
    outer.insert(name.to_owned(), Value::Object(members));
    serde_json::to_string_pretty(&Value::Object(outer)).ok()
}

/// The texts as a JSON list of strings.
pub open spec fn quoted_list(items: Seq<Seq<char>>) -> Seq<char> {
    "["@ + crate::text::joined(Seq::new(items.len(), |i: int| quoted(items[i]))) + "]"@
}

/// Writes the texts as a JSON list of strings.
pub fn write_strings(items: &Vec<String>) -> (json: String)
    ensures
        json@ == quoted_list(crate::text::texts(items@)),
{
    let mut parts: Vec<String> = Vec::new();
    let mut i: usize = 0;
    while i < items.len()
        invariant
            i <= items@.len(),
            parts@.len() == i,
            forall|j: int| 0 <= j < i ==> (#[trigger] parts@[j])@ == quoted(items@[j]@),
        decreases items@.len() - i,
    {
        parts.push(quote(items[i].as_str()));
        i += 1;
    }
    let ghost wanted = crate::text::texts(items@);
    assert(crate::text::texts(parts@) =~= Seq::new(wanted.len(), |j: int| quoted(wanted[j])));
    let mut json = "[".to_owned();
    json.append(crate::text::join(&parts).as_str());
    json.append("]");
    json
}

// ── Members ──────────────────────────────────────────────────────────────────

/// The text of the first member with this name from position `i` on.
pub open spec fn member_from(
    members: Seq<(Seq<char>, Seq<char>)>,
    name: Seq<char>,
    i: int,
) -> Option<Seq<char>>
    decreases members.len() - i,
{
    if i < 0 || i >= members.len() {
        None
    } else if members[i].0 == name {
        Some(members[i].1)
    } else {
        member_from(members, name, i + 1)
    }
}

/// The text of the member with this name; only an object has members.
pub open spec fn member(json: JsonView, name: Seq<char>) -> Option<Seq<char>> {
    match json {
        JsonView::Object(members) => member_from(members, name, 0),
        _ => None,
    }
}

/// A form inside a frame, as JSON text.
#[derive(Debug)]
pub enum Form {
    /// A JSON text of its own, which the frame carries as a string.
    Embedded(String),
    /// A part of the frame itself.
    Nested(String),
}

#[verifier::ext_equal]
pub enum FormView {
    Embedded(Seq<char>),
    Nested(Seq<char>),
}

impl View for Form {
    type V = FormView;

    open spec fn view(&self) -> FormView {
        match *self {
            Form::Embedded(t) => FormView::Embedded(t@),
            Form::Nested(t) => FormView::Nested(t@),
        }
    }
}

/// The view of a form that may be missing.
pub open spec fn optional_form(form: Option<Form>) -> Option<FormView> {
    match form {
        Some(f) => Some(f@),
        None => None,
    }
}

/// A named value with its text.
#[derive(Debug)]
pub struct Field {
    pub name: String,
    pub text: String,
    pub json: Json,
}

#[verifier::ext_equal]
pub struct FieldView {
    pub name: Seq<char>,
    pub text: Seq<char>,
    pub json: JsonView,
}

impl View for Field {
    type V = FieldView;

    open spec fn view(&self) -> FieldView {
        FieldView { name: self.name@, text: self.text@, json: self.json@ }
    }
}

/// The text of a JSON value, and its fields where it is an object.
#[derive(Debug)]
pub struct Section {
    pub text: String,
    pub fields: Vec<Field>,
}

#[verifier::ext_equal]
pub struct SectionView {
    pub text: Seq<char>,
    pub fields: Seq<FieldView>,
}

/// The views of a list of fields.
pub open spec fn fields_view(fields: Seq<Field>) -> Seq<FieldView> {
    Seq::new(fields.len(), |i: int| fields[i]@)
}

impl View for Section {
    type V = SectionView;

    open spec fn view(&self) -> SectionView {
        SectionView { text: self.text@, fields: fields_view(self.fields@) }
    }
}

/// The first field with this name from position `i` on.
pub open spec fn field_from(fields: Seq<FieldView>, name: Seq<char>, i: int) -> Option<FieldView>
    decreases fields.len() - i,
{
    if i < 0 || i >= fields.len() {
        None
    } else if fields[i].name == name {
        Some(fields[i])
    } else {
        field_from(fields, name, i + 1)
    }
}

impl SectionView {
    /// The field with this name.
    pub open spec fn field(self, name: Seq<char>) -> Option<FieldView> {
        field_from(self.fields, name, 0)
    }

    /// The value of the field with this name.
    pub open spec fn value(self, name: Seq<char>) -> Option<JsonView> {
        match self.field(name) {
            Some(field) => Some(field.json),
            None => None,
        }
    }

    /// The field as an unsigned integer.
    pub open spec fn unsigned(self, name: Seq<char>) -> Option<u64> {
        match self.value(name) {
            Some(JsonView::Number { unsigned, signed }) => unsigned,
            _ => None,
        }
    }

    /// The field as a signed integer.
    pub open spec fn signed(self, name: Seq<char>) -> Option<i64> {
        match self.value(name) {
            Some(JsonView::Number { unsigned, signed }) => signed,
            _ => None,
        }
    }

    /// The field as a truth value.
    pub open spec fn truth(self, name: Seq<char>) -> Option<bool> {
        match self.value(name) {
            Some(JsonView::Bool(b)) => Some(b),
            _ => None,
        }
    }

    /// The field as text.
    pub open spec fn words(self, name: Seq<char>) -> Option<Seq<char>> {
        match self.value(name) {
            Some(JsonView::Text(t)) => Some(t),
            _ => None,
        }
    }

    /// The form that the field carries: the text itself where the field is one, else the text of
    /// its value.
    pub open spec fn form(self, name: Seq<char>) -> Option<FormView> {
        match self.field(name) {
            Some(field) => match field.json {
                JsonView::Text(t) => Some(FormView::Embedded(t)),
                _ => Some(FormView::Nested(field.text)),
            },
            None => None,
        }
    }
}

impl Json {
    /// The text of the member with this name.
    pub fn get(&self, name: &str) -> (text: Option<String>)
        ensures
            match text {
                Some(t) => member(self@, name@) == Some(t@),
                None => member(self@, name@) is None,
            },
    {
        let wanted = name.to_owned();
        match self {
            Json::Object(members) => {
                let mut i: usize = 0;
                while i < members.len()
                    invariant
                        i <= members@.len(),
                        wanted@ == name@,
                        self@ == JsonView::Object(pairs(members@)),
                        member_from(pairs(members@), name@, 0) == member_from(
                            pairs(members@),
                            name@,
                            i as int,
                        ),
                    decreases members@.len() - i,
                {
                    if members[i].0 == wanted {
                        return Some(members[i].1.clone());
                    }
                    i += 1;
                }
                None
            },
            _ => None,
        }
    }
}

impl Section {
    /// The field with this name.
    pub fn field(&self, name: &str) -> (field: Option<&Field>)
        ensures
            match field {
                Some(f) => self@.field(name@) == Some(f@),
                None => self@.field(name@) is None,
            },
    {
        let wanted = name.to_owned();
        let mut i: usize = 0;
        while i < self.fields.len()
            invariant
                i <= self.fields@.len(),
                wanted@ == name@,
                self@.field(name@) == field_from(self@.fields, name@, i as int),
            decreases self.fields@.len() - i,
        {
            if self.fields[i].name == wanted {
                return Some(&self.fields[i]);
            }
            i += 1;
        }
        None
    }

    /// The value of the field with this name.
    pub fn value(&self, name: &str) -> (json: Option<&Json>)
        ensures
            match json {
                Some(j) => self@.value(name@) == Some(j@),
                None => self@.value(name@) is None,
            },
    {
        match self.field(name) {
            Some(field) => Some(&field.json),
            None => None,
        }
    }

    /// The field as an unsigned integer.
    pub fn as_u64(&self, name: &str) -> (n: Option<u64>)
        ensures
            n == self@.unsigned(name@),
    {
        match self.value(name) {
            Some(Json::Number { unsigned, signed: _ }) => *unsigned,
            _ => None,
        }
    }

    /// The field as a signed integer.
    pub fn as_i64(&self, name: &str) -> (n: Option<i64>)
        ensures
            n == self@.signed(name@),
    {
        match self.value(name) {
            Some(Json::Number { unsigned: _, signed }) => *signed,
            _ => None,
        }
    }

    /// The field as a truth value.
    pub fn as_bool(&self, name: &str) -> (b: Option<bool>)
        ensures
            b == self@.truth(name@),
    {
        match self.value(name) {
            Some(Json::Bool(b)) => Some(*b),
            _ => None,
        }
    }

    /// The field as text.
    pub fn as_str(&self, name: &str) -> (text: Option<String>)
        ensures
            match text {
                Some(t) => self@.words(name@) == Some(t@),
                None => self@.words(name@) is None,
            },
    {
        match self.value(name) {
            Some(Json::Text(t)) => Some(t.clone()),
            _ => None,
        }
    }

    /// The form that the field carries.
    pub fn form(&self, name: &str) -> (form: Option<Form>)
        ensures
            optional_form(form) == self@.form(name@),
    {
        match self.field(name) {
            Some(field) => match &field.json {
                Json::Text(t) => Some(Form::Embedded(t.clone())),
                _ => Some(Form::Nested(field.text.clone())),
            },
            None => None,
        }
    }
}

// ── Frames from the game ─────────────────────────────────────────────────────

/// A frame: its header, and the part of its body that stands under the header's name.
#[derive(Debug)]
pub struct Frame {
    pub header: String,
    pub section: Option<Section>,
}

/// What is read of a text: its value, and `null` where it is not JSON.
pub open spec fn json_or_null(text: Seq<char>) -> JsonView {
    match json_of(text) {
        Some(j) => j,
        None => JsonView::Null,
    }
}

/// The value of a member.
pub open spec fn member_value(json: JsonView, name: Seq<char>) -> Option<JsonView> {
    match member(json, name) {
        Some(text) => json_of(text),
        None => None,
    }
}

/// The header of a frame: its member `header`, if that is a text.
pub open spec fn header_of(outer: JsonView) -> Option<Seq<char>> {
    match member_value(outer, "header"@) {
        Some(JsonView::Text(header)) => Some(header),
        _ => None,
    }
}

/// The body of a frame: its member `body`, which can also arrive as a text that holds the JSON.
pub open spec fn body_of(outer: JsonView) -> JsonView {
    match member_value(outer, "body"@) {
        Some(JsonView::Text(text)) => json_or_null(text),
        Some(body) => body,
        None => JsonView::Null,
    }
}

/// The members of the object that `text` holds.
pub open spec fn fields_of(text: Seq<char>) -> Seq<FieldView> {
    match json_of(text) {
        Some(JsonView::Object(members)) => Seq::new(
            members.len(),
            |i: int|
                FieldView {
                    name: members[i].0,
                    text: members[i].1,
                    json: json_or_null(members[i].1),
                },
        ),
        _ => Seq::empty(),
    }
}

/// The part of a body that stands under `name`.
pub open spec fn section_of(body: JsonView, name: Seq<char>) -> Option<SectionView> {
    match member(body, name) {
        Some(text) => Some(SectionView { text, fields: fields_of(text) }),
        None => None,
    }
}

/// What a payload says: nothing where it is no JSON object with a header.
pub open spec fn frame_of(payload: Seq<char>) -> Option<(Seq<char>, Option<SectionView>)> {
    match json_of(payload) {
        Some(outer) => match header_of(outer) {
            Some(header) => Some((header, section_of(body_of(outer), header))),
            None => None,
        },
        None => None,
    }
}

/// The view of a section that may be missing.
pub open spec fn optional_section(section: Option<Section>) -> Option<SectionView> {
    match section {
        Some(s) => Some(s@),
        None => None,
    }
}

fn read_or_null(text: &str) -> (json: Json)
    ensures
        json@ == json_or_null(text@),
{
    match parse_json(text) {
        Some(json) => json,
        None => Json::Null,
    }
}

fn read_section(text: String) -> (section: Section)
    ensures
        section@ == (SectionView { text: text@, fields: fields_of(text@) }),
{
    let mut fields: Vec<Field> = Vec::new();
    match parse_json(text.as_str()) {
        Some(Json::Object(members)) => {
            let mut i: usize = 0;
            while i < members.len()
                invariant
                    i <= members@.len(),
                    fields@.len() == i,
                    forall|j: int|
                        0 <= j < i ==> (#[trigger] fields@[j])@ == (FieldView {
                            name: members@[j].0@,
                            text: members@[j].1@,
                            json: json_or_null(members@[j].1@),
                        }),
                decreases members@.len() - i,
            {
                let json = read_or_null(members[i].1.as_str());
                fields.push(
                    Field { name: members[i].0.clone(), text: members[i].1.clone(), json },
                );
                i += 1;
            }
            assert(fields_view(fields@) =~= fields_of(text@));
        },
        _ => {
            assert(fields_view(fields@) =~= fields_of(text@));
        },
    }
    Section { text, fields }
}

/// Reads a payload.
pub fn open_frame(payload: &str) -> (frame: Option<Frame>)
    ensures
        match frame {
            Some(f) => frame_of(payload@) == Some((f.header@, optional_section(f.section))),
            None => frame_of(payload@) is None,
        },
{
    let outer = match parse_json(payload) {
        Some(outer) => outer,
        None => {
            return None;
        },
    };
    let header = match outer.get("header") {
        Some(text) => match parse_json(text.as_str()) {
            Some(Json::Text(header)) => header,
            _ => {
                return None;
            },
        },
        None => {
            return None;
        },
    };
    let body = match outer.get("body") {
        Some(text) => match parse_json(text.as_str()) {
            Some(Json::Text(inner)) => read_or_null(inner.as_str()),
            Some(body) => body,
            None => Json::Null,
        },
        None => Json::Null,
    };
    assert(body@ == body_of(outer@));
    let section = match body.get(header.as_str()) {
        Some(text) => Some(read_section(text)),
        None => None,
    };
    Some(Frame { header, section })
}

// ── Laws ─────────────────────────────────────────────────────────────────────

/// A frame's header is the text under `header`, and its section is what its body, be it an object
/// or a text that holds one, has under the header's name. Without a header there is no frame.
pub proof fn law_frames_have_a_header_and_a_section(payload: Seq<char>, outer: JsonView)
    requires
        json_of(payload) == Some(outer),
    ensures
        match frame_of(payload) {
            Some((header, section)) => {
                &&& member(outer, "header"@) is Some
                &&& json_of(member(outer, "header"@)->Some_0) == Some(JsonView::Text(header))
                &&& section is Some ==> exists|body: JsonView|
                    #[trigger] is_body(outer, body) && member(body, header) == Some(
                        section->Some_0.text,
                    )
                &&& forall|body: JsonView| #[trigger]
                    is_body(outer, body) && member(body, header) is Some ==> section is Some
            },
            None => member(outer, "header"@) is None || json_of(
                member(outer, "header"@)->Some_0,
            ) is None || !(json_of(member(outer, "header"@)->Some_0)->Some_0 is Text),
        },
{
    match member_value(outer, "body"@) {
        Some(JsonView::Text(text)) => {
            if json_of(text) is Some {
                assert(is_body(outer, json_of(text)->Some_0));
            }
        },
        Some(body) => {
            assert(is_body(outer, body));
        },
        None => {},
    }
}

/// The value is the body of a frame: what stands under `body`, or what the text there holds.
pub open spec fn is_body(outer: JsonView, body: JsonView) -> bool {
    member(outer, "body"@) is Some && match json_of(member(outer, "body"@)->Some_0) {
        Some(JsonView::Text(text)) => json_of(text) == Some(body),
        Some(found) => found == body,
        None => false,
    }
}

/// A field of a section is found by its name: the value of the first member that has it.
pub proof fn law_fields_are_found_by_name(section: SectionView, i: int)
    requires
        0 <= i < section.fields.len(),
        forall|j: int| 0 <= j < i ==> (#[trigger] section.fields[j]).name != section.fields[i].name,
    ensures
        section.field(section.fields[i].name) == Some(section.fields[i]),
        section.value(section.fields[i].name) == Some(section.fields[i].json),
{
    lemma_field_from(section.fields, 0, i);
}

proof fn lemma_field_from(fields: Seq<FieldView>, k: int, i: int)
    requires
        0 <= k <= i < fields.len(),
        forall|j: int| 0 <= j < i ==> (#[trigger] fields[j]).name != fields[i].name,
    ensures
        field_from(fields, fields[i].name, k) == Some(fields[i]),
    decreases i - k,
{
    if k < i {
        lemma_field_from(fields, k + 1, i);
    }
}

} // verus!
