//! What a JSON text says to whoever reads it: the grammar, read from left to right. The messages
//! that the library writes are held against it.
use vstd::prelude::*;

verus! {

// ── The grammar ──────────────────────────────────────────────────────────────

/// A JSON value. Numbers and the words `true`, `false` and `null` are kept as they are spelled.
pub enum Tree {
    Word(Seq<char>),
    Text(Seq<char>),
    List(Seq<Tree>),
    Object(Seq<(Seq<char>, Tree)>),
}

/// The value of a hexadecimal digit.
pub open spec fn hex_of(c: char) -> Option<int> {
    if '0' <= c <= '9' {
        Some(c as int - '0' as int)
    } else if 'a' <= c <= 'f' {
        Some(c as int - 'a' as int + 10)
    } else if 'A' <= c <= 'F' {
        Some(c as int - 'A' as int + 10)
    } else {
        None
    }
}

/// The character that four hexadecimal digits name.
pub open spec fn named_char(a: char, b: char, c: char, d: char) -> Option<char> {
    match (hex_of(a), hex_of(b), hex_of(c), hex_of(d)) {
        (Some(w), Some(x), Some(y), Some(z)) => {
            let code = w * 4096 + x * 256 + y * 16 + z;
            if code < 0xd800 || code > 0xdfff {
                Some((code as u32) as char)
            } else {
                None
            }
        },
        _ => None,
    }
}

/// The first character inside a string, and how many characters spell it.
pub open spec fn read_char(text: Seq<char>) -> Option<(char, int)> {
    if text.len() == 0 || text[0] == '"' || (text[0] as nat) < 32 {
        None
    } else if text[0] != '\\' {
        Some((text[0], 1))
    } else if text.len() < 2 {
        None
    } else if text[1] == '"' || text[1] == '\\' || text[1] == '/' {
        Some((text[1], 2))
    } else if text[1] == 'b' {
        Some(('\u{8}', 2))
    } else if text[1] == 'f' {
        Some(('\u{c}', 2))
    } else if text[1] == 'n' {
        Some(('\n', 2))
    } else if text[1] == 'r' {
        Some(('\r', 2))
    } else if text[1] == 't' {
        Some(('\t', 2))
    } else if text[1] == 'u' && text.len() >= 6 {
        match named_char(text[2], text[3], text[4], text[5]) {
            Some(c) => Some((c, 6)),
            None => None,
        }
    } else {
        None
    }
}

/// The rest of a string behind its opening quote: what it says, and what follows it.
pub open spec fn read_text(text: Seq<char>) -> Option<(Seq<char>, Seq<char>)>
    decreases text.len(),
{
    if text.len() == 0 {
        None
    } else if text[0] == '"' {
        Some((Seq::empty(), text.skip(1)))
    } else {
        match read_char(text) {
            Some((c, n)) => if 0 < n <= text.len() {
                match read_text(text.skip(n)) {
                    Some((more, rest)) => Some((seq![c] + more, rest)),
                    None => None,
                }
            } else {
                None
            },
            None => None,
        }
    }
}

/// A character of a number or a word.
pub open spec fn is_word_char(c: char) -> bool {
    'a' <= c <= 'z' || '0' <= c <= '9' || c == '-' || c == '+' || c == '.' || c == 'E'
}

/// How many characters at the start belong to a word.
pub open spec fn word_len(text: Seq<char>) -> int
    decreases text.len(),
{
    if text.len() == 0 || !is_word_char(text[0]) {
        0
    } else {
        1 + word_len(text.skip(1))
    }
}

/// A value, and what follows it.
pub open spec fn read_value(text: Seq<char>) -> Option<(Tree, Seq<char>)>
    decreases text.len(), 0int,
{
    if text.len() == 0 {
        None
    } else if text[0] == '"' {
        match read_text(text.skip(1)) {
            Some((said, rest)) => Some((Tree::Text(said), rest)),
            None => None,
        }
    } else if text[0] == '[' {
        if text.len() > 1 && text[1] == ']' {
            Some((Tree::List(Seq::empty()), text.skip(2)))
        } else {
            match read_items(text.skip(1)) {
                Some((items, rest)) => Some((Tree::List(items), rest)),
                None => None,
            }
        }
    } else if text[0] == '{' {
        if text.len() > 1 && text[1] == '}' {
            Some((Tree::Object(Seq::empty()), text.skip(2)))
        } else {
            match read_members(text.skip(1)) {
                Some((members, rest)) => Some((Tree::Object(members), rest)),
                None => None,
            }
        }
    } else if word_len(text) > 0 {
        Some((Tree::Word(text.take(word_len(text))), text.skip(word_len(text))))
    } else {
        None
    }
}

/// The items of a list up to its end, and what follows it.
pub open spec fn read_items(text: Seq<char>) -> Option<(Seq<Tree>, Seq<char>)>
    decreases text.len(), 1int,
{
    match read_value(text) {
        Some((item, rest)) => if 0 < rest.len() < text.len() {
            if rest[0] == ']' {
                Some((seq![item], rest.skip(1)))
            } else if rest[0] == ',' {
                match read_items(rest.skip(1)) {
                    Some((more, end)) => Some((seq![item] + more, end)),
                    None => None,
                }
            } else {
                None
            }
        } else {
            None
        },
        None => None,
    }
}

/// The members of an object up to its end, and what follows it.
pub open spec fn read_members(text: Seq<char>) -> Option<(Seq<(Seq<char>, Tree)>, Seq<char>)>
    decreases text.len(), 1int,
{
    if text.len() == 0 || text[0] != '"' {
        None
    } else {
        match read_text(text.skip(1)) {
            Some((name, behind)) => if 0 < behind.len() < text.len() && behind[0] == ':' {
                match read_value(behind.skip(1)) {
                    Some((value, rest)) => if 0 < rest.len() < text.len() {
                        if rest[0] == '}' {
                            Some((seq![(name, value)], rest.skip(1)))
                        } else if rest[0] == ',' {
                            match read_members(rest.skip(1)) {
                                Some((more, end)) => Some((seq![(name, value)] + more, end)),
                                None => None,
                            }
                        } else {
                            None
                        }
                    } else {
                        None
                    },
                    None => None,
                }
            } else {
                None
            },
            None => None,
        }
    }
}

/// What a JSON text says; nothing where it is none.
pub open spec fn read(text: Seq<char>) -> Option<Tree> {
    match read_value(text) {
        Some((value, rest)) => if rest.len() == 0 {
            Some(value)
        } else {
            None
        },
        None => None,
    }
}

// ── Looking into a value ─────────────────────────────────────────────────────

/// The value of the member with this name, if just one has it.
pub open spec fn member(tree: Tree, name: Seq<char>) -> Option<Tree> {
    match tree {
        Tree::Object(members) => if exists|i: int|
            0 <= i < members.len() && (#[trigger] members[i]).0 == name && forall|j: int|
                0 <= j < members.len() && (#[trigger] members[j]).0 == name ==> j == i {
            let i = choose|i: int| 0 <= i < members.len() && (#[trigger] members[i]).0 == name;
            Some(members[i].1)
        } else {
            None
        },
        _ => None,
    }
}

/// The text that a value is.
pub open spec fn text_in(tree: Option<Tree>) -> Option<Seq<char>> {
    match tree {
        Some(Tree::Text(said)) => Some(said),
        _ => None,
    }
}

/// The word or number that a value is, as it is spelled.
pub open spec fn word_in(tree: Option<Tree>) -> Option<Seq<char>> {
    match tree {
        Some(Tree::Word(word)) => Some(word),
        _ => None,
    }
}

/// The natural number that digits spell.
pub open spec fn digits_to_number(digits: Seq<char>) -> int
    decreases digits.len(),
{
    if digits.len() == 0 {
        0
    } else {
        digits_to_number(digits.drop_last()) * 10 + (digits.last() as int - '0' as int)
    }
}

/// The natural number that a value is.
pub open spec fn number_in(tree: Option<Tree>) -> Option<int> {
    match tree {
        Some(Tree::Word(word)) => if word.len() > 0 && forall|i: int|
            0 <= i < word.len() ==> '0' <= #[trigger] word[i] <= '9' {
            Some(digits_to_number(word))
        } else {
            None
        },
        _ => None,
    }
}

/// The items of the list that a value is.
pub open spec fn items_in(tree: Option<Tree>) -> Option<Seq<Tree>> {
    match tree {
        Some(Tree::List(items)) => Some(items),
        _ => None,
    }
}

/// The member of a value that may be missing.
pub open spec fn at(tree: Option<Tree>, name: Seq<char>) -> Option<Tree> {
    match tree {
        Some(t) => member(t, name),
        None => None,
    }
}

/// The names of the members of a value.
pub open spec fn names_in(tree: Option<Tree>) -> Set<Seq<char>> {
    match tree {
        Some(Tree::Object(members)) => Set::new(
            |name: Seq<char>| exists|i: int| 0 <= i < members.len() && (#[trigger] members[i]).0
                == name,
        ),
        _ => Set::empty(),
    }
}

// ── What is written can be read ──────────────────────────────────────────────

/// A character that can follow a value inside a list or an object.
pub open spec fn ends_value(rest: Seq<char>) -> bool {
    rest.len() == 0 || rest[0] == ',' || rest[0] == ']' || rest[0] == '}'
}

/// Wherever the text stands as a value, it is read as this value.
pub open spec fn reads_as(text: Seq<char>, tree: Tree) -> bool {
    &&& text.len() > 0
    &&& text[0] != ']'
    &&& forall|rest: Seq<char>| #[trigger]
        ends_value(rest) ==> read_value(text + rest) == Some((tree, rest))
}

/// A value on its own is read as what it is.
pub proof fn lemma_read(text: Seq<char>, tree: Tree)
    requires
        reads_as(text, tree),
    ensures
        read(text) == Some(tree),
{
    let rest = Seq::<char>::empty();
    assert(ends_value(rest));
    assert(text + rest =~= text);
}

proof fn lemma_escaped_char(c: char, rest: Seq<char>)
    ensures
        crate::json::escaped(c).len() > 0,
        crate::json::escaped(c)[0] != '"',
        read_char(crate::json::escaped(c) + rest) == Some((c, crate::json::escaped(c).len() as int)),
{
    let text = crate::json::escaped(c) + rest;
    if c == '"' || c == '\\' || c == '\u{8}' || c == '\t' || c == '\n' || c == '\u{c}' || c
        == '\r' {
        assert(text[0] == '\\');
        assert(text[1] == crate::json::escaped(c)[1]);
    } else if (c as nat) < 32 {
        let high = crate::text::digit(c as nat / 16);
        let low = crate::text::digit(c as nat % 16);
        assert(text[0] == '\\' && text[1] == 'u' && text[2] == '0' && text[3] == '0');
        assert(text[4] == high && text[5] == low);
        assert(hex_of(high) == Some(c as int / 16));
        assert(hex_of(low) == Some(c as int % 16));
        assert(named_char('0', '0', high, low) == Some(c));
    } else {
        assert(text[0] == c);
    }
}

proof fn lemma_escaped_first(c: char, more: Seq<char>)
    ensures
        crate::json::escaped_text(seq![c] + more) == crate::json::escaped(c)
            + crate::json::escaped_text(more),
    decreases more.len(),
{
    let all = seq![c] + more;
    if more.len() == 0 {
        assert(all.drop_last() =~= Seq::empty());
        assert(all.last() == c);
        assert(crate::json::escaped_text(all.drop_last()).len() == 0);
        assert(crate::json::escaped_text(all) =~= crate::json::escaped(c));
        assert(crate::json::escaped(c) + crate::json::escaped_text(more) =~= crate::json::escaped(
            c,
        ));
    } else {
        lemma_escaped_first(c, more.drop_last());
        assert(all.drop_last() =~= seq![c] + more.drop_last());
        assert(crate::json::escaped_text(all) =~= crate::json::escaped(c)
            + crate::json::escaped_text(more));
    }
}

proof fn lemma_string_read(said: Seq<char>, rest: Seq<char>)
    ensures
        read_text(crate::json::escaped_text(said) + (seq!['"'] + rest)) == Some((said, rest)),
    decreases said.len(),
{
    let text = crate::json::escaped_text(said) + (seq!['"'] + rest);
    if said.len() == 0 {
        assert(text =~= seq!['"'] + rest);
        assert(text.skip(1) =~= rest);
        assert(said =~= Seq::empty());
    } else {
        let c = said[0];
        let more = said.skip(1);
        assert(said =~= seq![c] + more);
        lemma_escaped_first(c, more);
        let tail = crate::json::escaped_text(more) + (seq!['"'] + rest);
        assert(text =~= crate::json::escaped(c) + tail);
        lemma_escaped_char(c, tail);
        lemma_string_read(more, rest);
        assert(text.skip(crate::json::escaped(c).len() as int) =~= tail);
        assert(text[0] == crate::json::escaped(c)[0]);
    }
}

/// A quoted text is read as that text.
pub proof fn lemma_quoted_reads(said: Seq<char>)
    ensures
        reads_as(crate::json::quoted(said), Tree::Text(said)),
{
    reveal_strlit("\"");
    let text = crate::json::quoted(said);
    assert forall|rest: Seq<char>| #[trigger] ends_value(rest) implies read_value(text + rest)
        == Some((Tree::Text(said), rest)) by {
        lemma_string_read(said, rest);
        assert((text + rest)[0] == '"');
        assert((text + rest).skip(1) =~= crate::json::escaped_text(said) + (seq!['"'] + rest));
    }
}

/// The text is a number or a word.
pub open spec fn is_word(text: Seq<char>) -> bool {
    text.len() > 0 && forall|i: int| 0 <= i < text.len() ==> is_word_char(#[trigger] text[i])
}

proof fn lemma_word_len(word: Seq<char>, rest: Seq<char>)
    requires
        forall|i: int| 0 <= i < word.len() ==> is_word_char(#[trigger] word[i]),
        ends_value(rest),
    ensures
        word_len(word + rest) == word.len(),
    decreases word.len(),
{
    let all = word + rest;
    if word.len() == 0 {
        assert(all =~= rest);
    } else {
        assert(all[0] == word[0]);
        assert forall|i: int| 0 <= i < word.skip(1).len() implies is_word_char(
            #[trigger] word.skip(1)[i],
        ) by {
            assert(word.skip(1)[i] == word[i + 1]);
        }
        lemma_word_len(word.skip(1), rest);
        assert(all.skip(1) =~= word.skip(1) + rest);
    }
}

/// A word is read as it is.
pub proof fn lemma_word_reads(word: Seq<char>)
    requires
        is_word(word),
    ensures
        reads_as(word, Tree::Word(word)),
{
    assert(is_word_char(word[0]));
    assert forall|rest: Seq<char>| #[trigger] ends_value(rest) implies read_value(word + rest)
        == Some((Tree::Word(word), rest)) by {
        let all = word + rest;
        lemma_word_len(word, rest);
        assert(all[0] == word[0]);
        assert(all.take(word.len() as int) =~= word);
        assert(all.skip(word.len() as int) =~= rest);
    }
}

/// A number in decimal is read as that number.
pub proof fn lemma_decimal_reads(n: nat)
    ensures
        reads_as(crate::text::decimal(n), Tree::Word(crate::text::decimal(n))),
        number_in(Some(Tree::Word(crate::text::decimal(n)))) == Some(n as int),
{
    let word = crate::text::decimal(n);
    lemma_decimal(n);
    assert forall|i: int| 0 <= i < word.len() implies is_word_char(#[trigger] word[i]) by {
        assert('0' <= word[i] <= '9');
    }
    lemma_word_reads(word);
}

proof fn lemma_decimal(n: nat)
    ensures
        crate::text::decimal(n).len() > 0,
        forall|i: int|
            0 <= i < crate::text::decimal(n).len() ==> '0' <= #[trigger] crate::text::decimal(n)[i]
                <= '9',
        digits_to_number(crate::text::decimal(n)) == n,
    decreases n,
{
    let word = crate::text::decimal(n);
    if n < 10 {
        assert(word.drop_last() =~= Seq::empty());
        assert(digits_to_number(word.drop_last()) == 0);
    } else {
        lemma_decimal(n / 10);
        assert(word.drop_last() =~= crate::text::decimal(n / 10));
    }
}

/// Each part is read as its value.
pub open spec fn all_read(parts: Seq<Seq<char>>, values: Seq<Tree>) -> bool {
    parts.len() == values.len() && forall|i: int|
        0 <= i < parts.len() ==> reads_as(#[trigger] parts[i], values[i])
}

proof fn lemma_joined_first(first: Seq<char>, more: Seq<Seq<char>>)
    requires
        more.len() > 0,
    ensures
        crate::text::joined(seq![first] + more) == first + ","@ + crate::text::joined(more),
    decreases more.len(),
{
    let all = seq![first] + more;
    if more.len() == 1 {
        assert(all.drop_last() =~= seq![first]);
        assert(crate::text::joined(all.drop_last()) == first);
        assert(all.last() == more[0]);
    } else {
        lemma_joined_first(first, more.drop_last());
        assert(all.drop_last() =~= seq![first] + more.drop_last());
        assert(crate::text::joined(all) =~= first + ","@ + crate::text::joined(more));
    }
}

proof fn lemma_items_read(parts: Seq<Seq<char>>, values: Seq<Tree>, rest: Seq<char>)
    requires
        parts.len() > 0,
        all_read(parts, values),
    ensures
        read_items(crate::text::joined(parts) + (seq![']'] + rest)) == Some((values, rest)),
    decreases parts.len(),
{
    let first = parts[0];
    let end = seq![']'] + rest;
    assert(reads_as(first, values[0]));
    if parts.len() == 1 {
        assert(ends_value(end));
        assert(end.skip(1) =~= rest);
        assert(seq![values[0]] =~= values);
    } else {
        let (more, others) = (parts.skip(1), values.skip(1));
        assert(parts =~= seq![first] + more);
        assert(values =~= seq![values[0]] + others);
        assert forall|i: int| 0 <= i < more.len() implies reads_as(
            #[trigger] more[i],
            others[i],
        ) by {
            assert(more[i] == parts[i + 1]);
        }
        lemma_joined_first(first, more);
        lemma_items_read(more, others, rest);
        reveal_strlit(",");
        let tail = crate::text::joined(more) + end;
        let text = crate::text::joined(parts) + end;
        let behind = seq![','] + tail;
        assert(text =~= first + behind);
        assert(ends_value(behind));
        assert(behind.skip(1) =~= tail);
    }
}

/// A list of parts is read as the list of their values.
pub proof fn lemma_list_reads(parts: Seq<Seq<char>>, values: Seq<Tree>)
    requires
        all_read(parts, values),
    ensures
        reads_as("["@ + crate::text::joined(parts) + "]"@, Tree::List(values)),
{
    reveal_strlit("[");
    reveal_strlit("]");
    let text = "["@ + crate::text::joined(parts) + "]"@;
    assert(text[0] == '[');
    assert forall|rest: Seq<char>| #[trigger] ends_value(rest) implies read_value(text + rest)
        == Some((Tree::List(values), rest)) by {
        let all = text + rest;
        assert(all[0] == '[');
        if parts.len() == 0 {
            assert(all[1] == ']');
            assert(all.skip(2) =~= rest);
            assert(values =~= Seq::empty());
        } else {
            let inner = crate::text::joined(parts) + (seq![']'] + rest);
            assert(all.skip(1) =~= inner);
            lemma_joined_start(parts, values);
            assert(all[1] == crate::text::joined(parts)[0]);
            lemma_items_read(parts, values, rest);
        }
    }
}

proof fn lemma_joined_start(parts: Seq<Seq<char>>, values: Seq<Tree>)
    requires
        parts.len() > 0,
        all_read(parts, values),
    ensures
        crate::text::joined(parts).len() > 0,
        crate::text::joined(parts)[0] != ']',
{
    assert(reads_as(parts[0], values[0]));
    if parts.len() > 1 {
        assert(parts =~= seq![parts[0]] + parts.skip(1));
        lemma_joined_first(parts[0], parts.skip(1));
        assert(crate::text::joined(parts)[0] == parts[0][0]);
    }
}

/// Texts as a JSON list are read as those texts.
pub proof fn lemma_quoted_list_reads(items: Seq<Seq<char>>)
    ensures
        reads_as(
            crate::json::quoted_list(items),
            Tree::List(Seq::new(items.len(), |i: int| Tree::Text(items[i]))),
        ),
{
    let parts = Seq::new(items.len(), |i: int| crate::json::quoted(items[i]));
    let values = Seq::new(items.len(), |i: int| Tree::Text(items[i]));
    assert forall|i: int| 0 <= i < parts.len() implies reads_as(#[trigger] parts[i], values[i]) by {
        lemma_quoted_reads(items[i]);
    }
    lemma_list_reads(parts, values);
}

// ── Objects ──────────────────────────────────────────────────────────────────

/// The name can stand in quotes as it is.
pub open spec fn is_plain(name: Seq<char>) -> bool {
    forall|i: int|
        0 <= i < name.len() ==> (#[trigger] name[i]) != '"' && name[i] != '\\' && name[i] as nat
            >= 32
}

proof fn lemma_plain_read(name: Seq<char>, rest: Seq<char>)
    requires
        is_plain(name),
    ensures
        read_text(name + (seq!['"'] + rest)) == Some((name, rest)),
    decreases name.len(),
{
    let text = name + (seq!['"'] + rest);
    if name.len() == 0 {
        assert(text =~= seq!['"'] + rest);
        assert(text.skip(1) =~= rest);
        assert(name =~= Seq::empty());
    } else {
        let more = name.skip(1);
        assert forall|i: int| 0 <= i < more.len() implies (#[trigger] more[i]) != '"' && more[i]
            != '\\' && more[i] as nat >= 32 by {
            assert(more[i] == name[i + 1]);
        }
        lemma_plain_read(more, rest);
        assert(text[0] == name[0]);
        assert(text.skip(1) =~= more + (seq!['"'] + rest));
        assert(seq![name[0]] + more =~= name);
    }
}

/// `"name":value`, and more of them behind commas.
pub open spec fn members_text(fields: Seq<(Seq<char>, Seq<char>)>) -> Seq<char>
    decreases fields.len(),
{
    if fields.len() == 0 {
        Seq::empty()
    } else {
        let first = seq!['"'] + fields[0].0 + seq!['"', ':'] + fields[0].1;
        if fields.len() == 1 {
            first
        } else {
            first + seq![','] + members_text(fields.skip(1))
        }
    }
}

/// The names are plain, and each value is read as it should.
pub open spec fn fields_read(
    fields: Seq<(Seq<char>, Seq<char>)>,
    members: Seq<(Seq<char>, Tree)>,
) -> bool {
    fields.len() == members.len() && forall|i: int|
        0 <= i < fields.len() ==> is_plain((#[trigger] fields[i]).0) && fields[i].0 == members[i].0
            && reads_as(fields[i].1, members[i].1)
}

proof fn lemma_members_read(
    fields: Seq<(Seq<char>, Seq<char>)>,
    members: Seq<(Seq<char>, Tree)>,
    rest: Seq<char>,
)
    requires
        fields.len() > 0,
        fields_read(fields, members),
    ensures
        read_members(members_text(fields) + (seq!['}'] + rest)) == Some((members, rest)),
    decreases fields.len(),
{
    let (name, value) = fields[0];
    let end = seq!['}'] + rest;
    let text = members_text(fields) + end;
    assert(is_plain(name) && reads_as(value, members[0].1));
    let behind = if fields.len() == 1 {
        end
    } else {
        seq![','] + (members_text(fields.skip(1)) + end)
    };
    let valued = value + behind;
    let colon = seq![':'] + valued;
    assert(text =~= seq!['"'] + (name + (seq!['"'] + colon)));
    assert(text.skip(1) =~= name + (seq!['"'] + colon));
    lemma_plain_read(name, colon);
    assert(colon.skip(1) =~= valued);
    assert(ends_value(behind));
    if fields.len() == 1 {
        assert(behind.skip(1) =~= rest);
        assert(seq![members[0]] =~= members);
    } else {
        let (more, others) = (fields.skip(1), members.skip(1));
        assert forall|i: int| 0 <= i < more.len() implies is_plain((#[trigger] more[i]).0)
            && more[i].0 == others[i].0 && reads_as(more[i].1, others[i].1) by {
            assert(more[i] == fields[i + 1]);
        }
        lemma_members_read(more, others, rest);
        assert(behind.skip(1) =~= members_text(more) + end);
        assert(seq![members[0]] + others =~= members);
    }
}

/// An object is read as its members.
pub proof fn lemma_object_reads(
    fields: Seq<(Seq<char>, Seq<char>)>,
    members: Seq<(Seq<char>, Tree)>,
)
    requires
        fields.len() > 0,
        fields_read(fields, members),
    ensures
        reads_as(seq!['{'] + members_text(fields) + seq!['}'], Tree::Object(members)),
{
    let text = seq!['{'] + members_text(fields) + seq!['}'];
    assert forall|rest: Seq<char>| #[trigger] ends_value(rest) implies read_value(text + rest)
        == Some((Tree::Object(members), rest)) by {
        let all = text + rest;
        let inner = members_text(fields) + (seq!['}'] + rest);
        assert(all.skip(1) =~= inner);
        assert(members_text(fields)[0] == '"');
        assert(all[1] == '"');
        lemma_members_read(fields, members, rest);
    }
}

/// The member at a position whose name no other member has.
pub proof fn lemma_member(members: Seq<(Seq<char>, Tree)>, i: int)
    requires
        0 <= i < members.len(),
        forall|j: int|
            0 <= j < members.len() && j != i ==> (#[trigger] members[j]).0 != members[i].0,
    ensures
        member(Tree::Object(members), members[i].0) == Some(members[i].1),
{
    let name = members[i].0;
    assert(members[i].0 == name);
    let k = choose|k: int| 0 <= k < members.len() && (#[trigger] members[k]).0 == name;
    assert(k == i);
}

/// `"name":value`.
pub open spec fn field(name: Seq<char>, value: Seq<char>) -> Seq<char> {
    seq!['"'] + name + seq!['"', ':'] + value
}

/// An object with one member is read as such.
pub proof fn lemma_object_one(
    n1: Seq<char>,
    v1: Seq<char>,
    t1: Tree,
)
    requires
        is_plain(n1),
        reads_as(v1, t1),
    ensures
        reads_as(
            seq!['{'] + field(n1, v1) + seq!['}'],
            Tree::Object(seq![(n1, t1)]),
        ),
        member(Tree::Object(seq![(n1, t1)]), n1) == Some(t1),
        names_in(Some(Tree::Object(seq![(n1, t1)]))) == set![n1],
{
    let fields = seq![(n1, v1)];
    let members = seq![(n1, t1)];
    reveal_with_fuel(members_text, 2);
    assert(seq!['{'] + members_text(fields) + seq!['}'] =~= seq!['{'] + field(n1, v1) + seq!['}']);
    lemma_object_reads(fields, members);
    lemma_member(members, 0);
    assert forall|name: Seq<char>| names_in(Some(Tree::Object(members))).contains(name)
        == set![n1].contains(name) by {
        assert(members[0].0 == n1);
    }
    assert(names_in(Some(Tree::Object(members))) =~= set![n1]);
}

/// An object with two members is read as such.
pub proof fn lemma_object_two(
    n1: Seq<char>,
    v1: Seq<char>,
    t1: Tree,
    n2: Seq<char>,
    v2: Seq<char>,
    t2: Tree,
)
    requires
        is_plain(n1),
        reads_as(v1, t1),
        is_plain(n2),
        reads_as(v2, t2),
        n1 != n2,
    ensures
        reads_as(
            seq!['{'] + field(n1, v1) + seq![','] + field(n2, v2) + seq!['}'],
            Tree::Object(seq![(n1, t1), (n2, t2)]),
        ),
        member(Tree::Object(seq![(n1, t1), (n2, t2)]), n1) == Some(t1),
        member(Tree::Object(seq![(n1, t1), (n2, t2)]), n2) == Some(t2),
        names_in(Some(Tree::Object(seq![(n1, t1), (n2, t2)]))) == set![n1, n2],
{
    let fields = seq![(n1, v1), (n2, v2)];
    let members = seq![(n1, t1), (n2, t2)];
    assert(fields.skip(1) =~= seq![(n2, v2)]);
    reveal_with_fuel(members_text, 3);
    assert(seq!['{'] + members_text(fields) + seq!['}'] =~= seq!['{'] + field(n1, v1) + seq![','] + field(n2, v2) + seq!['}']);
    lemma_object_reads(fields, members);
    lemma_member(members, 0);
    lemma_member(members, 1);
    assert forall|name: Seq<char>| names_in(Some(Tree::Object(members))).contains(name)
        == set![n1, n2].contains(name) by {
        assert(members[0].0 == n1);
        assert(members[1].0 == n2);
    }
    assert(names_in(Some(Tree::Object(members))) =~= set![n1, n2]);
}

/// An object with three members is read as such.
pub proof fn lemma_object_three(
    n1: Seq<char>,
    v1: Seq<char>,
    t1: Tree,
    n2: Seq<char>,
    v2: Seq<char>,
    t2: Tree,
    n3: Seq<char>,
    v3: Seq<char>,
    t3: Tree,
)
    requires
        is_plain(n1),
        reads_as(v1, t1),
        is_plain(n2),
        reads_as(v2, t2),
        is_plain(n3),
        reads_as(v3, t3),
        n1 != n2,
        n1 != n3,
        n2 != n3,
    ensures
        reads_as(
            seq!['{'] + field(n1, v1) + seq![','] + field(n2, v2) + seq![','] + field(n3, v3) + seq!['}'],
            Tree::Object(seq![(n1, t1), (n2, t2), (n3, t3)]),
        ),
        member(Tree::Object(seq![(n1, t1), (n2, t2), (n3, t3)]), n1) == Some(t1),
        member(Tree::Object(seq![(n1, t1), (n2, t2), (n3, t3)]), n2) == Some(t2),
        member(Tree::Object(seq![(n1, t1), (n2, t2), (n3, t3)]), n3) == Some(t3),
        names_in(Some(Tree::Object(seq![(n1, t1), (n2, t2), (n3, t3)]))) == set![n1, n2, n3],
{
    let fields = seq![(n1, v1), (n2, v2), (n3, v3)];
    let members = seq![(n1, t1), (n2, t2), (n3, t3)];
    assert(fields.skip(1) =~= seq![(n2, v2), (n3, v3)]);
    assert(fields.skip(1).skip(1) =~= seq![(n3, v3)]);
    reveal_with_fuel(members_text, 4);
    assert(seq!['{'] + members_text(fields) + seq!['}'] =~= seq!['{'] + field(n1, v1) + seq![','] + field(n2, v2) + seq![','] + field(n3, v3) + seq!['}']);
    lemma_object_reads(fields, members);
    lemma_member(members, 0);
    lemma_member(members, 1);
    lemma_member(members, 2);
    assert forall|name: Seq<char>| names_in(Some(Tree::Object(members))).contains(name)
        == set![n1, n2, n3].contains(name) by {
        assert(members[0].0 == n1);
        assert(members[1].0 == n2);
        assert(members[2].0 == n3);
    }
    assert(names_in(Some(Tree::Object(members))) =~= set![n1, n2, n3]);
}

/// An object with four members is read as such.
pub proof fn lemma_object_four(
    n1: Seq<char>,
    v1: Seq<char>,
    t1: Tree,
    n2: Seq<char>,
    v2: Seq<char>,
    t2: Tree,
    n3: Seq<char>,
    v3: Seq<char>,
    t3: Tree,
    n4: Seq<char>,
    v4: Seq<char>,
    t4: Tree,
)
    requires
        is_plain(n1),
        reads_as(v1, t1),
        is_plain(n2),
        reads_as(v2, t2),
        is_plain(n3),
        reads_as(v3, t3),
        is_plain(n4),
        reads_as(v4, t4),
        n1 != n2,
        n1 != n3,
        n1 != n4,
        n2 != n3,
        n2 != n4,
        n3 != n4,
    ensures
        reads_as(
            seq!['{'] + field(n1, v1) + seq![','] + field(n2, v2) + seq![','] + field(n3, v3) + seq![','] + field(n4, v4) + seq!['}'],
            Tree::Object(seq![(n1, t1), (n2, t2), (n3, t3), (n4, t4)]),
        ),
        member(Tree::Object(seq![(n1, t1), (n2, t2), (n3, t3), (n4, t4)]), n1) == Some(t1),
        member(Tree::Object(seq![(n1, t1), (n2, t2), (n3, t3), (n4, t4)]), n2) == Some(t2),
        member(Tree::Object(seq![(n1, t1), (n2, t2), (n3, t3), (n4, t4)]), n3) == Some(t3),
        member(Tree::Object(seq![(n1, t1), (n2, t2), (n3, t3), (n4, t4)]), n4) == Some(t4),
        names_in(Some(Tree::Object(seq![(n1, t1), (n2, t2), (n3, t3), (n4, t4)]))) == set![n1, n2, n3, n4],
{
    let fields = seq![(n1, v1), (n2, v2), (n3, v3), (n4, v4)];
    let members = seq![(n1, t1), (n2, t2), (n3, t3), (n4, t4)];
    assert(fields.skip(1) =~= seq![(n2, v2), (n3, v3), (n4, v4)]);
    assert(fields.skip(1).skip(1) =~= seq![(n3, v3), (n4, v4)]);
    assert(fields.skip(1).skip(1).skip(1) =~= seq![(n4, v4)]);
    reveal_with_fuel(members_text, 5);
    assert(seq!['{'] + members_text(fields) + seq!['}'] =~= seq!['{'] + field(n1, v1) + seq![','] + field(n2, v2) + seq![','] + field(n3, v3) + seq![','] + field(n4, v4) + seq!['}']);
    lemma_object_reads(fields, members);
    lemma_member(members, 0);
    lemma_member(members, 1);
    lemma_member(members, 2);
    lemma_member(members, 3);
    assert forall|name: Seq<char>| names_in(Some(Tree::Object(members))).contains(name)
        == set![n1, n2, n3, n4].contains(name) by {
        assert(members[0].0 == n1);
        assert(members[1].0 == n2);
        assert(members[2].0 == n3);
        assert(members[3].0 == n4);
    }
    assert(names_in(Some(Tree::Object(members))) =~= set![n1, n2, n3, n4]);
}

} // verus!
