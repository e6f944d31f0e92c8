//! The textures of a preview: their references in the material file, their files, and the names
//! inside these.
use crate::pool::texture_name;
use crate::sorted::SortedMap;
use crate::text::{chars_of, has_start, lowered, same_text, strip_end, text_of, trimmed};
use crate::workspace::AssetSource;
use vstd::prelude::*;
use vstd::utf8::encode_utf8;

verus! {

/// Why the textures of a model cannot be prepared.
#[derive(Debug, PartialEq, Eq)]
pub enum TextureError {
    /// A material references nothing.
    EmptyReference,
    /// A reference to something built in has no file.
    InternalReference(String),
    /// The file of a reference is not there.
    MissingFile { reference: String, file: String },
    /// There are more textures than the pool holds.
    PoolExceeded,
}

#[verifier::ext_equal]
pub enum TextureErrorView {
    EmptyReference,
    InternalReference(Seq<char>),
    MissingFile { reference: Seq<char>, file: Seq<char> },
    PoolExceeded,
}

impl View for TextureError {
    type V = TextureErrorView;

    open spec fn view(&self) -> TextureErrorView {
        match *self {
            TextureError::EmptyReference => TextureErrorView::EmptyReference,
            TextureError::InternalReference(t) => TextureErrorView::InternalReference(t@),
            TextureError::MissingFile { reference, file } => TextureErrorView::MissingFile {
                reference: reference@,
                file: file@,
            },
            TextureError::PoolExceeded => TextureErrorView::PoolExceeded,
        }
    }
}

/// A separator between the parts of a reference.
pub open spec fn is_separator(c: char) -> bool {
    c == '/' || c == '\\'
}

/// What follows the last separator.
pub open spec fn last_segment(text: Seq<char>) -> Seq<char>
    decreases text.len(),
{
    if text.len() == 0 || is_separator(text.last()) {
        Seq::empty()
    } else {
        last_segment(text.drop_last()).push(text.last())
    }
}

/// `text` without `part` at its end, or as it is.
pub open spec fn stripped(text: Seq<char>, part: Seq<char>) -> Seq<char> {
    match crate::text::without_end(text, part) {
        Some(t) => t,
        None => text,
    }
}

/// The texture that a reference means: a built-in one by its name, any other by the name of its
/// file, in small letters and without the extension.
pub open spec fn texture_key(reference: Seq<char>) -> Result<Seq<char>, TextureErrorView> {
    let text = crate::text::trim(reference);
    if text.len() == 0 {
        Err(TextureErrorView::EmptyReference)
    } else if text[0] == '#' {
        Ok(crate::text::lower(text))
    } else {
        Ok(stripped(crate::text::lower(last_segment(text)), ".nutexb"@))
    }
}

/// The key means a built-in texture.
pub open spec fn is_builtin(key: Seq<char>) -> bool {
    key.len() > 0 && key[0] == '#'
}

/// The reference leads to a texture that the game shares.
pub open spec fn is_shared(reference: Seq<char>) -> bool {
    crate::text::starts_with(reference, "/common/shader/"@)
}

/// The file that a reference means.
pub open spec fn source_of(
    files: Map<Seq<char>, crate::workspace::SourceView>,
    reference: Seq<char>,
) -> Result<crate::workspace::SourceView, TextureErrorView> {
    match texture_key(reference) {
        Err(e) => Err(e),
        Ok(key) => if is_builtin(key) {
            Err(TextureErrorView::InternalReference(reference))
        } else if files.contains_key(key + ".nutexb"@) {
            Ok(files[key + ".nutexb"@])
        } else {
            Err(TextureErrorView::MissingFile { reference, file: key + ".nutexb"@ })
        },
    }
}

/// A texture that is taken into the pool: its key and its file.
pub struct TakenView {
    pub key: Seq<char>,
    pub source: crate::workspace::SourceView,
}

/// The place of a texture among those taken so far.
pub open spec fn slot_of(taken: Seq<TakenView>, key: Seq<char>, i: int) -> Option<int>
    decreases taken.len() - i,
{
    if i < 0 || i >= taken.len() {
        None
    } else if taken[i].key == key {
        Some(i)
    } else {
        slot_of(taken, key, i + 1)
    }
}

/// The references of one material, taken from the pool: shared and built-in ones stay, any other
/// texture has one place, which it gets when it first occurs.
pub open spec fn pooled_references(
    references: Seq<Seq<char>>,
    files: Map<Seq<char>, crate::workspace::SourceView>,
    taken: Seq<TakenView>,
    capacity: usize,
) -> Result<(Seq<Seq<char>>, Seq<TakenView>), TextureErrorView>
    decreases references.len(),
{
    if references.len() == 0 {
        Ok((Seq::empty(), taken))
    } else {
        match pooled_references(references.drop_last(), files, taken, capacity) {
            Err(e) => Err(e),
            Ok((names, now)) => {
                let reference = references.last();
                if is_shared(reference) {
                    Ok((names.push(reference), now))
                } else {
                    match texture_key(reference) {
                        Err(e) => Err(e),
                        Ok(key) => if is_builtin(key) {
                            Ok((names.push(reference), now))
                        } else {
                            match source_of(files, reference) {
                                Err(e) => Err(e),
                                Ok(source) => match slot_of(now, key, 0) {
                                    Some(slot) => Ok(
                                        (names.push(crate::pool::texture_slot(slot as nat)), now),
                                    ),
                                    None => if now.len() >= capacity {
                                        Err(TextureErrorView::PoolExceeded)
                                    } else {
                                        Ok(
                                            (
                                                names.push(crate::pool::texture_slot(now.len())),
                                                now.push(TakenView { key, source }),
                                            ),
                                        )
                                    },
                                },
                            }
                        },
                    }
                }
            },
        }
    }
}

/// The references of every material, in order.
pub open spec fn pooled_materials(
    materials: Seq<Seq<Seq<char>>>,
    files: Map<Seq<char>, crate::workspace::SourceView>,
    capacity: usize,
) -> Result<(Seq<Seq<Seq<char>>>, Seq<TakenView>), TextureErrorView>
    decreases materials.len(),
{
    if materials.len() == 0 {
        Ok((Seq::empty(), Seq::empty()))
    } else {
        match pooled_materials(materials.drop_last(), files, capacity) {
            Err(e) => Err(e),
            Ok((done, taken)) => match pooled_references(
                materials.last(),
                files,
                taken,
                capacity,
            ) {
                Err(e) => Err(e),
                Ok((names, now)) => Ok((done.push(names), now)),
            },
        }
    }
}

/// The texture that a reference means.
pub fn normalized_texture_name(name: &str) -> (key: Result<String, TextureError>)
    ensures
        match key {
            Ok(k) => texture_key(name@) == Ok::<Seq<char>, TextureErrorView>(k@),
            Err(e) => texture_key(name@) == Err::<Seq<char>, TextureErrorView>(e@),
        },
{
    let text = trimmed(name);
    let chars = chars_of(text.as_str());
    if chars.len() == 0 {
        return Err(TextureError::EmptyReference);
    }
    if chars[0] == '#' {
        return Ok(lowered(text.as_str()));
    }
    let mut start: usize = chars.len();
    assert(chars@.subrange(start as int, start as int) =~= Seq::empty());
    while start > 0 && chars[start - 1] != '/' && chars[start - 1] != '\\'
        invariant
            start <= chars@.len(),
            forall|j: int| start <= j < chars@.len() ==> !is_separator(#[trigger] chars@[j]),
        decreases start,
    {
        start -= 1;
    }
    proof {
        lemma_last_segment(chars@, start as int);
    }
    let segment = text_of(&chars, start, chars.len());
    assert(segment@ =~= chars@.skip(start as int));
    let small = lowered(segment.as_str());
    match strip_end(small.as_str(), ".nutexb") {
        Some(key) => Ok(key),
        None => Ok(small),
    }
}

proof fn lemma_last_segment(text: Seq<char>, start: int)
    requires
        0 <= start <= text.len(),
        forall|j: int| start <= j < text.len() ==> !is_separator(#[trigger] text[j]),
        start == 0 || is_separator(text[start - 1]),
    ensures
        last_segment(text) == text.skip(start),
    decreases text.len(),
{
    if start == text.len() {
        assert(text.skip(start) =~= Seq::empty());
    } else {
        lemma_last_segment(text.drop_last(), start);
        assert(text.skip(start) =~= text.drop_last().skip(start).push(text.last()));
    }
}

/// The file that a reference means.
pub fn texture_source(files: &SortedMap<String, AssetSource>, reference: &str) -> (source: Result<
    AssetSource,
    TextureError,
>)
    requires
        files.wf(),
    ensures
        match source {
            Ok(s) => source_of(crate::workspace::source_views(files@), reference@) == Ok::<
                crate::workspace::SourceView,
                TextureErrorView,
            >(s@),
            Err(e) => source_of(crate::workspace::source_views(files@), reference@) == Err::<
                crate::workspace::SourceView,
                TextureErrorView,
            >(e@),
        },
{
    let key = match normalized_texture_name(reference) {
        Ok(key) => key,
        Err(e) => {
            return Err(e);
        },
    };
    if builtin(key.as_str()) {
        return Err(TextureError::InternalReference(reference.to_owned()));
    }
    let mut file = key;
    file.append(".nutexb");
    match files.get(&file) {
        Some(source) => Ok(source.clone()),
        None => Err(TextureError::MissingFile { reference: reference.to_owned(), file }),
    }
}

fn builtin(key: &str) -> (b: bool)
    ensures
        b == is_builtin(key@),
{
    let chars = chars_of(key);
    chars.len() > 0 && chars[0] == '#'
}

/// The materials with their references to the pool, and the files that go there.
#[derive(Debug)]
pub struct TexturePlan {
    pub materials: Vec<Vec<String>>,
    pub outputs: Vec<(String, AssetSource)>,
}

/// The views of lists of references.
pub open spec fn reference_views(materials: Seq<Vec<String>>) -> Seq<Seq<Seq<char>>> {
    Seq::new(materials.len(), |i: int| crate::text::texts(materials[i]@))
}

/// The files with the names that the pool has for them.
pub open spec fn texture_files(
    taken: Seq<TakenView>,
) -> Seq<(Seq<char>, crate::workspace::SourceView)> {
    Seq::new(
        taken.len(),
        |i: int| (crate::pool::texture_slot(i as nat) + ".nutexb"@, taken[i].source),
    )
}

spec fn taken_views(keys: Seq<String>, sources: Seq<AssetSource>) -> Seq<TakenView> {
    Seq::new(keys.len(), |i: int| TakenView { key: keys[i]@, source: sources[i]@ })
}

fn find_slot(
    keys: &Vec<String>,
    key: &str,
    Ghost(sources): Ghost<Seq<AssetSource>>,
) -> (slot: Option<usize>)
    ensures
        match slot {
            Some(i) => slot_of(taken_views(keys@, sources), key@, 0) == Some(i as int) && i
                < keys@.len(),
            None => slot_of(taken_views(keys@, sources), key@, 0) is None,
        },
{
    let ghost all = taken_views(keys@, sources);
    let mut i: usize = 0;
    while i < keys.len()
        invariant
            i <= keys@.len(),
            all == taken_views(keys@, sources),
            slot_of(all, key@, 0) == slot_of(all, key@, i as int),
        decreases keys@.len() - i,
    {
        assert(all[i as int].key == keys@[i as int]@);
        if same_text(keys[i].as_str(), key) {
            return Some(i);
        }
        i += 1;
    }
    None
}

proof fn lemma_references_error(
    references: Seq<Seq<char>>,
    files: Map<Seq<char>, crate::workspace::SourceView>,
    taken: Seq<TakenView>,
    capacity: usize,
    k: int,
)
    requires
        0 <= k <= references.len(),
    ensures
        pooled_references(references.take(k), files, taken, capacity) is Err ==> pooled_references(
            references,
            files,
            taken,
            capacity,
        ) == pooled_references(references.take(k), files, taken, capacity),
    decreases references.len(),
{
    if k == references.len() {
        assert(references.take(k) =~= references);
    } else {
        lemma_references_error(references.drop_last(), files, taken, capacity, k);
        assert(references.drop_last().take(k) =~= references.take(k));
    }
}

proof fn lemma_materials_error(
    materials: Seq<Seq<Seq<char>>>,
    files: Map<Seq<char>, crate::workspace::SourceView>,
    capacity: usize,
    k: int,
)
    requires
        0 <= k <= materials.len(),
    ensures
        pooled_materials(materials.take(k), files, capacity) is Err ==> pooled_materials(
            materials,
            files,
            capacity,
        ) == pooled_materials(materials.take(k), files, capacity),
    decreases materials.len(),
{
    if k == materials.len() {
        assert(materials.take(k) =~= materials);
    } else {
        lemma_materials_error(materials.drop_last(), files, capacity, k);
        assert(materials.drop_last().take(k) =~= materials.take(k));
    }
}

/// Takes the references of one material from the pool.
fn pool_material(
    references: &Vec<String>,
    files: &SortedMap<String, AssetSource>,
    keys: &mut Vec<String>,
    sources: &mut Vec<AssetSource>,
    capacity: usize,
) -> (names: Result<Vec<String>, TextureError>)
    requires
        files.wf(),
        old(keys)@.len() == old(sources)@.len(),
    ensures
        final(keys)@.len() == final(sources)@.len(),
        match pooled_references(
            crate::text::texts(references@),
            crate::workspace::source_views(files@),
            taken_views(old(keys)@, old(sources)@),
            capacity,
        ) {
            Ok((wanted, now)) => names is Ok && crate::text::texts(names->Ok_0@) == wanted
                && taken_views(final(keys)@, final(sources)@) == now,
            Err(e) => names is Err && names->Err_0@ == e,
        },
{
    let ghost all = crate::text::texts(references@);
    let ghost views = crate::workspace::source_views(files@);
    let ghost start = taken_views(keys@, sources@);
    let mut names: Vec<String> = Vec::new();
    let mut i: usize = 0;
    assert(all.take(0).len() == 0);
    assert(crate::text::texts(names@) =~= Seq::empty());
    while i < references.len()
        invariant
            i <= references@.len(),
            all == crate::text::texts(references@),
            files.wf(),
            views == crate::workspace::source_views(files@),
            start == taken_views(old(keys)@, old(sources)@),
            keys@.len() == sources@.len(),
            pooled_references(all.take(i as int), views, start, capacity) == Ok::<
                (Seq<Seq<char>>, Seq<TakenView>),
                TextureErrorView,
            >((crate::text::texts(names@), taken_views(keys@, sources@))),
        decreases references@.len() - i,
    {
        let reference = references[i].as_str();
        proof {
            assert(all.take(i + 1).drop_last() =~= all.take(i as int));
            assert(all.take(i + 1).last() == reference@);
            lemma_references_error(all, views, start, capacity, i + 1);
        }
        let ghost before = crate::text::texts(names@);
        let ghost taken = taken_views(keys@, sources@);
        if has_start(reference, "/common/shader/") {
            names.push(reference.to_owned());
            assert(crate::text::texts(names@) =~= before.push(reference@));
        } else {
            let key = match normalized_texture_name(reference) {
                Ok(key) => key,
                Err(e) => {
                    return Err(e);
                },
            };
            if builtin(key.as_str()) {
                names.push(reference.to_owned());
                assert(crate::text::texts(names@) =~= before.push(reference@));
            } else {
                let source = match texture_source(files, reference) {
                    Ok(source) => source,
                    Err(e) => {
                        return Err(e);
                    },
                };
                let slot: usize = match find_slot(keys, key.as_str(), Ghost(sources@)) {
                    Some(slot) => slot,
                    None => {
                        if keys.len() >= capacity {
                            return Err(TextureError::PoolExceeded);
                        }
                        let slot: usize = keys.len();
                        keys.push(key);
                        sources.push(source);
                        assert(taken_views(keys@, sources@) =~= taken.push(
                            TakenView { key: key@, source: source@ },
                        ));
                        slot
                    },
                };
                let name = texture_name(slot);
                names.push(name);
                assert(crate::text::texts(names@) =~= before.push(name@));
            }
        }
        i += 1;
    }
    assert(all.take(i as int) =~= all);
    Ok(names)
}

/// Takes the references of every material from the pool. `materials` are the references of each.
pub fn carrier_texture_outputs(
    materials: &Vec<Vec<String>>,
    files: &SortedMap<String, AssetSource>,
    capacity: usize,
) -> (plan: Result<TexturePlan, TextureError>)
    requires
        files.wf(),
    ensures
        match pooled_materials(
            reference_views(materials@),
            crate::workspace::source_views(files@),
            capacity,
        ) {
            Ok((wanted, taken)) => plan is Ok && reference_views(plan->Ok_0.materials@) == wanted
                && crate::motions::pooled_files(plan->Ok_0.outputs@) == texture_files(taken),
            Err(e) => plan is Err && plan->Err_0@ == e,
        },
{
    let ghost all = reference_views(materials@);
    let ghost views = crate::workspace::source_views(files@);
    let mut keys: Vec<String> = Vec::new();
    let mut sources: Vec<AssetSource> = Vec::new();
    let mut done: Vec<Vec<String>> = Vec::new();
    let mut i: usize = 0;
    proof {
        assert(all.take(0).len() == 0);
        assert(reference_views(done@) =~= Seq::empty());
        assert(taken_views(keys@, sources@) =~= Seq::empty());
    }
    while i < materials.len()
        invariant
            i <= materials@.len(),
            all == reference_views(materials@),
            files.wf(),
            views == crate::workspace::source_views(files@),
            keys@.len() == sources@.len(),
            pooled_materials(all.take(i as int), views, capacity) == Ok::<
                (Seq<Seq<Seq<char>>>, Seq<TakenView>),
                TextureErrorView,
            >((reference_views(done@), taken_views(keys@, sources@))),
        decreases materials@.len() - i,
    {
        proof {
            assert(all.take(i + 1).drop_last() =~= all.take(i as int));
            assert(all.take(i + 1).last() == crate::text::texts(materials@[i as int]@));
            lemma_materials_error(all, views, capacity, i + 1);
        }
        match pool_material(&materials[i], files, &mut keys, &mut sources, capacity) {
            Ok(names) => {
                let ghost before = reference_views(done@);
                done.push(names);
                assert(reference_views(done@) =~= before.push(crate::text::texts(names@)));
            },
            Err(e) => {
                return Err(e);
            },
        }
        i += 1;
    }
    assert(all.take(i as int) =~= all);
    let ghost taken = taken_views(keys@, sources@);
    let mut outputs: Vec<(String, AssetSource)> = Vec::new();
    let mut k: usize = 0;
    while k < sources.len()
        invariant
            k <= sources@.len(),
            outputs@.len() == k,
            keys@.len() == sources@.len(),
            taken == taken_views(keys@, sources@),
            forall|j: int|
                0 <= j < k ==> crate::motions::pooled_files(outputs@)[j]
                    == #[trigger] texture_files(taken)[j],
        decreases sources@.len() - k,
    {
        let ghost before = crate::motions::pooled_files(outputs@);
        let mut name = texture_name(k);
        name.append(".nutexb");
        outputs.push((name, sources[k].clone()));
        proof {
            assert forall|j: int| 0 <= j < k + 1 implies crate::motions::pooled_files(outputs@)[j]
                == #[trigger] texture_files(taken)[j] by {
                if j < k {
                    assert(crate::motions::pooled_files(outputs@)[j] == before[j]);
                }
            }
        }
        k += 1;
    }
    assert(crate::motions::pooled_files(outputs@) =~= texture_files(taken));
    Ok(TexturePlan { materials: done, outputs })
}

// ── The name inside a texture file ───────────────────────────────────────────

/// The length of the footer that ends a texture file.
pub const FOOTER_LEN: usize = 112;

/// Why a texture file cannot be renamed.
#[derive(Clone, Copy, Debug, PartialEq, Eq, Structural)]
pub enum FooterError {
    /// The name is too long, or the file too short.
    Invalid,
    /// The footer is not that of a texture file.
    NoFooter,
}

/// The footer carries its two marks.
pub open spec fn is_footer(footer: Seq<u8>) -> bool {
    &&& footer.len() == FOOTER_LEN
    &&& footer[0] == 0x20 && footer[1] == 0x58 && footer[2] == 0x4e && footer[3] == 0x54
    &&& footer[104] == 0x20 && footer[105] == 0x58 && footer[106] == 0x45 && footer[107] == 0x54
}

/// The footer with another name: 64 bytes, filled up with zeros. Everything else stays.
pub open spec fn renamed_footer(footer: Seq<u8>, name: Seq<u8>) -> Seq<u8> {
    Seq::new(
        footer.len(),
        |i: int|
            if 4 <= i < 68 {
                if i - 4 < name.len() {
                    name[i - 4]
                } else {
                    0u8
                }
            } else {
                footer[i]
            },
    )
}

/// Whether a file of this length can hold a texture of this name.
pub fn can_hold_texture(file_len: u64, name: &str) -> (b: bool)
    ensures
        b == (encode_utf8(name@).len() < 64 && file_len >= FOOTER_LEN),
{
    name.as_bytes().len() < 64 && file_len >= FOOTER_LEN as u64
}

/// Gives the texture whose file ends in `footer` another name.
pub fn rename_carrier_texture(footer: &Vec<u8>, name: &str) -> (result: Result<
    Vec<u8>,
    FooterError,
>)
    ensures
        match result {
            Ok(bytes) => encode_utf8(name@).len() < 64 && is_footer(footer@) && bytes@
                == renamed_footer(footer@, encode_utf8(name@)),
            Err(e) => e == if encode_utf8(name@).len() >= 64 || footer@.len() != FOOTER_LEN {
                FooterError::Invalid
            } else {
                FooterError::NoFooter
            } && !(encode_utf8(name@).len() < 64 && is_footer(footer@)),
        },
{
    let text = name.as_bytes();
    if text.len() >= 64 || footer.len() != FOOTER_LEN {
        return Err(FooterError::Invalid);
    }
    if footer[0] != 0x20 || footer[1] != 0x58 || footer[2] != 0x4e || footer[3] != 0x54
        || footer[104] != 0x20 || footer[105] != 0x58 || footer[106] != 0x45 || footer[107]
        != 0x54 {
        return Err(FooterError::NoFooter);
    }
    let mut bytes: Vec<u8> = Vec::new();
    let mut i: usize = 0;
    while i < footer.len()
        invariant
            i <= footer@.len(),
            footer@.len() == FOOTER_LEN,
            text@ == encode_utf8(name@),
            text@.len() < 64,
            bytes@ == renamed_footer(footer@, text@).take(i as int),
        decreases footer@.len() - i,
    {
        let byte: u8 = if i >= 4 && i < 68 {
            if i - 4 < text.len() {
                text[i - 4]
            } else {
                0
            }
        } else {
            footer[i]
        };
        bytes.push(byte);
        assert(bytes@ =~= renamed_footer(footer@, text@).take(i + 1));
        i += 1;
    }
    assert(bytes@ =~= renamed_footer(footer@, text@));
    Ok(bytes)
}

/// A renamed texture reads back its new name, ended by a zero, and keeps all that describes its
/// image.
pub proof fn law_rename_touches_only_the_name(footer: Seq<u8>, name: Seq<u8>)
    requires
        is_footer(footer),
        name.len() < 64,
    ensures
        is_footer(renamed_footer(footer, name)),
        renamed_footer(footer, name).subrange(4, 4 + name.len() as int) == name,
        renamed_footer(footer, name)[4 + name.len() as int] == 0,
        renamed_footer(footer, name).skip(68) == footer.skip(68),
        renamed_footer(footer, name).take(4) == footer.take(4),
{
    let now = renamed_footer(footer, name);
    assert(now.subrange(4, 4 + name.len() as int) =~= name);
    assert(now.skip(68) =~= footer.skip(68));
    assert(now.take(4) =~= footer.take(4));
}

// ── Laws ─────────────────────────────────────────────────────────────────────

proof fn lemma_slot(taken: Seq<TakenView>, key: Seq<char>, i: int)
    requires
        0 <= i <= taken.len(),
    ensures
        match slot_of(taken, key, i) {
            Some(k) => i <= k < taken.len() && taken[k].key == key,
            None => forall|k: int| i <= k < taken.len() ==> (#[trigger] taken[k]).key != key,
        },
    decreases taken.len() - i,
{
    if i < taken.len() && taken[i].key != key {
        lemma_slot(taken, key, i + 1);
    }
}

proof fn lemma_slot_push(taken: Seq<TakenView>, more: TakenView, key: Seq<char>, i: int)
    requires
        0 <= i <= taken.len(),
    ensures
        slot_of(taken, key, i) is Some ==> slot_of(taken.push(more), key, i) == slot_of(
            taken,
            key,
            i,
        ),
        slot_of(taken, key, i) is None && more.key == key ==> slot_of(taken.push(more), key, i)
            == Some(taken.len() as int),
    decreases taken.len() - i,
{
    let all = taken.push(more);
    if i < taken.len() {
        assert(all[i] == taken[i]);
        if taken[i].key != key {
            lemma_slot_push(taken, more, key, i + 1);
        }
    } else {
        assert(all[i] == more);
    }
}

/// A reference keeps its meaning: a shared or built-in texture by its own name, any other by the
/// place that its key has in the pool.
pub open spec fn keeps_meaning(
    reference: Seq<char>,
    name: Seq<char>,
    taken: Seq<TakenView>,
) -> bool {
    if is_shared(reference) {
        name == reference
    } else {
        texture_key(reference) matches Ok(key) && if is_builtin(key) {
            name == reference
        } else {
            slot_of(taken, key, 0) matches Some(slot) && name == crate::pool::texture_slot(
                slot as nat,
            )
        }
    }
}

proof fn lemma_references(
    references: Seq<Seq<char>>,
    files: Map<Seq<char>, crate::workspace::SourceView>,
    taken: Seq<TakenView>,
    capacity: usize,
)
    requires
        taken.len() <= capacity,
    ensures
        pooled_references(references, files, taken, capacity) matches Ok((names, now)) ==> {
            &&& names.len() == references.len()
            &&& taken.len() <= now.len() <= capacity
            &&& forall|key: Seq<char>| #[trigger]
                slot_of(taken, key, 0) is Some ==> slot_of(now, key, 0) == slot_of(taken, key, 0)
            &&& forall|j: int|
                0 <= j < names.len() ==> keeps_meaning(references[j], #[trigger] names[j], now)
        },
    decreases references.len(),
{
    if references.len() > 0 && pooled_references(references, files, taken, capacity) is Ok {
        let rest = references.drop_last();
        lemma_references(rest, files, taken, capacity);
        let (head, mid) = pooled_references(rest, files, taken, capacity)->Ok_0;
        let (names, now) = pooled_references(references, files, taken, capacity)->Ok_0;
        let reference = references.last();
        if now != mid {
            let key = texture_key(reference)->Ok_0;
            let more = TakenView { key, source: source_of(files, reference)->Ok_0 };
            assert(now == mid.push(more));
            lemma_slot_push(mid, more, key, 0);
            assert forall|k: Seq<char>| #[trigger] slot_of(mid, k, 0) is Some implies slot_of(
                now,
                k,
                0,
            ) == slot_of(mid, k, 0) by {
                lemma_slot_push(mid, more, k, 0);
            }
        }
        assert forall|j: int| 0 <= j < names.len() implies keeps_meaning(
            references[j],
            #[trigger] names[j],
            now,
        ) by {
            if j < head.len() {
                assert(rest[j] == references[j]);
                assert(names[j] == head[j]);
                assert(keeps_meaning(rest[j], head[j], mid));
            } else {
                assert(references[j] == reference);
            }
        }
    }
}

/// Material references and texture files are renamed together: every reference of every material
/// keeps its meaning, two references to one texture share its place, and the pool is not
/// exceeded.
pub proof fn law_references_keep_their_meaning(
    materials: Seq<Seq<Seq<char>>>,
    files: Map<Seq<char>, crate::workspace::SourceView>,
    capacity: usize,
)
    ensures
        pooled_materials(materials, files, capacity) matches Ok((done, taken)) ==> {
            &&& done.len() == materials.len()
            &&& taken.len() <= capacity
            &&& forall|i: int|
                0 <= i < materials.len() ==> (#[trigger] done[i]).len() == materials[i].len()
            &&& forall|i: int, j: int|
                0 <= i < materials.len() && 0 <= j < materials[i].len() ==> keeps_meaning(
                    materials[i][j],
                    #[trigger] done[i][j],
                    taken,
                )
        },
    decreases materials.len(),
{
    if materials.len() > 0 && pooled_materials(materials, files, capacity) is Ok {
        let rest = materials.drop_last();
        law_references_keep_their_meaning(rest, files, capacity);
        let (head, mid) = pooled_materials(rest, files, capacity)->Ok_0;
        let (done, taken) = pooled_materials(materials, files, capacity)->Ok_0;
        lemma_references(materials.last(), files, mid, capacity);
        assert forall|i: int| 0 <= i < materials.len() implies (#[trigger] done[i]).len()
            == materials[i].len() by {
            if i < head.len() {
                assert(done[i] == head[i]);
                assert(rest[i] == materials[i]);
            }
        }
        assert forall|i: int, j: int|
            0 <= i < materials.len() && 0 <= j < materials[i].len() implies keeps_meaning(
            materials[i][j],
            #[trigger] done[i][j],
            taken,
        ) by {
            if i < head.len() {
                assert(done[i] == head[i]);
                assert(rest[i] == materials[i]);
                assert(keeps_meaning(materials[i][j], head[i][j], mid));
            }
        }
    }
}

/// What is taken into the pool: each texture once, from the file of its own name.
pub open spec fn taken_from_files(
    taken: Seq<TakenView>,
    files: Map<Seq<char>, crate::workspace::SourceView>,
) -> bool {
    &&& forall|i: int|
        0 <= i < taken.len() ==> files.contains_key((#[trigger] taken[i]).key + ".nutexb"@)
            && taken[i].source == files[taken[i].key + ".nutexb"@]
    &&& forall|i: int, j: int|
        0 <= i < j < taken.len() ==> (#[trigger] taken[i]).key != (#[trigger] taken[j]).key
}

proof fn lemma_references_taken(
    references: Seq<Seq<char>>,
    files: Map<Seq<char>, crate::workspace::SourceView>,
    taken: Seq<TakenView>,
    capacity: usize,
)
    requires
        taken_from_files(taken, files),
    ensures
        pooled_references(references, files, taken, capacity) matches Ok((_, now))
            ==> taken_from_files(now, files),
    decreases references.len(),
{
    if references.len() > 0 && pooled_references(references, files, taken, capacity) is Ok {
        let rest = references.drop_last();
        lemma_references_taken(rest, files, taken, capacity);
        let (_, mid) = pooled_references(rest, files, taken, capacity)->Ok_0;
        let (_, now) = pooled_references(references, files, taken, capacity)->Ok_0;
        if now != mid {
            let key = texture_key(references.last())->Ok_0;
            lemma_slot(mid, key, 0);
            assert(now == mid.push(
                TakenView { key, source: source_of(files, references.last())->Ok_0 },
            ));
            assert forall|i: int| 0 <= i < now.len() implies files.contains_key(
                (#[trigger] now[i]).key + ".nutexb"@,
            ) && now[i].source == files[now[i].key + ".nutexb"@] by {
                if i < mid.len() {
                    assert(now[i] == mid[i]);
                }
            }
            assert forall|i: int, j: int| 0 <= i < j < now.len() implies (#[trigger] now[i]).key
                != (#[trigger] now[j]).key by {
                assert(now[i] == mid[i]);
                if j < mid.len() {
                    assert(now[j] == mid[j]);
                }
            }
        }
    }
}

proof fn lemma_materials_taken(
    materials: Seq<Seq<Seq<char>>>,
    files: Map<Seq<char>, crate::workspace::SourceView>,
    capacity: usize,
)
    ensures
        pooled_materials(materials, files, capacity) matches Ok((_, taken)) ==> taken_from_files(
            taken,
            files,
        ),
    decreases materials.len(),
{
    if materials.len() > 0 && pooled_materials(materials, files, capacity) is Ok {
        lemma_materials_taken(materials.drop_last(), files, capacity);
        let (_, mid) = pooled_materials(materials.drop_last(), files, capacity)->Ok_0;
        lemma_references_taken(materials.last(), files, mid, capacity);
    }
}

/// A reference to a texture of the model leads to a file of the pool that is a copy of the very
/// file that it meant: under the name that the material now has, and with one copy for all
/// references to it.
pub proof fn law_references_lead_to_their_files(
    materials: Seq<Seq<Seq<char>>>,
    files: Map<Seq<char>, crate::workspace::SourceView>,
    capacity: usize,
    i: int,
    j: int,
)
    requires
        pooled_materials(materials, files, capacity) is Ok,
        0 <= i < materials.len(),
        0 <= j < materials[i].len(),
    ensures
        ({
            let (done, taken) = pooled_materials(materials, files, capacity)->Ok_0;
            let written = texture_files(taken);
            let reference = materials[i][j];
            let name = done[i][j];
            let is_kept = crate::text::starts_with(reference, "/common/shader/"@) || (texture_key(
                reference,
            ) is Ok && texture_key(reference)->Ok_0.len() > 0 && texture_key(reference)->Ok_0[0]
                == '#');
            &&& is_kept ==> name == reference
            &&& !is_kept ==> texture_key(reference) is Ok && exists|k: int|
                0 <= k < written.len() && (#[trigger] written[k]).0 == name + ".nutexb"@
                    && files.contains_key(texture_key(reference)->Ok_0 + ".nutexb"@)
                    && written[k].1 == files[texture_key(reference)->Ok_0 + ".nutexb"@]
        }),
{
    law_references_keep_their_meaning(materials, files, capacity);
    lemma_materials_taken(materials, files, capacity);
    let (done, taken) = pooled_materials(materials, files, capacity)->Ok_0;
    let reference = materials[i][j];
    let name = done[i][j];
    assert(keeps_meaning(reference, name, taken));
    if !is_shared(reference) && !is_builtin(texture_key(reference)->Ok_0) {
        let key = texture_key(reference)->Ok_0;
        lemma_slot(taken, key, 0);
        let slot = slot_of(taken, key, 0)->Some_0;
        assert(taken[slot].key == key);
        assert(texture_files(taken)[slot].0 == name + ".nutexb"@);
    }
}

/// A reference means the texture of its file name, in small letters and without its extension,
/// whatever folder stands before it and whatever white space around it.
pub proof fn law_references_mean_their_file(folder: Seq<char>, name: Seq<char>)
    requires
        name.len() > 0,
        forall|i: int| 0 <= i < name.len() ==> (#[trigger] name[i]) != '/' && name[i] != '\\',
        !crate::text::is_space(name[0]),
        folder.len() > 0 ==> !crate::text::is_space(folder[0]) && folder[0] != '#',
        name[0] != '#',
        !crate::text::ends_with(crate::text::lower(name), ".nutexb"@),
        !crate::text::is_space(name.last()),
    ensures
        texture_key(name) == Ok::<Seq<char>, TextureErrorView>(crate::text::lower(name)),
        texture_key(name + ".nutexb"@) == Ok::<Seq<char>, TextureErrorView>(
            crate::text::lower(name),
        ),
        folder.len() > 0 ==> texture_key(folder + seq!['/'] + name) == Ok::<
            Seq<char>,
            TextureErrorView,
        >(crate::text::lower(name)),
        folder.len() > 0 ==> texture_key(folder + seq!['\\'] + name) == Ok::<
            Seq<char>,
            TextureErrorView,
        >(crate::text::lower(name)),
{
    reveal_strlit(".nutexb");
    let small = crate::text::lower(name);
    lemma_untrimmed(name);
    assert(forall|j: int| 0 <= j < name.len() ==> !is_separator(#[trigger] name[j]));
    lemma_last_segment(name, 0);
    assert(name.skip(0) =~= name);
    let full = name + ".nutexb"@;
    lemma_untrimmed(full);
    assert forall|j: int| 0 <= j < full.len() implies !is_separator(#[trigger] full[j]) by {
        if j < name.len() {
            assert(full[j] == name[j]);
        }
    }
    lemma_last_segment(full, 0);
    assert(full.skip(0) =~= full);
    let low = crate::text::lower(full);
    assert(low =~= small + ".nutexb"@);
    assert(low.skip(low.len() - 7) =~= ".nutexb"@);
    assert(low.take(low.len() - 7) =~= small);
    if folder.len() > 0 {
        lemma_behind_separator(folder, '/', name);
        lemma_behind_separator(folder, '\\', name);
    }
}

proof fn lemma_untrimmed(text: Seq<char>)
    requires
        text.len() > 0,
        !crate::text::is_space(text[0]),
        !crate::text::is_space(text.last()),
    ensures
        crate::text::trim(text) == text,
{
    assert(crate::text::trim_start(text) == text);
}

proof fn lemma_behind_separator(folder: Seq<char>, c: char, name: Seq<char>)
    requires
        is_separator(c),
        folder.len() > 0,
        name.len() > 0,
        !crate::text::is_space(folder[0]),
        folder[0] != '#',
        !crate::text::is_space(name.last()),
        forall|j: int| 0 <= j < name.len() ==> !is_separator(#[trigger] name[j]),
        !crate::text::ends_with(crate::text::lower(name), ".nutexb"@),
    ensures
        texture_key(folder + seq![c] + name) == Ok::<Seq<char>, TextureErrorView>(
            crate::text::lower(name),
        ),
{
    let path = folder + seq![c] + name;
    let start = folder.len() + 1;
    lemma_untrimmed(path);
    assert forall|j: int| start <= j < path.len() implies !is_separator(#[trigger] path[j]) by {
        assert(path[j] == name[j - start]);
    }
    lemma_last_segment(path, start as int);
    assert(path.skip(start as int) =~= name);
}

} // verus!
