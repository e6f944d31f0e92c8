//! The motion graph of a preview: every motion keeps its identity, and its animations are taken
//! from the pool.
use crate::pool::{motion_name, motion_stem_name, ResourcePool};
use crate::sorted::SortedMap;
use crate::text::{chars_of, has_start, same_text, strip_end, text_of};
use crate::workspace::AssetSource;
use vstd::prelude::*;

verus! {

/// What `hash40::hash40` makes of a text: the hash by which the game knows it.
pub uninterp spec fn hash40_of(text: Seq<char>) -> u64;

/// `hash40::hash40`: the length of the text and a checksum of it in small letters, in one number.
/// The result depends on `text` alone; it is named, not described.
#[verifier::external_body]
pub(crate) fn hash_text(text: &str) -> (hash: u64)
    ensures
        hash == hash40_of(text@),
{
    hash40::hash40(text).0
}

/// The value of a hexadecimal digit.
pub open spec fn hex_digit(c: char) -> Option<nat> {
    if '0' <= c <= '9' {
        Some((c as nat - 48) as nat)
    } else if 'a' <= c <= 'f' {
        Some((c as nat - 87) as nat)
    } else if 'A' <= c <= 'F' {
        Some((c as nat - 55) as nat)
    } else {
        None
    }
}

/// The number that hexadecimal digits stand for.
pub open spec fn hex_value(text: Seq<char>) -> Option<nat>
    decreases text.len(),
{
    if text.len() == 0 {
        Some(0)
    } else {
        match (hex_value(text.drop_last()), hex_digit(text.last())) {
            (Some(head), Some(d)) => Some(head * 16 + d),
            _ => None,
        }
    }
}

/// The 64-bit number that `text` spells in hexadecimal, with a `+` in front at most.
pub open spec fn hex_number(text: Seq<char>) -> Option<u64> {
    let digits = crate::text::without_plus(text);
    if digits.len() == 0 {
        None
    } else {
        match hex_value(digits) {
            Some(n) => if n <= u64::MAX {
                Some(n as u64)
            } else {
                None
            },
            None => None,
        }
    }
}

/// The hash that a name like `0x1a2b` spells out.
pub open spec fn raw_hash(stem: Seq<char>) -> Option<u64> {
    if crate::text::starts_with(stem, "0x"@) {
        hex_number(stem.skip(2))
    } else {
        None
    }
}

proof fn lemma_hex_prefix(text: Seq<char>, k: int)
    requires
        0 <= k <= text.len(),
    ensures
        hex_value(text.take(k)) is None ==> hex_value(text) is None,
        hex_value(text) is Some ==> hex_value(text.take(k))->Some_0 <= hex_value(text)->Some_0,
    decreases text.len(),
{
    if k == text.len() {
        assert(text.take(k) =~= text);
    } else {
        lemma_hex_prefix(text.drop_last(), k);
        assert(text.drop_last().take(k) =~= text.take(k));
    }
}

fn read_hex(text: &str) -> (n: Option<u64>)
    ensures
        n == hex_number(text@),
{
    let chars = chars_of(text);
    let start: usize = if chars.len() > 0 && chars[0] == '+' {
        1
    } else {
        0
    };
    let ghost digits = crate::text::without_plus(text@);
    assert(digits =~= chars@.skip(start as int));
    if start == chars.len() {
        return None;
    }
    let mut value: u64 = 0;
    let mut i: usize = start;
    assert(digits.take(0).len() == 0);
    while i < chars.len()
        invariant
            start <= i <= chars@.len(),
            chars@ == text@,
            digits == crate::text::without_plus(text@),
            digits == chars@.skip(start as int),
            digits.len() > 0,
            hex_value(digits.take(i - start)) == Some(value as nat),
        decreases chars@.len() - i,
    {
        let c = chars[i];
        proof {
            assert(digits.take(i - start + 1).drop_last() =~= digits.take(i - start));
            assert(digits.take(i - start + 1).last() == c);
            lemma_hex_prefix(digits, i - start + 1);
        }
        let d: u64 = if '0' <= c && c <= '9' {
            c as u64 - 48
        } else if 'a' <= c && c <= 'f' {
            c as u64 - 87
        } else if 'A' <= c && c <= 'F' {
            c as u64 - 55
        } else {
            return None;
        };
        if value > u64::MAX / 16 {
            return None;
        }
        value = value * 16 + d;
        i += 1;
    }
    assert(digits.take(i - start) =~= digits);
    Some(value)
}

fn read_raw_hash(stem: &str) -> (hash: Option<u64>)
    ensures
        hash == raw_hash(stem@),
{
    if !has_start(stem, "0x") {
        return None;
    }
    let chars = chars_of(stem);
    proof {
        reveal_strlit("0x");
    }
    let rest = text_of(&chars, 2, chars.len());
    assert(rest@ =~= stem@.skip(2));
    read_hex(rest.as_str())
}

// ── Which animation a hash means ─────────────────────────────────────────────

/// An animation file, and whether the hash that led to it covers its extension.
#[derive(Debug)]
pub struct FoundAnimation {
    pub source: AssetSource,
    pub with_extension: bool,
}

/// A file by its name, with what is known of it.
pub open spec fn entry_list(
    files: SortedMap<String, AssetSource>,
) -> Seq<(Seq<char>, crate::workspace::SourceView)> {
    Seq::new(files.key_list().len(), |i: int| (files.key_list()[i], files.value_list()[i]@))
}

/// The animations by the hashes of their names, with and without extension, and by the hashes
/// that their names spell out. A later name wins.
pub open spec fn available(
    files: Seq<(Seq<char>, crate::workspace::SourceView)>,
) -> Map<u64, (crate::workspace::SourceView, bool)>
    decreases files.len(),
{
    if files.len() == 0 {
        Map::empty()
    } else {
        let before = available(files.drop_last());
        let (name, source) = files.last();
        match crate::text::without_end(name, ".nuanmb"@) {
            Some(stem) => {
                let named = before.insert(hash40_of(name), (source, true)).insert(
                    hash40_of(stem),
                    (source, false),
                );
                match raw_hash(stem) {
                    Some(hash) => named.insert(hash, (source, true)),
                    None => named,
                }
            },
            None => before,
        }
    }
}

/// The views of the found animations.
pub open spec fn found_views(
    found: Map<u64, FoundAnimation>,
) -> Map<u64, (crate::workspace::SourceView, bool)> {
    found.map_values(|f: FoundAnimation| (f.source@, f.with_extension))
}

fn insert_found(
    found: &mut SortedMap<u64, FoundAnimation>,
    hash: u64,
    source: &AssetSource,
    with_extension: bool,
)
    requires
        old(found).wf(),
    ensures
        final(found).wf(),
        found_views(final(found)@) == found_views(old(found)@).insert(
            hash,
            (source@, with_extension),
        ),
{
    let ghost before = found_views(found@);
    let item = FoundAnimation { source: source.clone(), with_extension };
    found.insert(hash, item);
    assert(found_views(found@) =~= before.insert(hash, (source@, with_extension)));
}

/// The animations by the hashes that mean them.
fn find_available(files: &SortedMap<String, AssetSource>) -> (found: SortedMap<
    u64,
    FoundAnimation,
>)
    requires
        files.wf(),
    ensures
        found.wf(),
        found_views(found@) == available(entry_list(*files)),
{
    let ghost all = entry_list(*files);
    let mut found: SortedMap<u64, FoundAnimation> = SortedMap::new();
    let mut i: usize = 0;
    assert(all.take(0).len() == 0);
    assert(found_views(found@) =~= available(all.take(0)));
    while i < files.len()
        invariant
            files.wf(),
            all == entry_list(*files),
            i <= all.len(),
            all.len() == files.key_list().len(),
            found.wf(),
            found_views(found@) == available(all.take(i as int)),
        decreases all.len() - i,
    {
        let name = files.key_at(i);
        let source = files.value_at(i);
        proof {
            assert(all.take(i + 1).drop_last() =~= all.take(i as int));
            assert(all.take(i + 1).last() == (name@, source@));
        }
        match strip_end(name.as_str(), ".nuanmb") {
            Some(stem) => {
                insert_found(&mut found, hash_text(name.as_str()), source, true);
                insert_found(&mut found, hash_text(stem.as_str()), source, false);
                match read_raw_hash(stem.as_str()) {
                    Some(hash) => {
                        insert_found(&mut found, hash, source, true);
                    },
                    None => {},
                }
            },
            None => {},
        }
        i += 1;
    }
    assert(all.take(i as int) =~= all);
    found
}

// ── The graph ────────────────────────────────────────────────────────────────

/// An animation of a motion: the hash of its name, and a further value that goes with it.
#[derive(Clone, Copy, Debug, PartialEq, Eq, Structural)]
pub struct Animation {
    pub name: u64,
    pub unk: u8,
}

/// How a motion is played. The flags without a name here are kept as they are.
#[derive(Clone, Copy, Debug, PartialEq, Eq, Structural)]
pub struct MotionFlags {
    pub fix_trans: bool,
    pub moves: bool,
    pub loops: bool,
    pub others: u16,
}

/// A motion of a fighter: its kind, the scripts that run with it, its flags, and its animations.
/// Scripts and animations go by the hashes of their names.
#[derive(Debug)]
pub struct MotionEntry {
    pub kind: u64,
    pub game_script: u64,
    pub flags: MotionFlags,
    pub scripts: Vec<u64>,
    pub animations: Vec<Animation>,
    /// Whatever else the list holds of the motion, as bytes.
    pub rest: Vec<u8>,
}

#[verifier::ext_equal]
pub struct MotionView {
    pub kind: u64,
    pub game_script: u64,
    pub flags: MotionFlags,
    pub scripts: Seq<u64>,
    pub animations: Seq<Animation>,
    pub rest: Seq<u8>,
}

impl View for MotionEntry {
    type V = MotionView;

    open spec fn view(&self) -> MotionView {
        MotionView {
            kind: self.kind,
            game_script: self.game_script,
            flags: self.flags,
            scripts: self.scripts@,
            animations: self.animations@,
            rest: self.rest@,
        }
    }
}

/// The hashes of the names of animations.
pub open spec fn names_of(animations: Seq<Animation>) -> Seq<u64> {
    Seq::new(animations.len(), |i: int| animations[i].name)
}

/// The motion with other names for its animations.
pub open spec fn renamed(motion: MotionView, names: Seq<u64>) -> MotionView {
    MotionView {
        animations: Seq::new(
            motion.animations.len(),
            |i: int| Animation { name: names[i], unk: motion.animations[i].unk },
        ),
        ..motion
    }
}

/// The two motions are the same but for the names of their animations.
pub open spec fn same_but_names(a: MotionView, b: MotionView) -> bool {
    &&& a.kind == b.kind
    &&& a.game_script == b.game_script
    &&& a.flags == b.flags
    &&& a.scripts == b.scripts
    &&& a.rest == b.rest
    &&& a.animations.len() == b.animations.len()
    &&& forall|j: int|
        0 <= j < a.animations.len() ==> (#[trigger] a.animations[j]).unk == b.animations[j].unk
}

/// The views of a list of motions.
pub open spec fn motion_views(list: Seq<MotionEntry>) -> Seq<MotionView> {
    Seq::new(list.len(), |i: int| list[i]@)
}

/// Why a motion graph cannot be built.
#[derive(Clone, Copy, Debug, PartialEq, Eq, Structural)]
pub enum MotionError {
    /// There is no motion list.
    NoMotionList,
    /// A motion needs an animation that is not there.
    MissingAnimation { kind: u64, animation: u64 },
    /// There are more animations than the pool holds.
    PoolExceeded,
    /// The list names no animation.
    NoAnimations,
}

/// The place of a file among those taken so far.
pub open spec fn place_of(
    taken: Seq<crate::workspace::SourceView>,
    path: Seq<char>,
    i: int,
) -> Option<int>
    decreases taken.len() - i,
{
    if i < 0 || i >= taken.len() {
        None
    } else if taken[i].path == path {
        Some(i)
    } else {
        place_of(taken, path, i + 1)
    }
}

/// The hash of a pool animation, as the hash it takes the place of covers the extension or not.
pub open spec fn pooled_hash(index: int, with_extension: bool) -> u64 {
    if with_extension {
        hash40_of(crate::pool::motion_slot(index as nat))
    } else {
        hash40_of(crate::pool::motion_stem(index as nat))
    }
}

/// The animations of a motion, taken from the pool: a file has one place there, which it gets when
/// it first occurs.
pub open spec fn pooled(
    kind: u64,
    animations: Seq<u64>,
    found: Map<u64, (crate::workspace::SourceView, bool)>,
    taken: Seq<crate::workspace::SourceView>,
    capacity: usize,
) -> Result<(Seq<u64>, Seq<crate::workspace::SourceView>), MotionError>
    decreases animations.len(),
{
    if animations.len() == 0 {
        Ok((Seq::empty(), taken))
    } else {
        match pooled(kind, animations.drop_last(), found, taken, capacity) {
            Err(e) => Err(e),
            Ok((names, now)) => {
                let animation = animations.last();
                if !found.contains_key(animation) {
                    Err(MotionError::MissingAnimation { kind, animation })
                } else {
                    let (source, with_extension) = found[animation];
                    match place_of(now, source.path, 0) {
                        Some(index) => Ok((names.push(pooled_hash(index, with_extension)), now)),
                        None => if now.len() >= capacity {
                            Err(MotionError::PoolExceeded)
                        } else {
                            Ok(
                                (
                                    names.push(pooled_hash(now.len() as int, with_extension)),
                                    now.push(source),
                                ),
                            )
                        },
                    }
                }
            },
        }
    }
}

/// The whole graph: every motion as it is, but with its animations from the pool.
pub open spec fn graph(
    list: Seq<MotionView>,
    found: Map<u64, (crate::workspace::SourceView, bool)>,
    capacity: usize,
) -> Result<(Seq<MotionView>, Seq<crate::workspace::SourceView>), MotionError>
    decreases list.len(),
{
    if list.len() == 0 {
        Ok((Seq::empty(), Seq::empty()))
    } else {
        match graph(list.drop_last(), found, capacity) {
            Err(e) => Err(e),
            Ok((motions, taken)) => {
                let motion = list.last();
                match pooled(motion.kind, names_of(motion.animations), found, taken, capacity) {
                    Err(e) => Err(e),
                    Ok((names, now)) => Ok((motions.push(renamed(motion, names)), now)),
                }
            },
        }
    }
}

/// A motion graph that is ready: the motions, the files in the order of their pool names, and the
/// hash of the folder they stand in.
#[derive(Debug)]
pub struct PreparedMotions {
    pub list: Vec<MotionEntry>,
    pub files: Vec<(String, AssetSource)>,
    pub motion_path: u64,
}

/// The views of files with their pool names.
pub open spec fn pooled_files(
    files: Seq<(String, AssetSource)>,
) -> Seq<(Seq<char>, crate::workspace::SourceView)> {
    Seq::new(files.len(), |i: int| (files[i].0@, files[i].1@))
}

/// The files with the names that the pool has for them.
pub open spec fn with_pool_names(
    taken: Seq<crate::workspace::SourceView>,
) -> Seq<(Seq<char>, crate::workspace::SourceView)> {
    Seq::new(taken.len(), |i: int| (crate::pool::motion_slot(i as nat), taken[i]))
}

/// The views of a list of sources.
pub open spec fn source_list(list: Seq<AssetSource>) -> Seq<crate::workspace::SourceView> {
    Seq::new(list.len(), |i: int| list[i]@)
}

fn find_place(taken: &Vec<AssetSource>, path: &str) -> (place: Option<usize>)
    ensures
        match place {
            Some(i) => place_of(source_list(taken@), path@, 0) == Some(i as int),
            None => place_of(source_list(taken@), path@, 0) is None,
        },
{
    let ghost all = source_list(taken@);
    let mut i: usize = 0;
    while i < taken.len()
        invariant
            i <= taken@.len(),
            all == source_list(taken@),
            place_of(all, path@, 0) == place_of(all, path@, i as int),
        decreases taken@.len() - i,
    {
        assert(all[i as int] == taken@[i as int]@);
        if same_text(taken[i].path.as_str(), path) {
            return Some(i);
        }
        i += 1;
    }
    None
}

proof fn lemma_pooled_error(
    kind: u64,
    animations: Seq<u64>,
    found: Map<u64, (crate::workspace::SourceView, bool)>,
    taken: Seq<crate::workspace::SourceView>,
    capacity: usize,
    k: int,
)
    requires
        0 <= k <= animations.len(),
    ensures
        pooled(kind, animations.take(k), found, taken, capacity) is Err ==> pooled(
            kind,
            animations,
            found,
            taken,
            capacity,
        ) == pooled(kind, animations.take(k), found, taken, capacity),
    decreases animations.len(),
{
    if k == animations.len() {
        assert(animations.take(k) =~= animations);
    } else {
        lemma_pooled_error(kind, animations.drop_last(), found, taken, capacity, k);
        assert(animations.drop_last().take(k) =~= animations.take(k));
    }
}

proof fn lemma_graph_error(
    list: Seq<MotionView>,
    found: Map<u64, (crate::workspace::SourceView, bool)>,
    capacity: usize,
    k: int,
)
    requires
        0 <= k <= list.len(),
    ensures
        graph(list.take(k), found, capacity) is Err ==> graph(list, found, capacity) == graph(
            list.take(k),
            found,
            capacity,
        ),
    decreases list.len(),
{
    if k == list.len() {
        assert(list.take(k) =~= list);
    } else {
        lemma_graph_error(list.drop_last(), found, capacity, k);
        assert(list.drop_last().take(k) =~= list.take(k));
    }
}

/// Takes the animations of one motion from the pool.
fn pool_names(
    motion: &MotionEntry,
    found: &SortedMap<u64, FoundAnimation>,
    taken: &mut Vec<AssetSource>,
    capacity: usize,
) -> (animations: Result<Vec<u64>, MotionError>)
    requires
        found.wf(),
    ensures
        match pooled(
            motion.kind,
            names_of(motion.animations@),
            found_views(found@),
            source_list(old(taken)@),
            capacity,
        ) {
            Ok((names, now)) => animations is Ok && animations->Ok_0@ == names && source_list(
                final(taken)@,
            ) == now,
            Err(e) => animations == Err::<Vec<u64>, MotionError>(e),
        },
{
    let ghost all = names_of(motion.animations@);
    let ghost start = source_list(taken@);
    let ghost known = found_views(found@);
    let mut names: Vec<u64> = Vec::new();
    let mut i: usize = 0;
    assert(all.take(0).len() == 0);
    assert(names@ =~= Seq::empty());
    while i < motion.animations.len()
        invariant
            i <= motion.animations@.len(),
            all == names_of(motion.animations@),
            found.wf(),
            known == found_views(found@),
            start == source_list(old(taken)@),
            pooled(motion.kind, all.take(i as int), known, start, capacity) == Ok::<
                (Seq<u64>, Seq<crate::workspace::SourceView>),
                MotionError,
            >((names@, source_list(taken@))),
        decreases motion.animations@.len() - i,
    {
        let animation: u64 = motion.animations[i].name;
        proof {
            assert(all.take(i + 1).drop_last() =~= all.take(i as int));
            assert(all.take(i + 1).last() == animation);
            lemma_pooled_error(motion.kind, all, known, start, capacity, i + 1);
        }
        match found.get(&animation) {
            Some(f) => {
                assert(known.contains_key(animation));
                assert(known[animation] == (f.source@, f.with_extension));
                let place = find_place(taken, f.source.path.as_str());
                let index: usize = match place {
                    Some(index) => index,
                    None => {
                        if taken.len() >= capacity {
                            return Err(MotionError::PoolExceeded);
                        }
                        let index: usize = taken.len();
                        let ghost before = source_list(taken@);
                        taken.push(f.source.clone());
                        assert(source_list(taken@) =~= before.push(f.source@));
                        index
                    },
                };
                let name = if f.with_extension {
                    motion_name(index)
                } else {
                    motion_stem_name(index)
                };
                names.push(hash_text(name.as_str()));
            },
            None => {
                assert(!known.contains_key(animation));
                return Err(MotionError::MissingAnimation { kind: motion.kind, animation });
            },
        }
        i += 1;
    }
    assert(all.take(i as int) =~= all);
    Ok(names)
}

/// A motion as it is, with other names for its animations.
fn rename(motion: &MotionEntry, names: &Vec<u64>) -> (result: MotionEntry)
    requires
        names@.len() == motion.animations@.len(),
    ensures
        result@ == renamed(motion@, names@),
{
    let mut animations: Vec<Animation> = Vec::new();
    let mut i: usize = 0;
    while i < names.len()
        invariant
            i <= names@.len(),
            names@.len() == motion.animations@.len(),
            animations@.len() == i,
            forall|j: int|
                0 <= j < i ==> #[trigger] animations@[j] == renamed(
                    motion@,
                    names@,
                ).animations[j],
        decreases names@.len() - i,
    {
        animations.push(Animation { name: names[i], unk: motion.animations[i].unk });
        i += 1;
    }
    let result = MotionEntry {
        kind: motion.kind,
        game_script: motion.game_script,
        flags: motion.flags,
        scripts: motion.scripts.clone(),
        animations,
        rest: motion.rest.clone(),
    };
    proof {
        assert(result.animations@ =~= renamed(motion@, names@).animations);
        assert(result.scripts@ =~= motion.scripts@);
        assert(result.rest@ =~= motion.rest@);
    }
    result
}

/// What comes of a motion list and the files at hand.
pub open spec fn prepared(
    files: Seq<(Seq<char>, crate::workspace::SourceView)>,
    has_list: bool,
    list: Seq<MotionView>,
    capacity: usize,
) -> Result<(Seq<MotionView>, Seq<crate::workspace::SourceView>), MotionError> {
    if !has_list {
        Err(MotionError::NoMotionList)
    } else {
        match graph(list, available(files), capacity) {
            Err(e) => Err(e),
            Ok((motions, taken)) => if taken.len() == 0 {
                Err(MotionError::NoAnimations)
            } else {
                Ok((motions, taken))
            },
        }
    }
}

/// Builds the motion graph of a preview from a fighter's motion list.
pub fn prepare(
    files: &SortedMap<String, AssetSource>,
    list: &Vec<MotionEntry>,
    pool: &ResourcePool,
) -> (result: Result<PreparedMotions, MotionError>)
    requires
        files.wf(),
    ensures
        match prepared(
            entry_list(*files),
            files@.contains_key("motion_list.bin"@),
            motion_views(list@),
            pool.motion_capacity,
        ) {
            Ok((motions, taken)) => result is Ok && motion_views(result->Ok_0.list@) == motions
                && pooled_files(result->Ok_0.files@) == with_pool_names(taken)
                && result->Ok_0.motion_path == hash40_of(pool.motion_root@),
            Err(e) => result is Err && result->Err_0 == e,
        },
        result matches Ok(p) ==> p.list@.len() == list@.len() && forall|i: int|
            0 <= i < list@.len() ==> same_but_names((#[trigger] p.list@[i])@, list@[i]@),
{
    if !files.contains_key(&"motion_list.bin".to_owned()) {
        return Err(MotionError::NoMotionList);
    }
    let found = find_available(files);
    let ghost known = found_views(found@);
    let ghost all = motion_views(list@);
    let capacity: usize = pool.motion_capacity;
    let mut taken: Vec<AssetSource> = Vec::new();
    let mut motions: Vec<MotionEntry> = Vec::new();
    let mut i: usize = 0;
    proof {
        assert(all.take(0).len() == 0);
        assert(motion_views(motions@) =~= Seq::empty());
        assert(source_list(taken@) =~= Seq::empty());
    }
    while i < list.len()
        invariant
            i <= list@.len(),
            all == motion_views(list@),
            found.wf(),
            known == found_views(found@),
            known == available(entry_list(*files)),
            capacity == pool.motion_capacity,
            files@.contains_key("motion_list.bin"@),
            graph(all.take(i as int), known, capacity) == Ok::<
                (Seq<MotionView>, Seq<crate::workspace::SourceView>),
                MotionError,
            >((motion_views(motions@), source_list(taken@))),
        decreases list@.len() - i,
    {
        proof {
            assert(all.take(i + 1).drop_last() =~= all.take(i as int));
            assert(all.take(i + 1).last() == list@[i as int]@);
            lemma_graph_error(all, known, capacity, i + 1);
        }
        proof {
            law_graph_keeps_identities(all.take(i as int), known, capacity);
            lemma_pooled(
                list@[i as int].kind,
                names_of(list@[i as int].animations@),
                known,
                source_list(taken@),
                capacity,
            );
        }
        match pool_names(&list[i], &found, &mut taken, capacity) {
            Ok(names) => {
                let ghost before = motion_views(motions@);
                let entry = rename(&list[i], &names);
                motions.push(entry);
                assert(motion_views(motions@) =~= before.push(entry@));
            },
            Err(e) => {
                return Err(e);
            },
        }
        i += 1;
    }
    assert(all.take(i as int) =~= all);
    proof {
        law_graph_keeps_identities(all, known, capacity);
        assert(motions@.len() == motion_views(motions@).len());
        assert forall|j: int| 0 <= j < list@.len() implies same_but_names(
            (#[trigger] motions@[j])@,
            list@[j]@,
        ) by {
            assert(motion_views(motions@)[j] == motions@[j]@);
            assert(all[j] == list@[j]@);
        }
    }
    if taken.len() == 0 {
        assert(source_list(taken@).len() == 0);
        return Err(MotionError::NoAnimations);
    }
    let mut outputs: Vec<(String, AssetSource)> = Vec::new();
    let mut k: usize = 0;
    while k < taken.len()
        invariant
            k <= taken@.len(),
            outputs@.len() == k,
            forall|j: int|
                0 <= j < k ==> pooled_files(outputs@)[j] == #[trigger] with_pool_names(
                    source_list(taken@),
                )[j],
        decreases taken@.len() - k,
    {
        let ghost before = pooled_files(outputs@);
        outputs.push((motion_name(k), taken[k].clone()));
        proof {
            assert forall|j: int| 0 <= j < k + 1 implies pooled_files(outputs@)[j]
                == #[trigger] with_pool_names(source_list(taken@))[j] by {
                if j < k {
                    assert(pooled_files(outputs@)[j] == before[j]);
                }
            }
        }
        k += 1;
    }
    assert(pooled_files(outputs@) =~= with_pool_names(source_list(taken@)));
    Ok(
        PreparedMotions {
            list: motions,
            files: outputs,
            motion_path: hash_text(pool.motion_root.as_str()),
        },
    )
}

// ── Laws ─────────────────────────────────────────────────────────────────────

/// No file has two places.
pub open spec fn different(taken: Seq<crate::workspace::SourceView>) -> bool {
    forall|i: int, j: int|
        0 <= i < j < taken.len() ==> (#[trigger] taken[i]).path != (#[trigger] taken[j]).path
}

/// An animation has the hash of its file's place in the pool.
pub open spec fn is_pooled(
    animation: u64,
    hash: u64,
    found: Map<u64, (crate::workspace::SourceView, bool)>,
    taken: Seq<crate::workspace::SourceView>,
) -> bool {
    &&& found.contains_key(animation)
    &&& place_of(taken, found[animation].0.path, 0) is Some
    &&& hash == pooled_hash(
        place_of(taken, found[animation].0.path, 0)->Some_0,
        found[animation].1,
    )
}

proof fn lemma_place(taken: Seq<crate::workspace::SourceView>, path: Seq<char>, i: int)
    requires
        0 <= i <= taken.len(),
    ensures
        match place_of(taken, path, i) {
            Some(k) => i <= k < taken.len() && taken[k].path == path,
            None => forall|k: int| i <= k < taken.len() ==> (#[trigger] taken[k]).path != path,
        },
    decreases taken.len() - i,
{
    if i < taken.len() && taken[i].path != path {
        lemma_place(taken, path, i + 1);
    }
}

proof fn lemma_place_push(
    taken: Seq<crate::workspace::SourceView>,
    more: crate::workspace::SourceView,
    path: Seq<char>,
    i: int,
)
    requires
        0 <= i <= taken.len(),
    ensures
        place_of(taken, path, i) is Some ==> place_of(taken.push(more), path, i) == place_of(
            taken,
            path,
            i,
        ),
        place_of(taken, path, i) is None && more.path == path ==> place_of(
            taken.push(more),
            path,
            i,
        ) == Some(taken.len() as int),
    decreases taken.len() - i,
{
    let all = taken.push(more);
    if i < taken.len() {
        assert(all[i] == taken[i]);
        if taken[i].path != path {
            lemma_place_push(taken, more, path, i + 1);
        }
    } else {
        assert(all[i] == more);
    }
}

proof fn lemma_pooled(
    kind: u64,
    animations: Seq<u64>,
    found: Map<u64, (crate::workspace::SourceView, bool)>,
    taken: Seq<crate::workspace::SourceView>,
    capacity: usize,
)
    requires
        different(taken),
        taken.len() <= capacity,
    ensures
        pooled(kind, animations, found, taken, capacity) matches Ok((names, now)) ==> {
            &&& names.len() == animations.len()
            &&& different(now)
            &&& taken.len() <= now.len() <= capacity
            &&& forall|path: Seq<char>| #[trigger]
                place_of(taken, path, 0) is Some ==> place_of(now, path, 0) == place_of(
                    taken,
                    path,
                    0,
                )
            &&& forall|j: int|
                0 <= j < names.len() ==> is_pooled(
                    animations[j],
                    #[trigger] names[j],
                    found,
                    now,
                )
        },
    decreases animations.len(),
{
    if animations.len() > 0 && pooled(kind, animations, found, taken, capacity) is Ok {
        lemma_pooled(kind, animations.drop_last(), found, taken, capacity);
        let (head, mid) = pooled(kind, animations.drop_last(), found, taken, capacity)->Ok_0;
        let (names, now) = pooled(kind, animations, found, taken, capacity)->Ok_0;
        let source = found[animations.last()].0;
        lemma_place(mid, source.path, 0);
        if place_of(mid, source.path, 0) is None {
            lemma_place_push(mid, source, source.path, 0);
            assert(now == mid.push(source));
            assert forall|i: int, j: int| 0 <= i < j < now.len() implies (
            #[trigger] now[i]).path != (#[trigger] now[j]).path by {
                assert(now[i] == mid[i]);
                if j < mid.len() {
                    assert(now[j] == mid[j]);
                }
            }
            assert forall|path: Seq<char>| #[trigger] place_of(taken, path, 0) is Some implies place_of(
                now,
                path,
                0,
            ) == place_of(taken, path, 0) by {
                lemma_place_push(mid, source, path, 0);
            }
            assert forall|j: int| 0 <= j < head.len() implies is_pooled(
                animations[j],
                #[trigger] head[j],
                found,
                now,
            ) by {
                assert(animations.drop_last()[j] == animations[j]);
                assert(is_pooled(animations.drop_last()[j], head[j], found, mid));
                lemma_place_push(mid, source, found[animations[j]].0.path, 0);
            }
        } else {
            assert(now == mid);
        }
        assert forall|j: int| 0 <= j < names.len() implies is_pooled(
            animations[j],
            #[trigger] names[j],
            found,
            now,
        ) by {
            if j < head.len() {
                assert(animations.drop_last()[j] == animations[j]);
                assert(names[j] == head[j]);
                assert(is_pooled(animations[j], head[j], found, now));
            } else {
                assert(animations[j] == animations.last());
            }
        }
    }
}

/// A preview's motion graph keeps every motion as it is, in its order, but for the names of its
/// animations; it puts each animation file in one place of the pool however often and under
/// whatever hash it is used, and stays within the pool.
pub proof fn law_graph_keeps_identities(
    list: Seq<MotionView>,
    found: Map<u64, (crate::workspace::SourceView, bool)>,
    capacity: usize,
)
    ensures
        graph(list, found, capacity) matches Ok((motions, taken)) ==> {
            &&& motions.len() == list.len()
            &&& different(taken)
            &&& taken.len() <= capacity
            &&& forall|i: int|
                0 <= i < list.len() ==> same_but_names(#[trigger] motions[i], list[i])
            &&& forall|i: int, j: int|
                0 <= i < list.len() && 0 <= j < list[i].animations.len() ==> is_pooled(
                    list[i].animations[j].name,
                    (#[trigger] motions[i].animations[j]).name,
                    found,
                    taken,
                )
        },
    decreases list.len(),
{
    if list.len() > 0 && graph(list, found, capacity) is Ok {
        law_graph_keeps_identities(list.drop_last(), found, capacity);
        let (head, mid) = graph(list.drop_last(), found, capacity)->Ok_0;
        let (motions, taken) = graph(list, found, capacity)->Ok_0;
        let motion = list.last();
        let (names, _) = pooled(
            motion.kind,
            names_of(motion.animations),
            found,
            mid,
            capacity,
        )->Ok_0;
        lemma_pooled(motion.kind, names_of(motion.animations), found, mid, capacity);
        assert forall|i: int| 0 <= i < list.len() implies same_but_names(
            #[trigger] motions[i],
            list[i],
        ) by {
            if i < head.len() {
                assert(motions[i] == head[i]);
                assert(list.drop_last()[i] == list[i]);
            } else {
                assert(motions[i] == renamed(motion, names));
            }
        }
        assert forall|i: int, j: int|
            0 <= i < list.len() && 0 <= j < list[i].animations.len() implies is_pooled(
            list[i].animations[j].name,
            (#[trigger] motions[i].animations[j]).name,
            found,
            taken,
        ) by {
            if i < head.len() {
                assert(motions[i] == head[i]);
                assert(list.drop_last()[i] == list[i]);
                assert(is_pooled(
                    list[i].animations[j].name,
                    head[i].animations[j].name,
                    found,
                    mid,
                ));
                assert(place_of(mid, found[list[i].animations[j].name].0.path, 0) is Some);
            } else {
                assert(motions[i] == renamed(motion, names));
                assert(is_pooled(names_of(motion.animations)[j], names[j], found, taken));
            }
        }
    }
}

/// An animation of the costume is found under the hash of its file name and under that of its
/// stem, and what is found under a hash is a file that has it.
pub proof fn law_animations_are_found_by_name(
    files: Seq<(Seq<char>, crate::workspace::SourceView)>,
    i: int,
    stem: Seq<char>,
)
    requires
        0 <= i < files.len(),
        files[i].0 == stem + ".nuanmb"@,
    ensures
        available(files).contains_key(hash40_of(stem + ".nuanmb"@)),
        available(files).contains_key(hash40_of(stem)),
    decreases files.len(),
{
    let rest = files.drop_last();
    if i < files.len() - 1 {
        law_animations_are_found_by_name(rest, i, stem);
        assert(rest[i] == files[i]);
    } else {
        let name = files.last().0;
        reveal_strlit(".nuanmb");
        assert(name.skip(name.len() - 7) =~= ".nuanmb"@);
        assert(name.take(name.len() - 7) =~= stem);
    }
}

/// What is found under a hash is an animation of the costume with that hash: of its whole name, of
/// its stem, or the one that its stem spells out.
pub proof fn law_found_animations_have_the_hash(
    files: Seq<(Seq<char>, crate::workspace::SourceView)>,
    hash: u64,
) -> (found: (int, Seq<char>))
    requires
        available(files).contains_key(hash),
    ensures
        0 <= found.0 < files.len(),
        files[found.0].0 == found.1 + ".nuanmb"@,
        available(files)[hash].0 == files[found.0].1,
        available(files)[hash].1 ==> hash == hash40_of(found.1 + ".nuanmb"@) || raw_hash(found.1)
            == Some(hash),
        !available(files)[hash].1 ==> hash == hash40_of(found.1),
    decreases files.len(),
{
    let rest = files.drop_last();
    let (name, source) = files.last();
    let n = files.len() - 1;
    match crate::text::without_end(name, ".nuanmb"@) {
        Some(stem) => {
            assert(name =~= stem + ".nuanmb"@) by {
                assert(name =~= name.take(name.len() - ".nuanmb"@.len()) + name.skip(
                    name.len() - ".nuanmb"@.len(),
                ));
            }
            if hash == hash40_of(name) || hash == hash40_of(stem) || raw_hash(stem) == Some(hash) {
                (n, stem)
            } else {
                let found = law_found_animations_have_the_hash(rest, hash);
                assert(rest[found.0] == files[found.0]);
                found
            }
        },
        None => {
            let found = law_found_animations_have_the_hash(rest, hash);
            assert(rest[found.0] == files[found.0]);
            found
        },
    }
}

/// Each animation of a prepared motion leads to a file of the pool that is the one it needed: by
/// the hash of that file's name, or of its stem where the hash did not cover the extension.
pub proof fn law_prepared_animations_lead_to_their_files(
    list: Seq<MotionView>,
    found: Map<u64, (crate::workspace::SourceView, bool)>,
    capacity: usize,
    i: int,
    j: int,
)
    requires
        graph(list, found, capacity) is Ok,
        0 <= i < list.len(),
        0 <= j < list[i].animations.len(),
    ensures
        ({
            let (motions, taken) = graph(list, found, capacity)->Ok_0;
            let files = with_pool_names(taken);
            let needed = list[i].animations[j].name;
            let hash = motions[i].animations[j].name;
            &&& motions[i].kind == list[i].kind
            &&& motions[i].game_script == list[i].game_script
            &&& motions[i].flags == list[i].flags
            &&& motions[i].scripts == list[i].scripts
            &&& motions[i].rest == list[i].rest
            &&& motions[i].animations.len() == list[i].animations.len()
            &&& motions[i].animations[j].unk == list[i].animations[j].unk
            &&& found.contains_key(needed)
            &&& exists|k: int|
                0 <= k < files.len() && (#[trigger] files[k]).1.path == found[needed].0.path
                    && files[k].0 == crate::pool::motion_stem(k as nat) + ".nuanmb"@ && hash == (
                if found[needed].1 {
                    hash40_of(files[k].0)
                } else {
                    hash40_of(crate::pool::motion_stem(k as nat))
                })
        }),
{
    law_graph_keeps_identities(list, found, capacity);
    let (motions, taken) = graph(list, found, capacity)->Ok_0;
    let needed = list[i].animations[j].name;
    assert(is_pooled(needed, motions[i].animations[j].name, found, taken));
    lemma_place(taken, found[needed].0.path, 0);
    let k = place_of(taken, found[needed].0.path, 0)->Some_0;
    assert(with_pool_names(taken)[k].1 == taken[k]);
}

/// Every animation that is needed and at hand is found: the graph fails only where one is missing
/// or the pool is too small.
pub proof fn law_graphs_fail_for_a_reason(
    list: Seq<MotionView>,
    found: Map<u64, (crate::workspace::SourceView, bool)>,
    capacity: usize,
)
    ensures
        graph(list, found, capacity) matches Err(e) ==> match e {
            MotionError::MissingAnimation { kind, animation } => !found.contains_key(animation)
                && exists|i: int|
                0 <= i < list.len() && (#[trigger] list[i]).kind == kind && names_of(
                    list[i].animations,
                ).contains(animation),
            MotionError::PoolExceeded => true,
            _ => false,
        },
    decreases list.len(),
{
    if list.len() > 0 {
        let rest = list.drop_last();
        let n = list.len() - 1;
        law_graphs_fail_for_a_reason(rest, found, capacity);
        if graph(rest, found, capacity) is Err {
            if graph(rest, found, capacity)->Err_0 is MissingAnimation {
                let kind = graph(rest, found, capacity)->Err_0->MissingAnimation_kind;
                let animation = graph(rest, found, capacity)->Err_0->MissingAnimation_animation;
                let i = choose|i: int|
                    0 <= i < rest.len() && (#[trigger] rest[i]).kind == kind && names_of(
                        rest[i].animations,
                    ).contains(animation);
                assert(list[i] == rest[i]);
            }
        } else {
            let (_, taken) = graph(rest, found, capacity)->Ok_0;
            assert(list[n] == list.last());
            lemma_pooled_reason(
                list[n].kind,
                names_of(list[n].animations),
                found,
                taken,
                capacity,
            );
        }
    }
}

proof fn lemma_pooled_reason(
    kind: u64,
    animations: Seq<u64>,
    found: Map<u64, (crate::workspace::SourceView, bool)>,
    taken: Seq<crate::workspace::SourceView>,
    capacity: usize,
)
    ensures
        pooled(kind, animations, found, taken, capacity) matches Err(e) ==> match e {
            MotionError::MissingAnimation { kind: k, animation } => k == kind && !found.contains_key(
                animation,
            ) && animations.contains(animation),
            MotionError::PoolExceeded => true,
            _ => false,
        },
    decreases animations.len(),
{
    if animations.len() > 0 {
        let rest = animations.drop_last();
        lemma_pooled_reason(kind, rest, found, taken, capacity);
        assert(animations[animations.len() - 1] == animations.last());
        if pooled(kind, rest, found, taken, capacity) is Err {
            if pooled(kind, rest, found, taken, capacity)->Err_0 is MissingAnimation {
                let animation = pooled(
                    kind,
                    rest,
                    found,
                    taken,
                    capacity,
                )->Err_0->MissingAnimation_animation;
                let k = rest.index_of(animation);
                assert(animations[k] == animation);
            }
        }
    }
}

/// A name like `0x1a2b` spells a hash, and an animation of such a name is found by it; no other
/// name does.
pub proof fn law_hashes_can_be_spelled(
    hash: u64,
    stem: Seq<char>,
    files: Seq<(Seq<char>, crate::workspace::SourceView)>,
    i: int,
)
    requires
        0 <= i < files.len(),
        files[i].0 == seq!['0', 'x'] + crate::text::hexadecimal(hash as nat) + ".nuanmb"@,
    ensures
        raw_hash(seq!['0', 'x'] + crate::text::hexadecimal(hash as nat)) == Some(hash),
        !(stem.len() > 2 && stem[0] == '0' && stem[1] == 'x') ==> raw_hash(stem) is None,
        available(files).contains_key(hash),
    decreases files.len(),
{
    let digits = crate::text::hexadecimal(hash as nat);
    let spelled = seq!['0', 'x'] + digits;
    reveal_strlit("0x");
    crate::text::law_hexadecimal_reads_back(hash as nat);
    crate::text::law_hexadecimal_digits(hash as nat, 0);
    assert(spelled.take(2) =~= "0x"@);
    assert(spelled.skip(2) =~= digits);
    if crate::text::starts_with(stem, "0x"@) {
        assert(stem.take(2)[0] == '0' && stem.take(2)[1] == 'x');
    }
    if i < files.len() - 1 {
        assert(files.drop_last()[i] == files[i]);
        law_hashes_can_be_spelled(hash, stem, files.drop_last(), i);
    } else {
        let name = files.last().0;
        reveal_strlit(".nuanmb");
        assert(name.skip(name.len() - 7) =~= ".nuanmb"@);
        assert(name.take(name.len() - 7) =~= spelled);
    }
}

} // verus!
