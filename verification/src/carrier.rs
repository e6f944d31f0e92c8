//! The files of a preview: which ones it takes from a workspace, what they must satisfy, and
//! what is written.
use crate::ordering::sort_texts;
use crate::sorted::SortedMap;
use crate::text::{
    chars_of, has_char, has_end, holds, lowered, same_text, search_last, text_of, trimmed,
};
use crate::workspace::{output_asset_path, sort_files, AssetSource, WorkspaceAssetFile};
use vstd::prelude::*;

verus! {

/// The largest file of a preview, in bytes.
pub const CARRIER_MAX_FILE_SIZE: u64 = 67_108_864;

/// The largest preview, in bytes.
pub const CARRIER_MAX_TOTAL_SIZE: u64 = 268_435_456;

/// Why a preview cannot be made.
#[derive(Debug, PartialEq, Eq)]
pub enum CarrierError {
    /// No model file is there.
    EmptyModelFolder,
    /// A file is empty.
    EmptyFile(String),
    /// A file is larger than a preview may hold.
    FileTooLarge(String),
    /// The model lacks this file.
    MissingModelFile(String),
    /// Several files could be this one.
    AmbiguousModelFile(String),
    /// The skeleton has no bones.
    NoBones,
    /// The skeleton lacks these bones of the fighter.
    MissingBones(Vec<String>),
    /// The material file defines nothing.
    NoMaterials,
    /// A descriptor names another number of material files than one.
    MaterialFiles { descriptor: String, count: usize },
    /// A descriptor names a material that is defined nowhere.
    UnknownMaterial { descriptor: String, material: String },
    /// The chosen animation is a path.
    AnimationIsPath(String),
    /// The chosen file is no motion.
    NotAMotion(String),
    /// There is no motion to choose.
    NoMotion,
    /// The chosen motion is not there.
    MotionNotFound(String),
    /// An animation moves none of the skeleton's bones, but these.
    UnknownBones { animation: String, names: Vec<String> },
    /// All files together are larger than a preview may be.
    BundleTooLarge,
}

#[verifier::ext_equal]
pub enum CarrierErrorView {
    EmptyModelFolder,
    EmptyFile(Seq<char>),
    FileTooLarge(Seq<char>),
    MissingModelFile(Seq<char>),
    AmbiguousModelFile(Seq<char>),
    NoBones,
    MissingBones(Seq<Seq<char>>),
    NoMaterials,
    MaterialFiles { descriptor: Seq<char>, count: usize },
    UnknownMaterial { descriptor: Seq<char>, material: Seq<char> },
    AnimationIsPath(Seq<char>),
    NotAMotion(Seq<char>),
    NoMotion,
    MotionNotFound(Seq<char>),
    UnknownBones { animation: Seq<char>, names: Seq<Seq<char>> },
    BundleTooLarge,
}

impl View for CarrierError {
    type V = CarrierErrorView;

    open spec fn view(&self) -> CarrierErrorView {
        match *self {
            CarrierError::EmptyModelFolder => CarrierErrorView::EmptyModelFolder,
            CarrierError::EmptyFile(name) => CarrierErrorView::EmptyFile(name@),
            CarrierError::FileTooLarge(name) => CarrierErrorView::FileTooLarge(name@),
            CarrierError::MissingModelFile(name) => CarrierErrorView::MissingModelFile(name@),
            CarrierError::AmbiguousModelFile(name) => CarrierErrorView::AmbiguousModelFile(name@),
            CarrierError::NoBones => CarrierErrorView::NoBones,
            CarrierError::MissingBones(names) => CarrierErrorView::MissingBones(
                crate::text::texts(names@),
            ),
            CarrierError::NoMaterials => CarrierErrorView::NoMaterials,
            CarrierError::MaterialFiles { descriptor, count } => CarrierErrorView::MaterialFiles {
                descriptor: descriptor@,
                count,
            },
            CarrierError::UnknownMaterial {
                descriptor,
                material,
            } => CarrierErrorView::UnknownMaterial {
                descriptor: descriptor@,
                material: material@,
            },
            CarrierError::AnimationIsPath(name) => CarrierErrorView::AnimationIsPath(name@),
            CarrierError::NotAMotion(name) => CarrierErrorView::NotAMotion(name@),
            CarrierError::NoMotion => CarrierErrorView::NoMotion,
            CarrierError::MotionNotFound(name) => CarrierErrorView::MotionNotFound(name@),
            CarrierError::UnknownBones { animation, names } => CarrierErrorView::UnknownBones {
                animation: animation@,
                names: crate::text::texts(names@),
            },
            CarrierError::BundleTooLarge => CarrierErrorView::BundleTooLarge,
        }
    }
}

// ── Sizes ────────────────────────────────────────────────────────────────────

/// The size of a file, which is neither empty nor too large.
pub open spec fn sized(len: u64, label: Seq<char>) -> Result<u64, CarrierErrorView> {
    if len == 0 {
        Err(CarrierErrorView::EmptyFile(label))
    } else if len > CARRIER_MAX_FILE_SIZE {
        Err(CarrierErrorView::FileTooLarge(label))
    } else {
        Ok(len)
    }
}

/// The view of a size or an error.
pub open spec fn size_result(result: Result<u64, CarrierError>) -> Result<u64, CarrierErrorView> {
    match result {
        Ok(n) => Ok(n),
        Err(e) => Err(e@),
    }
}

/// The size of a file, if a preview may hold it.
pub fn checked_asset_size(len: u64, label: &str) -> (size: Result<u64, CarrierError>)
    ensures
        size_result(size) == sized(len, label@),
{
    if len == 0 {
        Err(CarrierError::EmptyFile(label.to_owned()))
    } else if len > CARRIER_MAX_FILE_SIZE {
        Err(CarrierError::FileTooLarge(label.to_owned()))
    } else {
        Ok(len)
    }
}

/// The size of files together, each of which a preview may hold.
pub open spec fn total_size(sizes: Seq<u64>, label: Seq<char>) -> Result<u64, CarrierErrorView>
    decreases sizes.len(),
{
    if sizes.len() == 0 {
        Ok(0)
    } else {
        match total_size(sizes.drop_last(), label) {
            Err(e) => Err(e),
            Ok(total) => match sized(sizes.last(), label) {
                Err(e) => Err(e),
                Ok(size) => if total + size > CARRIER_MAX_TOTAL_SIZE {
                    Err(CarrierErrorView::BundleTooLarge)
                } else {
                    Ok((total + size) as u64)
                },
            },
        }
    }
}

proof fn lemma_total_error(sizes: Seq<u64>, label: Seq<char>, k: int)
    requires
        0 <= k <= sizes.len(),
    ensures
        total_size(sizes.take(k), label) is Err ==> total_size(sizes, label) == total_size(
            sizes.take(k),
            label,
        ),
    decreases sizes.len(),
{
    if k == sizes.len() {
        assert(sizes.take(k) =~= sizes);
    } else {
        lemma_total_error(sizes.drop_last(), label, k);
        assert(sizes.drop_last().take(k) =~= sizes.take(k));
    }
}

proof fn lemma_total_bounded(sizes: Seq<u64>, label: Seq<char>)
    ensures
        total_size(sizes, label) matches Ok(total) ==> total <= CARRIER_MAX_TOTAL_SIZE,
    decreases sizes.len(),
{
    if sizes.len() > 0 {
        lemma_total_bounded(sizes.drop_last(), label);
    }
}

/// The size of the source files together, if a preview may hold them.
pub fn source_total(sizes: &Vec<u64>) -> (total: Result<u64, CarrierError>)
    ensures
        size_result(total) == total_size(sizes@, "carrier source"@),
{
    let mut total: u64 = 0;
    let mut i: usize = 0;
    assert(sizes@.take(0).len() == 0);
    while i < sizes.len()
        invariant
            i <= sizes@.len(),
            total_size(sizes@.take(i as int), "carrier source"@) == Ok::<u64, CarrierErrorView>(
                total,
            ),
        decreases sizes@.len() - i,
    {
        proof {
            assert(sizes@.take(i + 1).drop_last() =~= sizes@.take(i as int));
            lemma_total_error(sizes@, "carrier source"@, i + 1);
            lemma_total_bounded(sizes@.take(i as int), "carrier source"@);
        }
        let size: u64 = match checked_asset_size(sizes[i], "carrier source") {
            Ok(size) => size,
            Err(e) => {
                return Err(e);
            },
        };
        if total + size > CARRIER_MAX_TOTAL_SIZE {
            return Err(CarrierError::BundleTooLarge);
        }
        total = total + size;
        i += 1;
    }
    assert(sizes@.take(i as int) =~= sizes@);
    Ok(total)
}

// ── The model ────────────────────────────────────────────────────────────────

/// The files of a preview's model, in order.
pub open spec fn model_graph() -> Seq<Seq<char>> {
    seq![
        "model.xmb"@,
        "model.nusktb"@,
        "model.numdlb"@,
        "model.numshb"@,
        "model.nuanmb"@,
        "model.numatb"@,
        "model.nuhlpb"@,
        "model.numshexb"@,
        "model.nusrcmdlb"@,
    ]
}

/// The files of a preview's model, in order.
pub fn carrier_model_files() -> (names: Vec<&'static str>)
    ensures
        crate::text::strs(names@) == model_graph(),
{
    let names: Vec<&'static str> = vec![
        "model.xmb",
        "model.nusktb",
        "model.numdlb",
        "model.numshb",
        "model.nuanmb",
        "model.numatb",
        "model.nuhlpb",
        "model.numshexb",
        "model.nusrcmdlb",
    ];
    assert(crate::text::strs(names@) =~= model_graph());
    names
}

/// What follows the last `.` of a name, if it has one.
pub open spec fn ending(name: Seq<char>) -> Option<Seq<char>> {
    match crate::text::rfind(name, "."@) {
        Some(k) => Some(name.skip(k + 1)),
        None => None,
    }
}

/// What follows the last `.` of a name; nothing where it has none.
pub open spec fn ending_or_empty(name: Seq<char>) -> Seq<char> {
    match ending(name) {
        Some(e) => e,
        None => Seq::empty(),
    }
}

/// The names with this ending, in order.
pub open spec fn with_ending(names: Seq<Seq<char>>, wanted: Seq<char>) -> Seq<Seq<char>>
    decreases names.len(),
{
    if names.len() == 0 {
        names
    } else if ending(names.last()) == Some(wanted) {
        with_ending(names.drop_last(), wanted).push(names.last())
    } else {
        with_ending(names.drop_last(), wanted)
    }
}

/// A file of this name can serve as `canonical`.
pub open spec fn serves_as(name: Seq<char>, canonical: Seq<char>) -> bool {
    name == canonical || ending(name) == Some(ending_or_empty(canonical))
}

/// The file that serves as `canonical`: the one of that name, or else the only one with the same
/// ending.
pub open spec fn model_source(
    files: SortedMap<String, AssetSource>,
    canonical: Seq<char>,
) -> Result<crate::workspace::SourceView, CarrierErrorView> {
    let sources = crate::workspace::source_views(files@);
    let same = with_ending(files.key_list(), ending_or_empty(canonical));
    if sources.contains_key(canonical) {
        Ok(sources[canonical])
    } else if same.len() == 1 {
        Ok(sources[same[0]])
    } else if same.len() == 0 {
        Err(CarrierErrorView::MissingModelFile(canonical))
    } else {
        Err(CarrierErrorView::AmbiguousModelFile(canonical))
    }
}

fn ending_of(name: &str) -> (result: Option<String>)
    ensures
        crate::events::optional_text(result) == ending(name@),
{
    let chars = chars_of(name);
    let dot = chars_of(".");
    match search_last(&chars, &dot) {
        Some(k) => {
            proof {
                crate::text::lemma_rfind_from(chars@, dot@, chars@.len() - dot@.len());
                reveal_strlit(".");
            }
            let end: usize = chars.len();
            assert(k + 1 <= end);
            let result = text_of(&chars, k + 1, end);
            assert(result@ =~= name@.skip(k + 1));
            Some(result)
        },
        None => None,
    }
}

/// The view of a source or an error.
pub open spec fn source_result(
    result: Result<AssetSource, CarrierError>,
) -> Result<crate::workspace::SourceView, CarrierErrorView> {
    match result {
        Ok(s) => Ok(s@),
        Err(e) => Err(e@),
    }
}

/// The file that serves as `canonical_name`.
pub fn source_for_model_file(
    files: &SortedMap<String, AssetSource>,
    canonical_name: &str,
) -> (source: Result<AssetSource, CarrierError>)
    requires
        files.wf(),
    ensures
        source_result(source) == model_source(*files, canonical_name@),
{
    match files.get(&canonical_name.to_owned()) {
        Some(source) => {
            assert(crate::workspace::source_views(files@).contains_key(canonical_name@));
            return Ok(source.clone());
        },
        None => {},
    }
    let wanted = match ending_of(canonical_name) {
        Some(e) => e,
        None => String::new(),
    };
    assert(wanted@ =~= ending_or_empty(canonical_name@));
    let ghost keys = files.key_list();
    let mut count: usize = 0;
    let mut at: usize = 0;
    let mut i: usize = 0;
    assert(keys.take(0).len() == 0);
    while i < files.len()
        invariant
            files.wf(),
            keys == files.key_list(),
            i <= keys.len(),
            count <= i,
            count == with_ending(keys.take(i as int), wanted@).len(),
            count >= 1 ==> at < i && keys[at as int] == with_ending(
                keys.take(i as int),
                wanted@,
            ).last(),
        decreases keys.len() - i,
    {
        let name = files.key_at(i);
        proof {
            assert(keys.take(i + 1).drop_last() =~= keys.take(i as int));
            assert(keys.take(i + 1).last() == name@);
        }
        let same = match ending_of(name.as_str()) {
            Some(e) => same_text(e.as_str(), wanted.as_str()),
            None => false,
        };
        if same {
            count += 1;
            at = i;
        }
        i += 1;
    }
    assert(keys.take(i as int) =~= keys);
    if count == 1 {
        proof {
            files.lemma_entry(at as int);
        }
        Ok(files.value_at(at).clone())
    } else if count == 0 {
        Err(CarrierError::MissingModelFile(canonical_name.to_owned()))
    } else {
        Err(CarrierError::AmbiguousModelFile(canonical_name.to_owned()))
    }
}

/// A file of the model: the name it gets, and where it comes from.
#[derive(Debug)]
pub struct SelectedFile {
    pub canonical: String,
    pub source: AssetSource,
}

/// The views of selected files.
pub open spec fn selected_views(
    list: Seq<SelectedFile>,
) -> Seq<(Seq<char>, crate::workspace::SourceView)> {
    Seq::new(list.len(), |i: int| (list[i].canonical@, list[i].source@))
}

/// Some name ends with `part`.
pub open spec fn any_ends_with(names: Seq<Seq<char>>, part: Seq<char>) -> bool {
    exists|i: int| 0 <= i < names.len() && crate::text::ends_with(#[trigger] names[i], part)
}

/// The file is the model's own animation, and the model has none.
pub open spec fn is_left_out(files: SortedMap<String, AssetSource>, canonical: Seq<char>) -> bool {
    canonical == "model.nuanmb"@ && !any_ends_with(files.key_list(), ".nuanmb"@)
}

/// The files that serve as `graph`, in order: each of them is there and has a size that a preview
/// may hold. Only the model's own animation may be missing.
pub open spec fn selected(
    files: SortedMap<String, AssetSource>,
    graph: Seq<Seq<char>>,
) -> Result<Seq<(Seq<char>, crate::workspace::SourceView)>, CarrierErrorView>
    decreases graph.len(),
{
    if graph.len() == 0 {
        Ok(Seq::empty())
    } else {
        match selected(files, graph.drop_last()) {
            Err(e) => Err(e),
            Ok(list) => {
                let canonical = graph.last();
                if is_left_out(files, canonical) {
                    Ok(list)
                } else {
                    match model_source(files, canonical) {
                        Err(e) => Err(e),
                        Ok(source) => match sized(source.len, canonical) {
                            Err(e) => Err(e),
                            Ok(_) => Ok(list.push((canonical, source))),
                        },
                    }
                }
            },
        }
    }
}

/// The model of a preview.
pub open spec fn model_selection(
    files: SortedMap<String, AssetSource>,
) -> Result<Seq<(Seq<char>, crate::workspace::SourceView)>, CarrierErrorView> {
    if files.key_list().len() == 0 {
        Err(CarrierErrorView::EmptyModelFolder)
    } else {
        selected(files, model_graph())
    }
}

proof fn lemma_selected_error(
    files: SortedMap<String, AssetSource>,
    graph: Seq<Seq<char>>,
    k: int,
)
    requires
        0 <= k <= graph.len(),
    ensures
        selected(files, graph.take(k)) is Err ==> selected(files, graph) == selected(
            files,
            graph.take(k),
        ),
    decreases graph.len(),
{
    if k == graph.len() {
        assert(graph.take(k) =~= graph);
    } else {
        lemma_selected_error(files, graph.drop_last(), k);
        assert(graph.drop_last().take(k) =~= graph.take(k));
    }
}

fn has_animation(files: &SortedMap<String, AssetSource>) -> (b: bool)
    requires
        files.wf(),
    ensures
        b == any_ends_with(files.key_list(), ".nuanmb"@),
{
    let mut i: usize = 0;
    while i < files.len()
        invariant
            i <= files.key_list().len(),
            forall|j: int|
                0 <= j < i ==> !crate::text::ends_with(
                    #[trigger] files.key_list()[j],
                    ".nuanmb"@,
                ),
        decreases files.key_list().len() - i,
    {
        if has_end(files.key_at(i).as_str(), ".nuanmb") {
            assert(crate::text::ends_with(files.key_list()[i as int], ".nuanmb"@));
            return true;
        }
        i += 1;
    }
    false
}

/// Selects the model of a preview.
pub fn select_model(files: &SortedMap<String, AssetSource>) -> (list: Result<
    Vec<SelectedFile>,
    CarrierError,
>)
    requires
        files.wf(),
    ensures
        match model_selection(*files) {
            Ok(wanted) => list is Ok && selected_views(list->Ok_0@) == wanted,
            Err(e) => list is Err && list->Err_0@ == e,
        },
{
    if files.len() == 0 {
        return Err(CarrierError::EmptyModelFolder);
    }
    let names = carrier_model_files();
    let ghost graph = model_graph();
    let animated = has_animation(files);
    let mut list: Vec<SelectedFile> = Vec::new();
    let mut i: usize = 0;
    assert(graph.take(0).len() == 0);
    assert(selected_views(list@) =~= Seq::empty());
    while i < names.len()
        invariant
            files.wf(),
            files.key_list().len() > 0,
            graph == model_graph(),
            graph == crate::text::strs(names@),
            i <= names@.len(),
            animated == any_ends_with(files.key_list(), ".nuanmb"@),
            selected(*files, graph.take(i as int)) == Ok::<
                Seq<(Seq<char>, crate::workspace::SourceView)>,
                CarrierErrorView,
            >(selected_views(list@)),
        decreases names@.len() - i,
    {
        let canonical = names[i];
        proof {
            assert(graph.take(i + 1).drop_last() =~= graph.take(i as int));
            assert(graph.take(i + 1).last() == canonical@);
            lemma_selected_error(*files, graph, i + 1);
        }
        if animated || !same_text(canonical, "model.nuanmb") {
            let source = match source_for_model_file(files, canonical) {
                Ok(source) => source,
                Err(e) => {
                    return Err(e);
                },
            };
            match checked_asset_size(source.len, canonical) {
                Ok(_) => {},
                Err(e) => {
                    return Err(e);
                },
            }
            let ghost before = selected_views(list@);
            list.push(SelectedFile { canonical: canonical.to_owned(), source });
            assert(selected_views(list@) =~= before.push((canonical@, source@)));
        }
        i += 1;
    }
    assert(graph.take(i as int) =~= graph);
    Ok(list)
}

// ── The rig ──────────────────────────────────────────────────────────────────

/// The names that are not among `known`, in order.
pub open spec fn absent(names: Seq<Seq<char>>, known: Seq<Seq<char>>) -> Seq<Seq<char>>
    decreases names.len(),
{
    if names.len() == 0 {
        names
    } else if known.contains(names.last()) {
        absent(names.drop_last(), known)
    } else {
        absent(names.drop_last(), known).push(names.last())
    }
}

/// The first eight names at most.
pub open spec fn first_names(names: Seq<Seq<char>>) -> Seq<Seq<char>> {
    if names.len() > 8 {
        names.take(8)
    } else {
        names
    }
}

/// A model's skeleton has bones, and all those that the fighter's own has.
pub open spec fn rig_check(
    custom: Seq<Seq<char>>,
    vanilla: Option<Seq<Seq<char>>>,
) -> Result<(), CarrierErrorView> {
    if custom.len() == 0 {
        Err(CarrierErrorView::NoBones)
    } else {
        match vanilla {
            None => Ok(()),
            Some(bones) => if absent(bones, custom).len() == 0 {
                Ok(())
            } else {
                Err(
                    CarrierErrorView::MissingBones(
                        first_names(
                            crate::ordering::in_order(
                                absent(bones, custom),
                                crate::ordering::itself(),
                            ),
                        ),
                    ),
                )
            },
        }
    }
}

fn list_has(list: &Vec<String>, name: &str) -> (b: bool)
    ensures
        b == crate::text::texts(list@).contains(name@),
{
    let ghost all = crate::text::texts(list@);
    let mut i: usize = 0;
    while i < list.len()
        invariant
            i <= list@.len(),
            all == crate::text::texts(list@),
            forall|j: int| 0 <= j < i ==> all[j] != name@,
        decreases list@.len() - i,
    {
        if same_text(list[i].as_str(), name) {
            assert(all[i as int] == name@);
            return true;
        }
        i += 1;
    }
    false
}

fn absent_names(names: &Vec<String>, known: &Vec<String>) -> (list: Vec<String>)
    ensures
        crate::text::texts(list@) == absent(
            crate::text::texts(names@),
            crate::text::texts(known@),
        ),
{
    let ghost all = crate::text::texts(names@);
    let mut list: Vec<String> = Vec::new();
    let mut i: usize = 0;
    assert(all.take(0).len() == 0);
    assert(crate::text::texts(list@) =~= absent(all.take(0), crate::text::texts(known@)));
    while i < names.len()
        invariant
            i <= names@.len(),
            all == crate::text::texts(names@),
            crate::text::texts(list@) == absent(all.take(i as int), crate::text::texts(known@)),
        decreases names@.len() - i,
    {
        proof {
            assert(all.take(i + 1).drop_last() =~= all.take(i as int));
            assert(all.take(i + 1).last() == names@[i as int]@);
        }
        if !list_has(known, names[i].as_str()) {
            let ghost before = crate::text::texts(list@);
            list.push(names[i].clone());
            assert(crate::text::texts(list@) =~= before.push(names@[i as int]@));
        }
        i += 1;
    }
    assert(all.take(i as int) =~= all);
    list
}

fn shorten(names: Vec<String>) -> (list: Vec<String>)
    ensures
        crate::text::texts(list@) == first_names(crate::text::texts(names@)),
{
    let mut list = names;
    let ghost all = crate::text::texts(list@);
    if list.len() > 8 {
        list.truncate(8);
        assert(crate::text::texts(list@) =~= all.take(8));
    }
    list
}

/// Whether a model's skeleton can follow the fighter's motions.
pub fn check_rig(custom: &Vec<String>, vanilla: Option<&Vec<String>>) -> (result: Result<
    (),
    CarrierError,
>)
    ensures
        match rig_check(
            crate::text::texts(custom@),
            match vanilla {
                Some(bones) => Some(crate::text::texts(bones@)),
                None => None,
            },
        ) {
            Ok(_) => result is Ok,
            Err(e) => result is Err && result->Err_0@ == e,
        },
{
    if custom.len() == 0 {
        assert(crate::text::texts(custom@).len() == 0);
        return Err(CarrierError::NoBones);
    }
    match vanilla {
        Some(bones) => {
            let missing = absent_names(bones, custom);
            if missing.len() == 0 {
                assert(crate::text::texts(missing@).len() == 0);
                Ok(())
            } else {
                assert(crate::text::texts(missing@).len() > 0);
                Err(CarrierError::MissingBones(shorten(sort_texts(&missing))))
            }
        },
        None => Ok(()),
    }
}

/// A group of an animation: whether it moves its nodes, and their names. The other groups show,
/// hide or tint things.
#[derive(Debug)]
pub struct NodeGroup {
    pub is_transform: bool,
    pub nodes: Vec<String>,
}

/// The nodes that an animation moves.
pub open spec fn moved_nodes(groups: Seq<NodeGroup>) -> Seq<Seq<char>>
    decreases groups.len(),
{
    if groups.len() == 0 {
        Seq::empty()
    } else if groups.last().is_transform {
        moved_nodes(groups.drop_last()) + crate::text::texts(groups.last().nodes@)
    } else {
        moved_nodes(groups.drop_last())
    }
}

fn add_nodes(list: &mut Vec<String>, nodes: &Vec<String>)
    ensures
        crate::text::texts(final(list)@) == crate::text::texts(old(list)@) + crate::text::texts(
            nodes@,
        ),
{
    let ghost start = crate::text::texts(list@);
    let ghost all = crate::text::texts(nodes@);
    let mut i: usize = 0;
    assert(start + all.take(0) =~= start);
    while i < nodes.len()
        invariant
            i <= nodes@.len(),
            all == crate::text::texts(nodes@),
            crate::text::texts(list@) == start + all.take(i as int),
        decreases nodes@.len() - i,
    {
        let ghost before = crate::text::texts(list@);
        list.push(nodes[i].clone());
        proof {
            assert(crate::text::texts(list@) =~= before.push(nodes@[i as int]@));
            assert(before.push(nodes@[i as int]@) =~= start + all.take(i + 1));
        }
        i += 1;
    }
    assert(all.take(i as int) =~= all);
}

/// Lists the nodes that an animation moves.
pub fn list_moved_nodes(groups: &Vec<NodeGroup>) -> (list: Vec<String>)
    ensures
        crate::text::texts(list@) == moved_nodes(groups@),
{
    let mut list: Vec<String> = Vec::new();
    let mut i: usize = 0;
    assert(groups@.take(0).len() == 0);
    assert(crate::text::texts(list@) =~= Seq::empty());
    while i < groups.len()
        invariant
            i <= groups@.len(),
            crate::text::texts(list@) == moved_nodes(groups@.take(i as int)),
        decreases groups@.len() - i,
    {
        assert(groups@.take(i + 1).drop_last() =~= groups@.take(i as int));
        if groups[i].is_transform {
            add_nodes(&mut list, &groups[i].nodes);
        }
        i += 1;
    }
    assert(groups@.take(i as int) =~= groups@);
    list
}

/// An animation fits a skeleton where it moves some bone, or nothing at all. Else the nodes that are
/// no bones are named, in order and each of them once, eight at most.
pub open spec fn bones_check(
    animation: Seq<char>,
    nodes: Seq<Seq<char>>,
    bones: Seq<Seq<char>>,
) -> Result<(), CarrierErrorView> {
    if nodes.len() == 0 || absent(nodes, bones).len() < nodes.len() {
        Ok(())
    } else {
        Err(
            CarrierErrorView::UnknownBones {
                animation,
                names: first_names(
                    crate::ordering::in_order(
                        with_new(Seq::empty(), absent(nodes, bones)),
                        crate::ordering::itself(),
                    ),
                ),
            },
        )
    }
}

/// Whether an animation fits a skeleton.
pub fn validate_animation_bones(
    animation: &str,
    groups: &Vec<NodeGroup>,
    bones: &Vec<String>,
) -> (result: Result<(), CarrierError>)
    ensures
        match bones_check(animation@, moved_nodes(groups@), crate::text::texts(bones@)) {
            Ok(_) => result is Ok,
            Err(e) => result is Err && result->Err_0@ == e,
        },
{
    let nodes = list_moved_nodes(groups);
    assert(crate::text::texts(nodes@).len() == nodes@.len());
    let unknown = absent_names(&nodes, bones);
    assert(crate::text::texts(unknown@).len() == unknown@.len());
    if nodes.len() == 0 || unknown.len() < nodes.len() {
        return Ok(());
    }
    let mut names: Vec<String> = Vec::new();
    assert(crate::text::texts(names@) =~= Seq::empty());
    merge_material_labels(&mut names, &unknown);
    Err(
        CarrierError::UnknownBones {
            animation: animation.to_owned(),
            names: shorten(sort_texts(&names)),
        },
    )
}

// ── Materials ────────────────────────────────────────────────────────────────

/// The names that are known, and behind them those of `labels` that are new, each once.
pub open spec fn with_new(known: Seq<Seq<char>>, labels: Seq<Seq<char>>) -> Seq<Seq<char>>
    decreases labels.len(),
{
    if labels.len() == 0 {
        known
    } else {
        let before = with_new(known, labels.drop_last());
        if before.contains(labels.last()) {
            before
        } else {
            before.push(labels.last())
        }
    }
}

/// The entries of a further material file that are taken, by position.
pub open spec fn taken_entries(known: Seq<Seq<char>>, labels: Seq<Seq<char>>) -> Seq<int>
    decreases labels.len(),
{
    if labels.len() == 0 {
        Seq::empty()
    } else if with_new(known, labels.drop_last()).contains(labels.last()) {
        taken_entries(known, labels.drop_last())
    } else {
        taken_entries(known, labels.drop_last()).push(labels.len() - 1)
    }
}

/// The positions of the entries of a further material file whose labels are new, which `known`
/// gains.
pub fn merge_material_labels(known: &mut Vec<String>, labels: &Vec<String>) -> (taken: Vec<usize>)
    ensures
        crate::text::texts(final(known)@) == with_new(
            crate::text::texts(old(known)@),
            crate::text::texts(labels@),
        ),
        Seq::new(taken@.len(), |i: int| taken@[i] as int) == taken_entries(
            crate::text::texts(old(known)@),
            crate::text::texts(labels@),
        ),
{
    let ghost start = crate::text::texts(known@);
    let ghost all = crate::text::texts(labels@);
    let mut taken: Vec<usize> = Vec::new();
    let mut i: usize = 0;
    assert(all.take(0).len() == 0);
    assert(Seq::new(taken@.len(), |j: int| taken@[j] as int) =~= taken_entries(start, all.take(0)));
    while i < labels.len()
        invariant
            i <= labels@.len(),
            all == crate::text::texts(labels@),
            start == crate::text::texts(old(known)@),
            crate::text::texts(known@) == with_new(start, all.take(i as int)),
            Seq::new(taken@.len(), |j: int| taken@[j] as int) == taken_entries(
                start,
                all.take(i as int),
            ),
        decreases labels@.len() - i,
    {
        proof {
            assert(all.take(i + 1).drop_last() =~= all.take(i as int));
            assert(all.take(i + 1).last() == labels@[i as int]@);
        }
        if !list_has(known, labels[i].as_str()) {
            let ghost before = crate::text::texts(known@);
            let ghost past = Seq::new(taken@.len(), |j: int| taken@[j] as int);
            known.push(labels[i].clone());
            taken.push(i);
            assert(crate::text::texts(known@) =~= before.push(labels@[i as int]@));
            assert(Seq::new(taken@.len(), |j: int| taken@[j] as int) =~= past.push(i as int));
        }
        i += 1;
    }
    assert(all.take(i as int) =~= all);
    taken
}

/// The first name that is not among `known`.
pub open spec fn first_absent(names: Seq<Seq<char>>, known: Seq<Seq<char>>, i: int) -> Option<
    Seq<char>,
>
    decreases names.len() - i,
{
    if i < 0 || i >= names.len() {
        None
    } else if !known.contains(names[i]) {
        Some(names[i])
    } else {
        first_absent(names, known, i + 1)
    }
}

/// A descriptor names one material file, and only materials that are defined.
pub open spec fn descriptor_check(
    descriptor: Seq<char>,
    material_files: usize,
    materials: Seq<Seq<char>>,
    known: Seq<Seq<char>>,
) -> Result<(), CarrierErrorView> {
    if material_files != 1 {
        Err(CarrierErrorView::MaterialFiles { descriptor, count: material_files })
    } else {
        match first_absent(materials, known, 0) {
            Some(material) => Err(CarrierErrorView::UnknownMaterial { descriptor, material }),
            None => Ok(()),
        }
    }
}

/// Whether the material file defines something.
pub fn check_materials(labels: &Vec<String>) -> (result: Result<(), CarrierError>)
    ensures
        match result {
            Ok(_) => labels@.len() > 0,
            Err(e) => labels@.len() == 0 && e@ == CarrierErrorView::NoMaterials,
        },
{
    if labels.len() == 0 {
        Err(CarrierError::NoMaterials)
    } else {
        Ok(())
    }
}

/// Whether a descriptor can be used with these materials.
pub fn check_descriptor(
    descriptor: &str,
    material_files: usize,
    materials: &Vec<String>,
    known: &Vec<String>,
) -> (result: Result<(), CarrierError>)
    ensures
        match descriptor_check(
            descriptor@,
            material_files,
            crate::text::texts(materials@),
            crate::text::texts(known@),
        ) {
            Ok(_) => result is Ok,
            Err(e) => result is Err && result->Err_0@ == e,
        },
{
    if material_files != 1 {
        return Err(
            CarrierError::MaterialFiles {
                descriptor: descriptor.to_owned(),
                count: material_files,
            },
        );
    }
    let ghost all = crate::text::texts(materials@);
    let ghost labels = crate::text::texts(known@);
    let mut i: usize = 0;
    while i < materials.len()
        invariant
            i <= materials@.len(),
            material_files == 1,
            all == crate::text::texts(materials@),
            labels == crate::text::texts(known@),
            first_absent(all, labels, 0) == first_absent(all, labels, i as int),
        decreases materials@.len() - i,
    {
        assert(all[i as int] == materials@[i as int]@);
        if !list_has(known, materials[i].as_str()) {
            return Err(
                CarrierError::UnknownMaterial {
                    descriptor: descriptor.to_owned(),
                    material: materials[i].clone(),
                },
            );
        }
        i += 1;
    }
    Ok(())
}

// ── Motion ───────────────────────────────────────────────────────────────────

/// The name is that of a motion, and not of the model's own animation.
pub open spec fn is_motion(name: Seq<char>) -> bool {
    crate::text::ends_with(name, ".nuanmb"@) && name != "model.nuanmb"@
}

/// The first motion among `names`; with `waiting`, the first whose name holds `wait`.
pub open spec fn first_motion(names: Seq<Seq<char>>, waiting: bool, i: int) -> Option<Seq<char>>
    decreases names.len() - i,
{
    if i < 0 || i >= names.len() {
        None
    } else if is_motion(names[i]) && (!waiting || crate::text::contains(names[i], "wait"@)) {
        Some(names[i])
    } else {
        first_motion(names, waiting, i + 1)
    }
}

/// The motion that is shown unless another is chosen: `wait.nuanmb`, else the first that waits,
/// else the first.
pub open spec fn default_motion(names: Seq<Seq<char>>) -> Option<Seq<char>> {
    if names.contains("wait.nuanmb"@) {
        Some("wait.nuanmb"@)
    } else {
        match first_motion(names, true, 0) {
            Some(name) => Some(name),
            None => first_motion(names, false, 0),
        }
    }
}

/// The motion that is chosen: by its file name, and nothing else.
pub open spec fn chosen_motion(choice: Seq<char>) -> Result<Seq<char>, CarrierErrorView> {
    if choice.contains('/') || choice.contains('\\') {
        Err(CarrierErrorView::AnimationIsPath(choice))
    } else if !is_motion(crate::text::lower(choice)) {
        Err(CarrierErrorView::NotAMotion(crate::text::lower(choice)))
    } else {
        Ok(crate::text::lower(choice))
    }
}

/// The motion that is shown. It has to be there.
pub open spec fn shown_motion(
    choice: Option<Seq<char>>,
    names: Seq<Seq<char>>,
) -> Result<Seq<char>, CarrierErrorView> {
    let wanted = match choice {
        Some(text) => if crate::text::trim(text).len() == 0 {
            None
        } else {
            Some(crate::text::trim(text))
        },
        None => None,
    };
    let name = match wanted {
        Some(text) => chosen_motion(text),
        None => match default_motion(names) {
            Some(name) => Ok(name),
            None => Err(CarrierErrorView::NoMotion),
        },
    };
    match name {
        Err(e) => Err(e),
        Ok(name) => if names.contains(name) {
            Ok(name)
        } else {
            Err(CarrierErrorView::MotionNotFound(name))
        },
    }
}

fn names_motion(name: &str) -> (b: bool)
    ensures
        b == is_motion(name@),
{
    has_end(name, ".nuanmb") && !same_text(name, "model.nuanmb")
}

fn find_motion(files: &SortedMap<String, AssetSource>, waiting: bool) -> (name: Option<String>)
    requires
        files.wf(),
    ensures
        crate::events::optional_text(name) == first_motion(files.key_list(), waiting, 0),
{
    let ghost keys = files.key_list();
    let mut i: usize = 0;
    while i < files.len()
        invariant
            files.wf(),
            keys == files.key_list(),
            i <= keys.len(),
            first_motion(keys, waiting, 0) == first_motion(keys, waiting, i as int),
        decreases keys.len() - i,
    {
        let name = files.key_at(i);
        if names_motion(name.as_str()) && (!waiting || holds(name.as_str(), "wait")) {
            return Some(name.clone());
        }
        i += 1;
    }
    None
}

/// The view of a text or an error.
pub open spec fn name_result(
    result: Result<String, CarrierError>,
) -> Result<Seq<char>, CarrierErrorView> {
    match result {
        Ok(t) => Ok(t@),
        Err(e) => Err(e@),
    }
}

/// The motion that a preview shows.
pub fn choose_motion(choice: Option<&str>, files: &SortedMap<String, AssetSource>) -> (name: Result<
    String,
    CarrierError,
>)
    requires
        files.wf(),
    ensures
        name_result(name) == shown_motion(
            match choice {
                Some(text) => Some(text@),
                None => None,
            },
            files.key_list(),
        ),
{
    let wanted: Option<String> = match choice {
        Some(text) => {
            let text = trimmed(text);
            if text.as_str().is_empty() {
                None
            } else {
                Some(text)
            }
        },
        None => None,
    };
    proof {
        files.lemma_lists();
        assert forall|k: Seq<char>| files@.contains_key(k) == files.key_list().contains(k) by {
            assert(files@.dom().contains(k) == files.key_list().to_set().contains(k));
        }
    }
    let name = match wanted {
        Some(text) => {
            if has_char(text.as_str(), '/') || has_char(text.as_str(), '\\') {
                return Err(CarrierError::AnimationIsPath(text));
            }
            let small = lowered(text.as_str());
            if !names_motion(small.as_str()) {
                return Err(CarrierError::NotAMotion(small));
            }
            small
        },
        None => {
            if files.contains_key(&"wait.nuanmb".to_owned()) {
                "wait.nuanmb".to_owned()
            } else {
                match find_motion(files, true) {
                    Some(name) => name,
                    None => match find_motion(files, false) {
                        Some(name) => name,
                        None => {
                            return Err(CarrierError::NoMotion);
                        },
                    },
                }
            }
        },
    };
    if files.contains_key(&name) {
        Ok(name)
    } else {
        Err(CarrierError::MotionNotFound(name))
    }
}

/// `name` is used, and does not come from the workspace.
pub open spec fn is_filled_in(
    name: Seq<char>,
    files: Map<Seq<char>, AssetSource>,
    workspace: Map<Seq<char>, AssetSource>,
) -> bool {
    files.contains_key(name) && !workspace.contains_key(name)
}

/// `list` with `name` behind it, where the name is filled in.
pub open spec fn and_filled_in(
    list: Seq<Seq<char>>,
    name: Seq<char>,
    files: Map<Seq<char>, AssetSource>,
    workspace: Map<Seq<char>, AssetSource>,
) -> Seq<Seq<char>> {
    if is_filled_in(name, files, workspace) {
        list.push(name)
    } else {
        list
    }
}

/// The motion files that the workspace does not provide and the fighter's own fill in.
pub open spec fn filled_in(
    selected: Seq<char>,
    files: Map<Seq<char>, AssetSource>,
    workspace: Map<Seq<char>, AssetSource>,
) -> Seq<Seq<char>> {
    let animation = and_filled_in(Seq::empty(), selected, files, workspace);
    let swing = and_filled_in(animation, "swing.prc"@, files, workspace);
    let blend = and_filled_in(swing, "swingblend.prc"@, files, workspace);
    and_filled_in(blend, "ik.prc"@, files, workspace)
}

fn note_filled_in(
    list: &mut Vec<String>,
    name: &str,
    files: &SortedMap<String, AssetSource>,
    workspace: &SortedMap<String, AssetSource>,
)
    requires
        files.wf(),
        workspace.wf(),
    ensures
        crate::text::texts(final(list)@) == and_filled_in(
            crate::text::texts(old(list)@),
            name@,
            files@,
            workspace@,
        ),
{
    let key = name.to_owned();
    let ghost before = crate::text::texts(list@);
    if files.contains_key(&key) && !workspace.contains_key(&key) {
        list.push(key);
        assert(crate::text::texts(list@) =~= before.push(name@));
    }
}

/// The motion files that are filled in.
pub fn vanilla_motion_used(
    selected: &str,
    files: &SortedMap<String, AssetSource>,
    workspace: &SortedMap<String, AssetSource>,
) -> (list: Vec<String>)
    requires
        files.wf(),
        workspace.wf(),
    ensures
        crate::text::texts(list@) == filled_in(selected@, files@, workspace@),
{
    let mut list: Vec<String> = Vec::new();
    assert(crate::text::texts(list@) =~= Seq::empty());
    note_filled_in(&mut list, selected, files, workspace);
    note_filled_in(&mut list, "swing.prc", files, workspace);
    note_filled_in(&mut list, "swingblend.prc", files, workspace);
    note_filled_in(&mut list, "ik.prc", files, workspace);
    list
}

// ── Far-range meshes ─────────────────────────────────────────────────────────

/// The mesh is the far-range twin of another.
pub open spec fn is_far_range(name: Seq<char>) -> bool {
    crate::text::ends_with(name, "_lowShape"@)
}

/// Whether the mesh is the far-range twin of another.
pub fn is_low_lod_mesh(name: &str) -> (b: bool)
    ensures
        b == is_far_range(name@),
{
    has_end(name, "_lowShape")
}

/// The positions of the meshes that are kept.
pub open spec fn near_range(names: Seq<Seq<char>>) -> Seq<int>
    decreases names.len(),
{
    if names.len() == 0 {
        Seq::empty()
    } else if is_far_range(names.last()) {
        near_range(names.drop_last())
    } else {
        near_range(names.drop_last()).push(names.len() - 1)
    }
}

/// The positions of the meshes that are kept, and how many are left out.
pub fn strip_low_lod_entries(names: &Vec<String>) -> (result: (Vec<usize>, usize))
    ensures
        Seq::new(result.0@.len(), |i: int| result.0@[i] as int) == near_range(
            crate::text::texts(names@),
        ),
        result.1 == names@.len() - result.0@.len(),
{
    let ghost all = crate::text::texts(names@);
    let mut kept: Vec<usize> = Vec::new();
    let mut i: usize = 0;
    assert(all.take(0).len() == 0);
    assert(Seq::new(kept@.len(), |j: int| kept@[j] as int) =~= near_range(all.take(0)));
    while i < names.len()
        invariant
            i <= names@.len(),
            kept@.len() <= i,
            all == crate::text::texts(names@),
            Seq::new(kept@.len(), |j: int| kept@[j] as int) == near_range(all.take(i as int)),
        decreases names@.len() - i,
    {
        proof {
            assert(all.take(i + 1).drop_last() =~= all.take(i as int));
            assert(all.take(i + 1).last() == names@[i as int]@);
        }
        if !is_low_lod_mesh(names[i].as_str()) {
            let ghost past = Seq::new(kept@.len(), |j: int| kept@[j] as int);
            kept.push(i);
            assert(Seq::new(kept@.len(), |j: int| kept@[j] as int) =~= past.push(i as int));
        }
        i += 1;
    }
    assert(all.take(i as int) =~= all);
    let left_out: usize = names.len() - kept.len();
    (kept, left_out)
}

// ── What is written ──────────────────────────────────────────────────────────

/// What a file of the preview holds.
#[derive(Debug)]
pub enum PreparedContent {
    /// What this file holds.
    Copy(AssetSource),
    /// What this texture file holds, under the name that the file gets.
    Texture(AssetSource),
    /// An animation that moves nothing.
    EmptyAnimation,
    /// The merged materials.
    Materials,
    /// The model's descriptor.
    Descriptor,
    /// The model's command descriptor.
    CommandDescriptor,
    /// The meshes that are kept.
    StrippedMeshes,
    /// What belongs to the meshes that are kept.
    StrippedMeshInfo,
    /// The motion list.
    MotionList,
    /// Parameters that say nothing.
    EmptyParameters,
}

#[verifier::ext_equal]
pub enum ContentView {
    Copy(crate::workspace::SourceView),
    Texture(crate::workspace::SourceView),
    EmptyAnimation,
    Materials,
    Descriptor,
    CommandDescriptor,
    StrippedMeshes,
    StrippedMeshInfo,
    MotionList,
    EmptyParameters,
}

impl View for PreparedContent {
    type V = ContentView;

    open spec fn view(&self) -> ContentView {
        match *self {
            PreparedContent::Copy(s) => ContentView::Copy(s@),
            PreparedContent::Texture(s) => ContentView::Texture(s@),
            PreparedContent::EmptyAnimation => ContentView::EmptyAnimation,
            PreparedContent::Materials => ContentView::Materials,
            PreparedContent::Descriptor => ContentView::Descriptor,
            PreparedContent::CommandDescriptor => ContentView::CommandDescriptor,
            PreparedContent::StrippedMeshes => ContentView::StrippedMeshes,
            PreparedContent::StrippedMeshInfo => ContentView::StrippedMeshInfo,
            PreparedContent::MotionList => ContentView::MotionList,
            PreparedContent::EmptyParameters => ContentView::EmptyParameters,
        }
    }
}

/// A file of the preview: its area, its name, and what it holds.
#[derive(Debug)]
pub struct PlannedFile {
    pub area: &'static str,
    pub name: String,
    pub content: PreparedContent,
}

#[verifier::ext_equal]
pub struct PlannedView {
    pub area: Seq<char>,
    pub name: Seq<char>,
    pub content: ContentView,
}

impl View for PlannedFile {
    type V = PlannedView;

    open spec fn view(&self) -> PlannedView {
        PlannedView { area: self.area@, name: self.name@, content: self.content@ }
    }
}

/// The views of planned files.
pub open spec fn planned_views(list: Seq<PlannedFile>) -> Seq<PlannedView> {
    Seq::new(list.len(), |i: int| list[i]@)
}

/// The source that was selected for `canonical`.
pub open spec fn selected_source(
    selection: Seq<(Seq<char>, crate::workspace::SourceView)>,
    canonical: Seq<char>,
    i: int,
) -> Option<crate::workspace::SourceView>
    decreases selection.len() - i,
{
    if i < 0 || i >= selection.len() {
        None
    } else if selection[i].0 == canonical {
        Some(selection[i].1)
    } else {
        selected_source(selection, canonical, i + 1)
    }
}

/// What a file of the model holds: descriptors and materials are written anew, meshes where some
/// are left out, a missing animation as an empty one, and everything else as it is.
pub open spec fn model_content(
    selection: Seq<(Seq<char>, crate::workspace::SourceView)>,
    canonical: Seq<char>,
    stripped: bool,
) -> ContentView {
    if canonical == "model.numatb"@ {
        ContentView::Materials
    } else if canonical == "model.numdlb"@ {
        ContentView::Descriptor
    } else if canonical == "model.nusrcmdlb"@ {
        ContentView::CommandDescriptor
    } else if canonical == "model.numshb"@ && stripped {
        ContentView::StrippedMeshes
    } else if canonical == "model.numshexb"@ && stripped {
        ContentView::StrippedMeshInfo
    } else {
        match selected_source(selection, canonical, 0) {
            Some(source) => ContentView::Copy(source),
            None => ContentView::EmptyAnimation,
        }
    }
}

/// The files of the model.
pub open spec fn planned_model(
    selection: Seq<(Seq<char>, crate::workspace::SourceView)>,
    stripped: bool,
) -> Seq<PlannedView> {
    Seq::new(
        model_graph().len(),
        |i: int|
            PlannedView {
                area: "model"@,
                name: model_graph()[i],
                content: model_content(selection, model_graph()[i], stripped),
            },
    )
}

/// A parameter file: the one at hand, else one that says nothing.
pub open spec fn parameter_file(
    files: Map<Seq<char>, crate::workspace::SourceView>,
    name: Seq<char>,
) -> PlannedView {
    PlannedView {
        area: "motion"@,
        name,
        content: if files.contains_key(name) {
            ContentView::Copy(files[name])
        } else {
            ContentView::EmptyParameters
        },
    }
}

/// Every file of a preview, in the order in which they are written: the model, its textures, the
/// animations, the motion list, and the motion parameters. Parameters that the fighter lacks are
/// written empty, so that those of another never apply.
pub open spec fn bundle_plan(
    selection: Seq<(Seq<char>, crate::workspace::SourceView)>,
    stripped: bool,
    textures: Seq<(Seq<char>, crate::workspace::SourceView)>,
    motions: Seq<(Seq<char>, crate::workspace::SourceView)>,
    files: Map<Seq<char>, crate::workspace::SourceView>,
) -> Seq<PlannedView> {
    let fixed = planned_model(selection, stripped) + Seq::new(
        textures.len(),
        |i: int|
            PlannedView {
                area: "model"@,
                name: textures[i].0,
                content: ContentView::Texture(textures[i].1),
            },
    ) + Seq::new(
        motions.len(),
        |i: int|
            PlannedView {
                area: "motion"@,
                name: motions[i].0,
                content: ContentView::Copy(motions[i].1),
            },
    ) + seq![
        PlannedView {
            area: "motion"@,
            name: "motion_list.bin"@,
            content: ContentView::MotionList,
        },
        parameter_file(files, "ik.prc"@),
        parameter_file(files, "swing.prc"@),
    ];
    if files.contains_key("swingblend.prc"@) {
        fixed.push(parameter_file(files, "swingblend.prc"@))
    } else {
        fixed
    }
}

pub(crate) fn find_selected(selection: &Vec<SelectedFile>, canonical: &str) -> (source: Option<AssetSource>)
    ensures
        match source {
            Some(s) => selected_source(selected_views(selection@), canonical@, 0) == Some(s@),
            None => selected_source(selected_views(selection@), canonical@, 0) is None,
        },
{
    let ghost all = selected_views(selection@);
    let mut i: usize = 0;
    while i < selection.len()
        invariant
            i <= selection@.len(),
            all == selected_views(selection@),
            selected_source(all, canonical@, 0) == selected_source(all, canonical@, i as int),
        decreases selection@.len() - i,
    {
        assert(all[i as int].0 == selection@[i as int].canonical@);
        if same_text(selection[i].canonical.as_str(), canonical) {
            return Some(selection[i].source.clone());
        }
        i += 1;
    }
    None
}

fn plan_model_file(selection: &Vec<SelectedFile>, canonical: &str, stripped: bool) -> (content:
    PreparedContent)
    ensures
        content@ == model_content(selected_views(selection@), canonical@, stripped),
{
    if same_text(canonical, "model.numatb") {
        PreparedContent::Materials
    } else if same_text(canonical, "model.numdlb") {
        PreparedContent::Descriptor
    } else if same_text(canonical, "model.nusrcmdlb") {
        PreparedContent::CommandDescriptor
    } else if stripped && same_text(canonical, "model.numshb") {
        PreparedContent::StrippedMeshes
    } else if stripped && same_text(canonical, "model.numshexb") {
        PreparedContent::StrippedMeshInfo
    } else {
        match find_selected(selection, canonical) {
            Some(source) => PreparedContent::Copy(source),
            None => PreparedContent::EmptyAnimation,
        }
    }
}

fn plan_parameters(files: &SortedMap<String, AssetSource>, name: &str) -> (file: PlannedFile)
    requires
        files.wf(),
    ensures
        file@ == parameter_file(crate::workspace::source_views(files@), name@),
{
    let content = match files.get(&name.to_owned()) {
        Some(source) => PreparedContent::Copy(source.clone()),
        None => PreparedContent::EmptyParameters,
    };
    PlannedFile { area: "motion", name: name.to_owned(), content }
}

fn plan_file(list: &mut Vec<PlannedFile>, file: PlannedFile)
    ensures
        planned_views(final(list)@) == planned_views(old(list)@).push(file@),
{
    let ghost before = planned_views(list@);
    list.push(file);
    assert(planned_views(list@) =~= before.push(file@));
}

/// Plans every file of a preview.
pub fn plan_bundle(
    selection: &Vec<SelectedFile>,
    stripped: bool,
    textures: &Vec<(String, AssetSource)>,
    motions: &Vec<(String, AssetSource)>,
    files: &SortedMap<String, AssetSource>,
) -> (list: Vec<PlannedFile>)
    requires
        files.wf(),
    ensures
        planned_views(list@) == bundle_plan(
            selected_views(selection@),
            stripped,
            crate::motions::pooled_files(textures@),
            crate::motions::pooled_files(motions@),
            crate::workspace::source_views(files@),
        ),
{
    let ghost picks = selected_views(selection@);
    let ghost images = crate::motions::pooled_files(textures@);
    let ghost moves = crate::motions::pooled_files(motions@);
    let ghost views = crate::workspace::source_views(files@);
    let names = carrier_model_files();
    let mut list: Vec<PlannedFile> = Vec::new();
    let mut i: usize = 0;
    let ghost model = planned_model(picks, stripped);
    assert(planned_views(list@) =~= model.take(0));
    while i < names.len()
        invariant
            i <= names@.len(),
            crate::text::strs(names@) == model_graph(),
            picks == selected_views(selection@),
            model == planned_model(picks, stripped),
            planned_views(list@) == model.take(i as int),
        decreases names@.len() - i,
    {
        assert(model_graph()[i as int] == crate::text::strs(names@)[i as int]);
        let content = plan_model_file(selection, names[i], stripped);
        let ghost past = planned_views(list@);
        plan_file(
            &mut list,
            PlannedFile { area: "model", name: names[i].to_owned(), content },
        );
        assert(planned_views(list@) =~= model.take(i + 1));
        i += 1;
    }
    assert(model.take(i as int) =~= model);
    let ghost textured = Seq::new(
        images.len(),
        |j: int|
            PlannedView {
                area: "model"@,
                name: images[j].0,
                content: ContentView::Texture(images[j].1),
            },
    );
    let mut t: usize = 0;
    assert(planned_views(list@) =~= model + textured.take(0));
    while t < textures.len()
        invariant
            t <= textures@.len(),
            images == crate::motions::pooled_files(textures@),
            textured.len() == images.len(),
            forall|j: int|
                0 <= j < images.len() ==> #[trigger] textured[j] == (PlannedView {
                    area: "model"@,
                    name: images[j].0,
                    content: ContentView::Texture(images[j].1),
                }),
            planned_views(list@) == model + textured.take(t as int),
        decreases textures@.len() - t,
    {
        let ghost past = planned_views(list@);
        assert(images[t as int] == (textures@[t as int].0@, textures@[t as int].1@));
        plan_file(
            &mut list,
            PlannedFile {
                area: "model",
                name: textures[t].0.clone(),
                content: PreparedContent::Texture(textures[t].1.clone()),
            },
        );
        assert(planned_views(list@) =~= past.push(textured[t as int]));
        assert(past.push(textured[t as int]) =~= model + textured.take(t + 1));
        t += 1;
    }
    assert(textured.take(t as int) =~= textured);
    let ghost moved = Seq::new(
        moves.len(),
        |j: int|
            PlannedView {
                area: "motion"@,
                name: moves[j].0,
                content: ContentView::Copy(moves[j].1),
            },
    );
    let mut m: usize = 0;
    assert(planned_views(list@) =~= model + textured + moved.take(0));
    while m < motions.len()
        invariant
            m <= motions@.len(),
            moves == crate::motions::pooled_files(motions@),
            moved.len() == moves.len(),
            forall|j: int|
                0 <= j < moves.len() ==> #[trigger] moved[j] == (PlannedView {
                    area: "motion"@,
                    name: moves[j].0,
                    content: ContentView::Copy(moves[j].1),
                }),
            planned_views(list@) == model + textured + moved.take(m as int),
        decreases motions@.len() - m,
    {
        let ghost past = planned_views(list@);
        assert(moves[m as int] == (motions@[m as int].0@, motions@[m as int].1@));
        plan_file(
            &mut list,
            PlannedFile {
                area: "motion",
                name: motions[m].0.clone(),
                content: PreparedContent::Copy(motions[m].1.clone()),
            },
        );
        assert(planned_views(list@) =~= past.push(moved[m as int]));
        assert(past.push(moved[m as int]) =~= model + textured + moved.take(m + 1));
        m += 1;
    }
    assert(moved.take(m as int) =~= moved);
    let ghost most = planned_views(list@);
    plan_file(
        &mut list,
        PlannedFile {
            area: "motion",
            name: "motion_list.bin".to_owned(),
            content: PreparedContent::MotionList,
        },
    );
    let ik = plan_parameters(files, "ik.prc");
    plan_file(&mut list, ik);
    let swing = plan_parameters(files, "swing.prc");
    plan_file(&mut list, swing);
    proof {
        let rest = seq![
            PlannedView {
                area: "motion"@,
                name: "motion_list.bin"@,
                content: ContentView::MotionList,
            },
            parameter_file(views, "ik.prc"@),
            parameter_file(views, "swing.prc"@),
        ];
        assert(planned_views(list@) =~= model + textured + moved + rest);
    }
    if files.contains_key(&"swingblend.prc".to_owned()) {
        let blend = plan_parameters(files, "swingblend.prc");
        plan_file(&mut list, blend);
    }
    list
}

// ── The bundle ───────────────────────────────────────────────────────────────

/// A preview that is ready.
#[derive(Debug)]
pub struct CarrierBundle {
    pub files: Vec<WorkspaceAssetFile>,
    /// The motion files that the workspace did not provide.
    pub vanilla_motion_used: Vec<String>,
    /// There was no `swing.prc` anywhere.
    pub omitted_swing: bool,
    /// How many far-range meshes were left out.
    pub stripped_lod_meshes: usize,
}

/// A preview that is being written.
#[derive(Debug)]
pub struct BundleBuilder {
    pub files: Vec<WorkspaceAssetFile>,
    pub total: u64,
}

impl BundleBuilder {
    /// A preview without files.
    pub fn new() -> (builder: Self)
        ensures
            builder.files@.len() == 0,
            builder.total == 0,
    {
        BundleBuilder { files: Vec::new(), total: 0 }
    }

    /// Adds a file that has been written with this size.
    pub fn add(&mut self, file: WorkspaceAssetFile, size: u64) -> (result: Result<(), CarrierError>)
        ensures
            match result {
                Ok(_) => old(self).total + size <= CARRIER_MAX_TOTAL_SIZE && final(self).total
                    == old(self).total + size && final(self).files@ == old(self).files@.push(file),
                Err(e) => old(self).total + size > CARRIER_MAX_TOTAL_SIZE && e@
                    == CarrierErrorView::BundleTooLarge && *final(self) == *old(self),
            },
    {
        match self.total.checked_add(size) {
            Some(total) => {
                if total > CARRIER_MAX_TOTAL_SIZE {
                    return Err(CarrierError::BundleTooLarge);
                }
                self.total = total;
                self.files.push(file);
                Ok(())
            },
            None => Err(CarrierError::BundleTooLarge),
        }
    }

    /// The preview with its files in the order of their game paths.
    pub fn finish(
        self,
        vanilla_motion_used: Vec<String>,
        omitted_swing: bool,
        stripped_lod_meshes: usize,
    ) -> (bundle: CarrierBundle)
        ensures
            crate::workspace::file_views(bundle.files@) == crate::ordering::in_order(
                crate::workspace::file_views(self.files@),
                crate::workspace::by_game_path(),
            ),
            bundle.vanilla_motion_used == vanilla_motion_used,
            bundle.omitted_swing == omitted_swing,
            bundle.stripped_lod_meshes == stripped_lod_meshes,
    {
        CarrierBundle {
            files: sort_files(&self.files),
            vanilla_motion_used,
            omitted_swing,
            stripped_lod_meshes,
        }
    }
}

/// The game path of a planned file.
pub open spec fn planned_path(fighter: Seq<char>, slot: u8, file: PlannedView) -> Seq<char> {
    crate::workspace::game_path(fighter, file.area, slot, file.name)
}

/// Where a planned file is written.
pub open spec fn output_of(
    output_dir: Seq<char>,
    fighter: Seq<char>,
    slot: u8,
    file: PlannedView,
) -> crate::workspace::AssetFileView {
    crate::workspace::AssetFileView {
        workspace_path: crate::paths::joined(output_dir, planned_path(fighter, slot, file)),
        game_path: planned_path(fighter, slot, file),
    }
}

/// Where planned files are written.
pub open spec fn outputs_of(
    output_dir: Seq<char>,
    fighter: Seq<char>,
    slot: u8,
    files: Seq<PlannedView>,
) -> Seq<crate::workspace::AssetFileView> {
    Seq::new(files.len(), |i: int| output_of(output_dir, fighter, slot, files[i]))
}

/// Where a planned file is written.
pub fn planned_output(output_dir: &str, fighter: &str, slot: u8, file: &PlannedFile) -> (output:
    WorkspaceAssetFile)
    ensures
        output@ == output_of(output_dir@, fighter@, slot, file@),
{
    output_asset_path(output_dir, fighter, slot, file.area, file.name.as_str())
}

// ── Laws ─────────────────────────────────────────────────────────────────────

proof fn lemma_selected_source(
    selection: Seq<(Seq<char>, crate::workspace::SourceView)>,
    canonical: Seq<char>,
    i: int,
    k: int,
)
    requires
        0 <= i <= k < selection.len(),
        selection[k].0 == canonical,
    ensures
        selected_source(selection, canonical, i) is Some,
        exists|j: int|
            i <= j < selection.len() && (#[trigger] selection[j]).0 == canonical && Some(
                selection[j].1,
            ) == selected_source(selection, canonical, i),
    decreases selection.len() - i,
{
    if selection[i].0 != canonical {
        lemma_selected_source(selection, canonical, i + 1, k);
    }
}

proof fn lemma_selected_has(files: SortedMap<String, AssetSource>, graph: Seq<Seq<char>>, k: int)
    requires
        0 <= k < graph.len(),
    ensures
        selected(files, graph) matches Ok(list) ==> is_left_out(files, graph[k]) || exists|j: int|
            0 <= j < list.len() && (#[trigger] list[j]).0 == graph[k] && sized(
                list[j].1.len,
                graph[k],
            ) is Ok,
    decreases graph.len(),
{
    if selected(files, graph) is Ok && !is_left_out(files, graph[k]) {
        let list = selected(files, graph)->Ok_0;
        let rest = selected(files, graph.drop_last())->Ok_0;
        if k == graph.len() - 1 {
            assert(list[list.len() - 1].0 == graph[k]);
        } else {
            lemma_selected_has(files, graph.drop_last(), k);
            assert(graph.drop_last()[k] == graph[k]);
            let j = choose|j: int|
                0 <= j < rest.len() && (#[trigger] rest[j]).0 == graph[k] && sized(
                    rest[j].1.len,
                    graph[k],
                ) is Ok;
            assert(list[j] == rest[j]);
        }
    }
}

proof fn lemma_with_ending(names: Seq<Seq<char>>, wanted: Seq<char>)
    ensures
        forall|i: int|
            0 <= i < with_ending(names, wanted).len() ==> names.contains(
                #[trigger] with_ending(names, wanted)[i],
            ) && ending(with_ending(names, wanted)[i]) == Some(wanted),
    decreases names.len(),
{
    if names.len() > 0 {
        lemma_with_ending(names.drop_last(), wanted);
        assert(names.drop_last().push(names.last()) =~= names);
        assert forall|i: int| 0 <= i < with_ending(names, wanted).len() implies names.contains(
            #[trigger] with_ending(names, wanted)[i],
        ) && ending(with_ending(names, wanted)[i]) == Some(wanted) by {
            let before = with_ending(names.drop_last(), wanted);
            if i < before.len() {
                assert(with_ending(names, wanted)[i] == before[i]);
                let k = names.drop_last().index_of(before[i]);
                assert(names[k] == before[i]);
            } else {
                assert(names[names.len() - 1] == with_ending(names, wanted)[i]);
            }
        }
    }
}

/// The file that serves is one of the files, under a name that can serve.
pub proof fn lemma_model_source(files: SortedMap<String, AssetSource>, canonical: Seq<char>) -> (
    name: Seq<char>)
    requires
        files.wf(),
        model_source(files, canonical) is Ok,
    ensures
        crate::workspace::source_views(files@).contains_key(name),
        crate::workspace::source_views(files@)[name] == model_source(files, canonical)->Ok_0,
        serves_as(name, canonical),
{
    let wanted = ending_or_empty(canonical);
    lemma_with_ending(files.key_list(), wanted);
    files.lemma_lists();
    if crate::workspace::source_views(files@).contains_key(canonical) {
        canonical
    } else {
        let name = with_ending(files.key_list(), wanted)[0];
        assert(files.key_list().to_set().contains(name));
        assert(files@.contains_key(name));
        name
    }
}

/// What is selected is what serves.
proof fn lemma_selected_serves(files: SortedMap<String, AssetSource>, graph: Seq<Seq<char>>)
    ensures
        selected(files, graph) matches Ok(list) ==> forall|j: int|
            0 <= j < list.len() ==> model_source(files, (#[trigger] list[j]).0) == Ok::<
                crate::workspace::SourceView,
                CarrierErrorView,
            >(list[j].1),
    decreases graph.len(),
{
    if graph.len() > 0 {
        lemma_selected_serves(files, graph.drop_last());
    }
}

/// A model is taken whole or not at all: every file of the graph has the source that serves as
/// it, and only the model's own animation may be left out.
pub proof fn law_model_is_complete(files: SortedMap<String, AssetSource>, k: int)
    requires
        0 <= k < model_graph().len(),
    ensures
        model_selection(files) matches Ok(list) ==> model_graph()[k] == "model.nuanmb"@ || (
        selected_source(list, model_graph()[k], 0) is Some && model_source(files, model_graph()[k])
            == Ok::<crate::workspace::SourceView, CarrierErrorView>(
            selected_source(list, model_graph()[k], 0)->Some_0,
        )),
{
    if model_selection(files) is Ok && model_graph()[k] != "model.nuanmb"@ {
        let list = model_selection(files)->Ok_0;
        lemma_selected_has(files, model_graph(), k);
        let j = choose|j: int|
            0 <= j < list.len() && (#[trigger] list[j]).0 == model_graph()[k] && sized(
                list[j].1.len,
                model_graph()[k],
            ) is Ok;
        lemma_selected_source(list, model_graph()[k], 0, j);
        lemma_selected_serves(files, model_graph());
    }
}

proof fn lemma_graph_names(i: int, j: int)
    requires
        0 <= i < model_graph().len(),
        0 <= j < model_graph().len(),
    ensures
        model_graph()[i].len() > 0,
        model_graph()[i][0] == 'm',
        i != j ==> model_graph()[i] != model_graph()[j],
{
    reveal_strlit("model.xmb");
    reveal_strlit("model.nusktb");
    reveal_strlit("model.numdlb");
    reveal_strlit("model.numshb");
    reveal_strlit("model.nuanmb");
    reveal_strlit("model.numatb");
    reveal_strlit("model.nuhlpb");
    reveal_strlit("model.numshexb");
    reveal_strlit("model.nusrcmdlb");
    let a = model_graph()[i];
    let b = model_graph()[j];
    if i != j && a.len() == b.len() {
        assert(a.len() == 12 && b.len() == 12);
        assert(a[8] != b[8] || a[9] != b[9]);
    }
}

/// The textures and animations of a preview have the names that the pool has for them.
pub open spec fn from_the_pool(
    textures: Seq<(Seq<char>, crate::workspace::SourceView)>,
    motions: Seq<(Seq<char>, crate::workspace::SourceView)>,
) -> bool {
    &&& forall|i: int|
        0 <= i < textures.len() ==> (#[trigger] textures[i]).0 == crate::pool::texture_slot(
            i as nat,
        ) + ".nutexb"@
    &&& forall|i: int|
        0 <= i < motions.len() ==> (#[trigger] motions[i]).0 == crate::pool::motion_slot(i as nat)
}

proof fn lemma_texture_names(a: nat, b: nat)
    ensures
        (crate::pool::texture_slot(a) + ".nutexb"@)[0] == 'v',
        crate::pool::motion_slot(a)[0] == 'v',
        a != b ==> crate::pool::texture_slot(a) + ".nutexb"@ != crate::pool::texture_slot(b)
            + ".nutexb"@,
{
    reveal_strlit("visionary_tex_");
    reveal_strlit("visionary_motion_");
    let x = crate::pool::texture_slot(a);
    let y = crate::pool::texture_slot(b);
    let end = ".nutexb"@;
    if a != b && x + end == y + end {
        crate::pool::law_pool_names_differ(a, b);
        assert((x + end).len() == (y + end).len());
        assert((x + end).take(x.len() as int) =~= x);
        assert((y + end).take(y.len() as int) =~= y);
    }
}

/// No two files of a preview have the same place.
pub proof fn law_planned_names_differ(
    selection: Seq<(Seq<char>, crate::workspace::SourceView)>,
    stripped: bool,
    textures: Seq<(Seq<char>, crate::workspace::SourceView)>,
    motions: Seq<(Seq<char>, crate::workspace::SourceView)>,
    files: Map<Seq<char>, crate::workspace::SourceView>,
    i: int,
    j: int,
)
    requires
        from_the_pool(textures, motions),
        0 <= i < j < bundle_plan(selection, stripped, textures, motions, files).len(),
    ensures
        ({
            let a = bundle_plan(selection, stripped, textures, motions, files)[i];
            let b = bundle_plan(selection, stripped, textures, motions, files)[j];
            &&& a.area == "model"@ || a.area == "motion"@
            &&& b.area == "model"@ || b.area == "motion"@
            &&& a.area != b.area || a.name != b.name
        }),
{
    let n = model_graph().len() as int;
    let t = n + textures.len();
    let m = t + motions.len();
    lemma_planned_at(selection, stripped, textures, motions, files, i);
    lemma_planned_at(selection, stripped, textures, motions, files, j);
    assert("model"@ != "motion"@) by {
        reveal_strlit("model");
        reveal_strlit("motion");
        assert("model"@.len() == 5);
    }
    if j < n {
        lemma_graph_names(i, j);
    } else if j < t && i >= n {
        lemma_texture_names((i - n) as nat, (j - n) as nat);
    } else if t <= i && j < m {
        crate::pool::law_pool_names_differ((i - t) as nat, (j - t) as nat);
    }
}

proof fn lemma_planned_at(
    selection: Seq<(Seq<char>, crate::workspace::SourceView)>,
    stripped: bool,
    textures: Seq<(Seq<char>, crate::workspace::SourceView)>,
    motions: Seq<(Seq<char>, crate::workspace::SourceView)>,
    files: Map<Seq<char>, crate::workspace::SourceView>,
    i: int,
)
    requires
        from_the_pool(textures, motions),
        0 <= i < bundle_plan(selection, stripped, textures, motions, files).len(),
    ensures
        ({
            let file = bundle_plan(selection, stripped, textures, motions, files)[i];
            let n = model_graph().len() as int;
            let t = n + textures.len();
            let m = t + motions.len();
            &&& file.area == (if i < t {
                "model"@
            } else {
                "motion"@
            })
            &&& i < n ==> file.name == model_graph()[i] && file.name[0] == 'm'
            &&& n <= i < t ==> file.name == crate::pool::texture_slot((i - n) as nat) + ".nutexb"@
                && file.name[0] == 'v'
            &&& t <= i < m ==> file.name == crate::pool::motion_slot((i - t) as nat)
                && file.name[0] == 'v'
            &&& i >= m ==> file.name[0] != 'v' && file.name.len() == (if i == m {
                15int
            } else if i == m + 1 {
                6int
            } else if i == m + 2 {
                9int
            } else {
                14int
            })
        }),
{
    let plan = bundle_plan(selection, stripped, textures, motions, files);
    let n = model_graph().len() as int;
    let t = n + textures.len();
    let m = t + motions.len();
    if i < n {
        assert(plan[i] == planned_model(selection, stripped)[i]);
        lemma_graph_names(i, i);
    } else if i < t {
        assert(plan[i].name == textures[i - n].0);
        lemma_texture_names((i - n) as nat, 0);
    } else if i < m {
        assert(plan[i].name == motions[i - t].0);
        lemma_texture_names((i - t) as nat, 0);
    } else {
        reveal_strlit("motion_list.bin");
        reveal_strlit("ik.prc");
        reveal_strlit("swing.prc");
        reveal_strlit("swingblend.prc");
        if i == m {
            assert(plan[i].name == "motion_list.bin"@);
        } else if i == m + 1 {
            assert(plan[i].name == "ik.prc"@);
        } else if i == m + 2 {
            assert(plan[i].name == "swing.prc"@);
        } else {
            assert(plan[i].name == "swingblend.prc"@);
        }
    }
}

/// Files in different places have different game paths.
pub proof fn lemma_game_paths_differ(
    fighter: Seq<char>,
    slot: u8,
    a: PlannedView,
    b: PlannedView,
)
    requires
        a.area == "model"@ || a.area == "motion"@,
        b.area == "model"@ || b.area == "motion"@,
        a.area != b.area || a.name != b.name,
    ensures
        planned_path(fighter, slot, a) != planned_path(fighter, slot, b),
{
    reveal_strlit("model");
    reveal_strlit("motion");
    let head = "fighter/"@ + fighter + "/"@;
    let middle = "/body/"@ + crate::workspace::slot_part(slot) + "/"@;
    let p = planned_path(fighter, slot, a);
    let q = planned_path(fighter, slot, b);
    assert(p =~= head + a.area + middle + a.name);
    assert(q =~= head + b.area + middle + b.name);
    if a.area != b.area {
        assert(p[(head.len() + 2) as int] == a.area[2]);
        assert(q[(head.len() + 2) as int] == b.area[2]);
    } else {
        let front = head + a.area + middle;
        assert(p.skip(front.len() as int) =~= a.name);
        assert(q.skip(front.len() as int) =~= b.name);
    }
}

/// A preview always has its own motion list and its own `ik.prc` and `swing.prc`, so that those
/// of the carrier never apply.
pub proof fn law_parameters_are_never_inherited(
    selection: Seq<(Seq<char>, crate::workspace::SourceView)>,
    stripped: bool,
    textures: Seq<(Seq<char>, crate::workspace::SourceView)>,
    motions: Seq<(Seq<char>, crate::workspace::SourceView)>,
    files: Map<Seq<char>, crate::workspace::SourceView>,
)
    ensures
        bundle_plan(selection, stripped, textures, motions, files).contains(
            PlannedView {
                area: "motion"@,
                name: "motion_list.bin"@,
                content: ContentView::MotionList,
            },
        ),
        bundle_plan(selection, stripped, textures, motions, files).contains(
            parameter_file(files, "ik.prc"@),
        ),
        bundle_plan(selection, stripped, textures, motions, files).contains(
            parameter_file(files, "swing.prc"@),
        ),
{
    let plan = bundle_plan(selection, stripped, textures, motions, files);
    let n = (model_graph().len() + textures.len() + motions.len()) as int;
    assert(plan[n] == (PlannedView {
        area: "motion"@,
        name: "motion_list.bin"@,
        content: ContentView::MotionList,
    }));
    assert(plan[n + 1] == parameter_file(files, "ik.prc"@));
    assert(plan[n + 2] == parameter_file(files, "swing.prc"@));
}

/// Leaving meshes out keeps exactly those that are not far-range, in their order.
pub proof fn law_near_meshes_are_kept(names: Seq<Seq<char>>)
    ensures
        forall|j: int|
            0 <= j < near_range(names).len() ==> 0 <= #[trigger] near_range(names)[j] < names.len()
                && !is_far_range(names[near_range(names)[j]]),
        forall|i: int, j: int|
            0 <= i < j < near_range(names).len() ==> #[trigger] near_range(names)[i]
                < #[trigger] near_range(names)[j],
        forall|k: int|
            0 <= k < names.len() && !is_far_range(#[trigger] names[k]) ==> near_range(
                names,
            ).contains(k),
    decreases names.len(),
{
    if names.len() > 0 {
        let rest = names.drop_last();
        law_near_meshes_are_kept(rest);
        let past = near_range(rest);
        let all = near_range(names);
        assert forall|j: int| 0 <= j < all.len() implies 0 <= #[trigger] all[j] < names.len()
            && !is_far_range(names[all[j]]) by {
            if j < past.len() {
                assert(all[j] == past[j]);
                assert(rest[past[j]] == names[past[j]]);
            }
        }
        assert forall|i: int, j: int| 0 <= i < j < all.len() implies #[trigger] all[i]
            < #[trigger] all[j] by {
            assert(all[i] == past[i]);
            if j < past.len() {
                assert(all[j] == past[j]);
            }
        }
        assert forall|k: int|
            0 <= k < names.len() && !is_far_range(#[trigger] names[k]) implies all.contains(k) by {
            if k < rest.len() {
                assert(rest[k] == names[k]);
                assert(past.contains(k));
                let j = past.index_of(k);
                assert(all[j] == k);
            } else {
                assert(all[all.len() - 1] == k);
            }
        }
    }
}

/// Every material that a descriptor may name is defined: a label is known exactly where the base
/// or a further file defines it.
pub proof fn law_known_labels_are_defined(
    known: Seq<Seq<char>>,
    labels: Seq<Seq<char>>,
    label: Seq<char>,
)
    ensures
        with_new(known, labels).contains(label) <==> known.contains(label) || labels.contains(
            label,
        ),
    decreases labels.len(),
{
    if labels.len() == 0 {
    } else {
        let rest = labels.drop_last();
        law_known_labels_are_defined(known, rest, label);
        let before = with_new(known, rest);
        let now = with_new(known, labels);
        if before.contains(label) {
            let j = before.index_of(label);
            assert(now[j] == label);
        }
        if rest.contains(label) {
            let j = rest.index_of(label);
            assert(labels[j] == label);
        }
        if labels.contains(label) && !rest.contains(label) {
            let j = labels.index_of(label);
            if j < rest.len() {
                assert(rest[j] == label);
            }
            assert(labels.last() == label);
            if !before.contains(label) {
                assert(now[now.len() - 1] == label);
            }
        }
        if now.contains(label) && !before.contains(label) {
            let j = now.index_of(label);
            if j < before.len() {
                assert(before[j] == label);
            }
            assert(labels[labels.len() - 1] == label);
        }
    }
}

/// The file that is chosen is the one that is shown: a choice that names a motion by its file
/// name, in whatever case and with white space around it, is taken if that file is there, whatever
/// else is.
pub proof fn law_chosen_motion_is_shown(choice: Seq<char>, names: Seq<Seq<char>>)
    requires
        ({
            let name = crate::text::lower(crate::text::trim(choice));
            &&& !name.contains('/')
            &&& !name.contains('\\')
            &&& crate::text::ends_with(name, ".nuanmb"@)
            &&& name != "model.nuanmb"@
            &&& names.contains(name)
        }),
    ensures
        shown_motion(Some(choice), names) == Ok::<Seq<char>, CarrierErrorView>(
            crate::text::lower(crate::text::trim(choice)),
        ),
{
    let text = crate::text::trim(choice);
    let name = crate::text::lower(text);
    reveal_strlit(".nuanmb");
    assert(name.len() == text.len());
    assert forall|c: char| c == '/' || c == '\\' implies !text.contains(c) by {
        if text.contains(c) {
            let i = text.index_of(c);
            assert(name[i] == c);
        }
    }
}

/// A choice that cannot be shown is refused, and never replaced by another motion.
pub proof fn law_no_other_motion_is_shown(choice: Seq<char>, names: Seq<Seq<char>>)
    requires
        crate::text::trim(choice).len() > 0,
    ensures
        shown_motion(Some(choice), names) matches Ok(name) ==> name == crate::text::lower(
            crate::text::trim(choice),
        ) && names.contains(name) && crate::text::ends_with(name, ".nuanmb"@) && name
            != "model.nuanmb"@,
{
}

/// The motion at a position is the first one that is fit to be shown.
pub open spec fn is_first(
    names: Seq<Seq<char>>,
    fit: spec_fn(Seq<char>) -> bool,
    name: Seq<char>,
) -> bool {
    exists|i: int|
        0 <= i < names.len() && #[trigger] names[i] == name && fit(name) && forall|j: int|
            0 <= j < i ==> !fit(#[trigger] names[j])
}

proof fn lemma_first_motion(names: Seq<Seq<char>>, waiting: bool, i: int)
    requires
        0 <= i <= names.len(),
        forall|j: int|
            0 <= j < i ==> !(crate::text::ends_with(#[trigger] names[j], ".nuanmb"@) && names[j]
                != "model.nuanmb"@ && (!waiting || crate::text::contains(names[j], "wait"@))),
    ensures
        ({
            let fit = |name: Seq<char>|
                crate::text::ends_with(name, ".nuanmb"@) && name != "model.nuanmb"@ && (!waiting
                    || crate::text::contains(name, "wait"@));
            match first_motion(names, waiting, i) {
                Some(name) => is_first(names, fit, name),
                None => forall|j: int| 0 <= j < names.len() ==> !fit(#[trigger] names[j]),
            }
        }),
    decreases names.len() - i,
{
    if i < names.len() {
        if !(is_motion(names[i]) && (!waiting || crate::text::contains(names[i], "wait"@))) {
            lemma_first_motion(names, waiting, i + 1);
        }
    }
}

/// Without a choice, or with a blank one, `wait.nuanmb` is shown if it is there, else the first
/// motion whose name holds `wait`, else the first motion; where there is no motion, that is an
/// error.
pub proof fn law_default_motion_waits(choice: Option<Seq<char>>, names: Seq<Seq<char>>)
    requires
        choice is None || crate::text::trim(choice->Some_0).len() == 0,
    ensures
        ({
            let is_one = |name: Seq<char>|
                crate::text::ends_with(name, ".nuanmb"@) && name != "model.nuanmb"@;
            let waits = |name: Seq<char>| is_one(name) && crate::text::contains(name, "wait"@);
            let shown = shown_motion(choice, names);
            if names.contains("wait.nuanmb"@) {
                shown == Ok::<Seq<char>, CarrierErrorView>("wait.nuanmb"@)
            } else if exists|i: int| 0 <= i < names.len() && waits(#[trigger] names[i]) {
                shown is Ok && is_first(names, waits, shown->Ok_0)
            } else if exists|i: int| 0 <= i < names.len() && is_one(#[trigger] names[i]) {
                shown is Ok && is_first(names, is_one, shown->Ok_0)
            } else {
                shown == Err::<Seq<char>, CarrierErrorView>(CarrierErrorView::NoMotion)
            }
        }),
{
    let is_one = |name: Seq<char>|
        crate::text::ends_with(name, ".nuanmb"@) && name != "model.nuanmb"@;
    let waits = |name: Seq<char>| is_one(name) && crate::text::contains(name, "wait"@);
    lemma_first_motion(names, true, 0);
    lemma_first_motion(names, false, 0);
    let fit_waiting = |name: Seq<char>|
        crate::text::ends_with(name, ".nuanmb"@) && name != "model.nuanmb"@ && (!true
            || crate::text::contains(name, "wait"@));
    let fit = |name: Seq<char>|
        crate::text::ends_with(name, ".nuanmb"@) && name != "model.nuanmb"@ && (!false
            || crate::text::contains(name, "wait"@));
    if !names.contains("wait.nuanmb"@) {
        if exists|i: int| 0 <= i < names.len() && waits(#[trigger] names[i]) {
            let i = choose|i: int| 0 <= i < names.len() && waits(#[trigger] names[i]);
            assert(first_motion(names, true, 0) is Some);
            let name = first_motion(names, true, 0)->Some_0;
            let k = choose|k: int|
                0 <= k < names.len() && #[trigger] names[k] == name && forall|j: int|
                    0 <= j < k ==> !waits(#[trigger] names[j]);
            assert(is_first(names, waits, name));
        } else if exists|i: int| 0 <= i < names.len() && is_one(#[trigger] names[i]) {
            assert(first_motion(names, true, 0) is None) by {
                if first_motion(names, true, 0) is Some {
                    let name = first_motion(names, true, 0)->Some_0;
                    let k = choose|k: int| 0 <= k < names.len() && #[trigger] names[k] == name;
                    assert(waits(names[k]));
                }
            }
            assert(first_motion(names, false, 0) is Some);
            let name = first_motion(names, false, 0)->Some_0;
            assert(is_first(names, is_one, name));
        }
    }
}

/// A file of a preview has between 1 byte and 64 MiB.
pub proof fn law_file_sizes_are_bounded(len: u64, label: Seq<char>)
    ensures
        match sized(len, label) {
            Ok(n) => n == len && 1 <= len <= 67_108_864,
            Err(CarrierErrorView::EmptyFile(name)) => len == 0 && name == label,
            Err(CarrierErrorView::FileTooLarge(name)) => len > 67_108_864 && name == label,
            Err(_) => false,
        },
{
}

/// The sources of a preview are counted together: the total is the sum of all of them, and just
/// where each is within its bound and the sum is at most 256 MiB are they accepted.
pub proof fn law_totals_count_every_source(sizes: Seq<u64>, label: Seq<char>)
    ensures
        match total_size(sizes, label) {
            Ok(n) => n == crate::snapshots::sum_of(sizes) && n <= 268_435_456 && forall|i: int|
                0 <= i < sizes.len() ==> 1 <= #[trigger] sizes[i] <= 67_108_864,
            Err(_) => crate::snapshots::sum_of(sizes) > 268_435_456 || exists|i: int|
                0 <= i < sizes.len() && !(1 <= #[trigger] sizes[i] <= 67_108_864),
        },
    decreases sizes.len(),
{
    if sizes.len() > 0 {
        let rest = sizes.drop_last();
        let n = sizes.len() - 1;
        law_totals_count_every_source(rest, label);
        assert(sizes[n] == sizes.last());
        assert forall|i: int| 0 <= i < n implies rest[i] == #[trigger] sizes[i] by {}
        if total_size(rest, label) is Err && !(crate::snapshots::sum_of(rest) > 268_435_456) {
            let i = choose|i: int| 0 <= i < rest.len() && !(1 <= #[trigger] rest[i] <= 67_108_864);
            assert(sizes[i] == rest[i]);
        }
    }
}

/// The file of a model is the one with the canonical name; only without it does another file of
/// the same kind serve, and only if it is the only one.
pub proof fn law_named_model_files_serve(
    files: SortedMap<String, AssetSource>,
    canonical: Seq<char>,
)
    requires
        files.wf(),
    ensures
        ({
            let sources = crate::workspace::source_views(files@);
            let others = with_ending(files.key_list(), ending_or_empty(canonical));
            &&& sources.contains_key(canonical) ==> model_source(files, canonical) == Ok::<
                crate::workspace::SourceView,
                CarrierErrorView,
            >(sources[canonical])
            &&& crate::selection::keeps_just(
                others,
                files.key_list(),
                |name: Seq<char>| ending(name) == Some(ending_or_empty(canonical)),
            )
            &&& !sources.contains_key(canonical) ==> (model_source(files, canonical) is Ok <==> others.len()
                == 1)
            &&& !sources.contains_key(canonical) && others.len() == 1 ==> model_source(
                files,
                canonical,
            )->Ok_0 == sources[others[0]]
            &&& !sources.contains_key(canonical) && others.len() == 0 ==> model_source(
                files,
                canonical,
            )->Err_0 == CarrierErrorView::MissingModelFile(canonical)
        }),
{
    lemma_endings_kept(files.key_list(), ending_or_empty(canonical));
}

proof fn lemma_endings_kept(names: Seq<Seq<char>>, wanted: Seq<char>)
    ensures
        crate::selection::keeps_just(
            with_ending(names, wanted),
            names,
            |name: Seq<char>| ending(name) == Some(wanted),
        ),
    decreases names.len(),
{
    let fits = |name: Seq<char>| ending(name) == Some(wanted);
    if names.len() == 0 {
        crate::selection::lemma_nothing(names, fits);
        assert(with_ending(names, wanted) =~= Seq::empty());
    } else {
        let rest = names.drop_last();
        lemma_endings_kept(rest, wanted);
        crate::selection::lemma_one_more(with_ending(rest, wanted), rest, fits, names.last());
        assert(rest.push(names.last()) =~= names);
    }
}

proof fn lemma_absent_kept(names: Seq<Seq<char>>, known: Seq<Seq<char>>)
    ensures
        crate::selection::keeps_just(
            absent(names, known),
            names,
            |name: Seq<char>| !known.contains(name),
        ),
    decreases names.len(),
{
    let missing = |name: Seq<char>| !known.contains(name);
    if names.len() == 0 {
        crate::selection::lemma_nothing(names, missing);
        assert(absent(names, known) =~= Seq::empty());
    } else {
        let rest = names.drop_last();
        lemma_absent_kept(rest, known);
        crate::selection::lemma_one_more(absent(rest, known), rest, missing, names.last());
        assert(rest.push(names.last()) =~= names);
    }
}

/// A selection is empty just where nothing is wanted.
proof fn lemma_none_wanted(
    result: Seq<Seq<char>>,
    items: Seq<Seq<char>>,
    wanted: spec_fn(Seq<char>) -> bool,
)
    requires
        crate::selection::keeps_just(result, items, wanted),
    ensures
        result.len() == 0 <==> forall|i: int| 0 <= i < items.len() ==> !wanted(#[trigger] items[i]),
        result.len() == items.len() <==> forall|i: int|
            0 <= i < items.len() ==> wanted(#[trigger] items[i]),
        result.len() <= items.len(),
    decreases items.len(),
{
    let at = choose|positions: Seq<int>|
        #![trigger crate::selection::are_wanted_positions(positions, items, wanted)]
        crate::selection::are_wanted_positions(positions, items, wanted) && result.len()
            == positions.len() && forall|k: int|
            0 <= k < result.len() ==> #[trigger] result[k] == items[positions[k]];
    if result.len() > 0 {
        assert(wanted(items[at[0]]));
    }
    if exists|i: int| 0 <= i < items.len() && wanted(#[trigger] items[i]) {
        let i = choose|i: int| 0 <= i < items.len() && wanted(#[trigger] items[i]);
        assert(at.contains(i));
    }
    lemma_positions_fit(at, items.len() as int, at.len() as int);
    if result.len() == items.len() {
        assert forall|i: int| 0 <= i < items.len() implies wanted(#[trigger] items[i]) by {
            lemma_positions_tight(at, items.len() as int, i);
            assert(at[i] == i);
        }
    }
    if forall|i: int| 0 <= i < items.len() ==> wanted(#[trigger] items[i]) {
        lemma_all_positions(at, items, wanted, items.len() as int);
    }
}

/// Ascending positions are at least their own index, and at most what leaves room for the rest.
proof fn lemma_positions_fit(at: Seq<int>, n: int, k: int)
    requires
        0 <= k <= at.len(),
        0 <= n,
        forall|i: int| 0 <= i < at.len() ==> 0 <= (#[trigger] at[i]) < n,
        forall|i: int, j: int| 0 <= i < j < at.len() ==> (#[trigger] at[i]) < (#[trigger] at[j]),
    ensures
        k <= n,
        forall|i: int| 0 <= i < k ==> i <= #[trigger] at[i],
        k > 0 ==> at[k - 1] >= k - 1,
    decreases k,
{
    if k > 0 {
        lemma_positions_fit(at, n, k - 1);
        assert(0 <= at[k - 1] < n);
        if k > 1 {
            assert(at[k - 2] < at[k - 1]);
        }
    }
}

proof fn lemma_positions_tight(at: Seq<int>, n: int, i: int)
    requires
        at.len() == n,
        0 <= i < n,
        forall|j: int| 0 <= j < at.len() ==> 0 <= (#[trigger] at[j]) < n,
        forall|j: int, k: int| 0 <= j < k < at.len() ==> (#[trigger] at[j]) < (#[trigger] at[k]),
    ensures
        at[i] == i,
    decreases n - i,
{
    lemma_positions_fit(at, n, n);
    if i < n - 1 {
        lemma_positions_tight(at, n, i + 1);
        assert(at[i] < at[i + 1]);
    }
}

proof fn lemma_all_positions(
    at: Seq<int>,
    items: Seq<Seq<char>>,
    wanted: spec_fn(Seq<char>) -> bool,
    k: int,
)
    requires
        crate::selection::are_wanted_positions(at, items, wanted),
        forall|i: int| 0 <= i < items.len() ==> wanted(#[trigger] items[i]),
        0 <= k <= items.len(),
    ensures
        at.len() >= k,
        forall|i: int| 0 <= i < k ==> #[trigger] at[i] == i,
    decreases k,
{
    if k > 0 {
        lemma_all_positions(at, items, wanted, k - 1);
        assert(wanted(items[k - 1]));
        assert(at.contains(k - 1));
        let p = at.index_of(k - 1);
        assert(at[p] == k - 1);
        if p < k - 1 {
            assert(at[p] == p);
        }
        if p > k - 1 {
            assert(at[k - 1] < at[p]);
            if k > 1 {
                assert(at[k - 2] < at[k - 1]);
            }
            assert(0 <= at[k - 1]);
        }
    }
}

/// A rig fits just where the model has bones and has every bone of the fighter. Else the missing
/// ones are named, in order and eight at most.
pub proof fn law_rigs_have_every_bone(custom: Seq<Seq<char>>, vanilla: Seq<Seq<char>>) -> (missing:
    Seq<Seq<char>>)
    ensures
        crate::selection::keeps_just(
            missing,
            vanilla,
            |bone: Seq<char>| !custom.contains(bone),
        ),
        rig_check(custom, Some(vanilla)) is Ok <==> custom.len() > 0 && forall|i: int|
            0 <= i < vanilla.len() ==> custom.contains(#[trigger] vanilla[i]),
        custom.len() == 0 ==> rig_check(custom, Some(vanilla)) == Err::<(), CarrierErrorView>(
            CarrierErrorView::NoBones,
        ),
        custom.len() > 0 && rig_check(custom, Some(vanilla)) is Err ==> {
            let sorted = crate::ordering::in_order(missing, crate::ordering::itself());
            rig_check(custom, Some(vanilla))->Err_0 == CarrierErrorView::MissingBones(
                if sorted.len() > 8 {
                    sorted.take(8)
                } else {
                    sorted
                },
            )
        },
        rig_check(custom, None) is Ok <==> custom.len() > 0,
{
    let lacks = |bone: Seq<char>| !custom.contains(bone);
    lemma_absent_kept(vanilla, custom);
    lemma_none_wanted(absent(vanilla, custom), vanilla, lacks);
    if forall|i: int| 0 <= i < vanilla.len() ==> custom.contains(#[trigger] vanilla[i]) {
        assert forall|i: int| 0 <= i < vanilla.len() implies !lacks(#[trigger] vanilla[i]) by {}
    }
    if absent(vanilla, custom).len() == 0 {
        assert forall|i: int| 0 <= i < vanilla.len() implies custom.contains(
            #[trigger] vanilla[i],
        ) by {
            assert(!lacks(vanilla[i]));
        }
    }
    absent(vanilla, custom)
}

/// An animation fits a skeleton just where it moves nothing, or some node that is a bone.
pub proof fn law_animations_move_some_bone(
    animation: Seq<char>,
    nodes: Seq<Seq<char>>,
    bones: Seq<Seq<char>>,
)
    ensures
        bones_check(animation, nodes, bones) is Ok <==> nodes.len() == 0 || exists|i: int|
            0 <= i < nodes.len() && bones.contains(#[trigger] nodes[i]),
        bones_check(animation, nodes, bones) matches Err(e) ==> e
            matches CarrierErrorView::UnknownBones { animation: a, names } && a == animation
            && names.len() <= 8,
{
    let lacks = |node: Seq<char>| !bones.contains(node);
    lemma_absent_kept(nodes, bones);
    lemma_none_wanted(absent(nodes, bones), nodes, lacks);
    if exists|i: int| 0 <= i < nodes.len() && bones.contains(#[trigger] nodes[i]) {
        let i = choose|i: int| 0 <= i < nodes.len() && bones.contains(#[trigger] nodes[i]);
        assert(!lacks(nodes[i]));
    } else {
        assert forall|i: int| 0 <= i < nodes.len() implies lacks(#[trigger] nodes[i]) by {}
    }
}

/// The nodes that count are those of the groups that move, in order: one more group adds its nodes
/// if it moves them, and nothing else.
pub proof fn law_moving_groups_count(groups: Seq<NodeGroup>, i: int)
    ensures
        groups.len() == 0 ==> moved_nodes(groups).len() == 0,
        0 <= i < groups.len() ==> moved_nodes(groups.take(i + 1)) == moved_nodes(groups.take(i)) + (
        if groups[i].is_transform {
            crate::text::texts(groups[i].nodes@)
        } else {
            Seq::empty()
        }),
{
    if 0 <= i < groups.len() {
        let now = groups.take(i + 1);
        assert(now.drop_last() =~= groups.take(i));
        assert(now.last() == groups[i]);
        assert(moved_nodes(groups.take(i)) + Seq::<Seq<char>>::empty() =~= moved_nodes(
            groups.take(i),
        ));
    }
}

proof fn lemma_first_absent(names: Seq<Seq<char>>, known: Seq<Seq<char>>, i: int)
    requires
        0 <= i <= names.len(),
        forall|j: int| 0 <= j < i ==> known.contains(#[trigger] names[j]),
    ensures
        match first_absent(names, known, i) {
            Some(name) => is_first(names, |n: Seq<char>| !known.contains(n), name),
            None => forall|j: int| 0 <= j < names.len() ==> known.contains(#[trigger] names[j]),
        },
    decreases names.len() - i,
{
    let lacks = |n: Seq<char>| !known.contains(n);
    if i < names.len() {
        if known.contains(names[i]) {
            lemma_first_absent(names, known, i + 1);
        } else {
            assert(names[i] == names[i] && lacks(names[i]));
            assert(is_first(names, lacks, names[i]));
        }
    }
}

/// A descriptor is accepted just where it names one material file and only materials that are
/// defined; else the first one that is not is named.
pub proof fn law_descriptors_name_defined_materials(
    descriptor: Seq<char>,
    count: usize,
    materials: Seq<Seq<char>>,
    known: Seq<Seq<char>>,
)
    ensures
        match descriptor_check(descriptor, count, materials, known) {
            Ok(_) => count == 1 && forall|i: int|
                0 <= i < materials.len() ==> known.contains(#[trigger] materials[i]),
            Err(CarrierErrorView::MaterialFiles { descriptor: d, count: n }) => count != 1 && n
                == count && d == descriptor,
            Err(CarrierErrorView::UnknownMaterial { descriptor: d, material }) => count == 1 && d
                == descriptor && is_first(
                materials,
                |n: Seq<char>| !known.contains(n),
                material,
            ),
            Err(_) => false,
        },
{
    lemma_first_absent(materials, known, 0);
}

/// The entries of a further material file that are taken are those with a label that neither the
/// materials before nor an earlier entry of the file define.
pub proof fn law_new_labels_are_taken(known: Seq<Seq<char>>, labels: Seq<Seq<char>>)
    ensures
        forall|j: int, k: int|
            0 <= j < k < taken_entries(known, labels).len() ==> (#[trigger] taken_entries(
                known,
                labels,
            )[j]) < (#[trigger] taken_entries(known, labels)[k]),
        forall|i: int|
            #![trigger labels[i]]
            0 <= i < labels.len() ==> (taken_entries(known, labels).contains(i) <==> (
            !known.contains(labels[i]) && !labels.take(i).contains(labels[i]))),
        forall|k: int|
            0 <= k < taken_entries(known, labels).len() ==> 0 <= #[trigger] taken_entries(
                known,
                labels,
            )[k] < labels.len(),
    decreases labels.len(),
{
    if labels.len() > 0 {
        let rest = labels.drop_last();
        let n = labels.len() - 1;
        law_new_labels_are_taken(known, rest);
        law_known_labels_are_defined(known, rest, labels.last());
        let (before, now) = (taken_entries(known, rest), taken_entries(known, labels));
        assert(labels.take(n) =~= rest);
        assert forall|i: int|
            #![trigger labels[i]]
            0 <= i < labels.len() implies (now.contains(i) <==> (!known.contains(labels[i])
            && !labels.take(i).contains(labels[i]))) by {
            if i < n {
                assert(rest[i] == labels[i]);
                assert(rest.take(i) =~= labels.take(i));
                if before.contains(i) {
                    let k = before.index_of(i);
                    assert(now[k] == i);
                }
                if now.contains(i) {
                    let k = now.index_of(i);
                    assert(k < before.len());
                    assert(before[k] == i);
                }
            } else {
                if now.len() > before.len() {
                    assert(now[now.len() - 1] == n);
                } else if now.contains(n) {
                    let k = now.index_of(n);
                    assert(before[k] == n);
                }
            }
        }
        assert forall|k: int| 0 <= k < now.len() implies 0 <= #[trigger] now[k] < labels.len() by {
            if k < before.len() {
                assert(now[k] == before[k]);
            }
        }
        assert forall|j: int, k: int| 0 <= j < k < now.len() implies (#[trigger] now[j]) < (
        #[trigger] now[k]) by {
            assert(now[j] == before[j]);
            if k < before.len() {
                assert(now[k] == before[k]);
            }
        }
    }
}

/// What is said to be filled in is just what is used and not provided: of the shown motion and the
/// three parameter files those that are there, but not in the workspace.
pub proof fn law_filled_in_files_are_named(
    selected: Seq<char>,
    files: Map<Seq<char>, AssetSource>,
    workspace: Map<Seq<char>, AssetSource>,
)
    ensures
        crate::selection::keeps_just(
            filled_in(selected, files, workspace),
            seq![selected, "swing.prc"@, "swingblend.prc"@, "ik.prc"@],
            |name: Seq<char>| files.contains_key(name) && !workspace.contains_key(name),
        ),
{
    let wanted = |name: Seq<char>| files.contains_key(name) && !workspace.contains_key(name);
    let none = Seq::<Seq<char>>::empty();
    crate::selection::lemma_nothing(none, wanted);
    let a = and_filled_in(none, selected, files, workspace);
    crate::selection::lemma_one_more(none, none, wanted, selected);
    let b = and_filled_in(a, "swing.prc"@, files, workspace);
    crate::selection::lemma_one_more(a, none.push(selected), wanted, "swing.prc"@);
    let c = and_filled_in(b, "swingblend.prc"@, files, workspace);
    crate::selection::lemma_one_more(
        b,
        none.push(selected).push("swing.prc"@),
        wanted,
        "swingblend.prc"@,
    );
    let d = and_filled_in(c, "ik.prc"@, files, workspace);
    crate::selection::lemma_one_more(
        c,
        none.push(selected).push("swing.prc"@).push("swingblend.prc"@),
        wanted,
        "ik.prc"@,
    );
    assert(none.push(selected).push("swing.prc"@).push("swingblend.prc"@).push("ik.prc"@)
        =~= seq![selected, "swing.prc"@, "swingblend.prc"@, "ik.prc"@]);
    assert(d == filled_in(selected, files, workspace));
}

/// A bundle holds each file of the model under its own name, then every texture and every
/// animation, each copied from its own source, then the motion list and the parameters.
pub proof fn law_bundles_hold_every_file(
    selection: Seq<(Seq<char>, crate::workspace::SourceView)>,
    stripped: bool,
    textures: Seq<(Seq<char>, crate::workspace::SourceView)>,
    motions: Seq<(Seq<char>, crate::workspace::SourceView)>,
    files: Map<Seq<char>, crate::workspace::SourceView>,
    i: int,
)
    ensures
        ({
            let plan = bundle_plan(selection, stripped, textures, motions, files);
            let t: int = 9 + textures.len() as int;
            let m: int = t + motions.len() as int;
            &&& plan.len() == m + 3 + if files.contains_key("swingblend.prc"@) {
                1int
            } else {
                0int
            }
            &&& 0 <= i < 9 ==> plan[i].area == "model"@ && plan[i].name == model_graph()[i]
                && rewritten_or_copied(selection, stripped, plan[i])
            &&& 0 <= i < textures.len() ==> plan[9 + i] == (PlannedView {
                area: "model"@,
                name: textures[i].0,
                content: ContentView::Texture(textures[i].1),
            })
            &&& 0 <= i < motions.len() ==> plan[t + i] == (PlannedView {
                area: "motion"@,
                name: motions[i].0,
                content: ContentView::Copy(motions[i].1),
            })
            &&& plan[m].name == "motion_list.bin"@ && plan[m].content
                == ContentView::MotionList
            &&& is_parameter(plan[m + 1], "ik.prc"@, files)
            &&& is_parameter(plan[m + 2], "swing.prc"@, files)
            &&& files.contains_key("swingblend.prc"@) ==> is_parameter(
                plan[m + 3],
                "swingblend.prc"@,
                files,
            )
        }),
{
    let plan = bundle_plan(selection, stripped, textures, motions, files);
    let m: int = 9 + textures.len() as int + motions.len() as int;
    assert(model_graph().len() == 9);
    if 0 <= i < 9 {
        assert(plan[i] == planned_model(selection, stripped)[i]);
        lemma_graph_spelled(i);
    }
    if 0 <= i < textures.len() {
        assert(plan[9 + i].name == textures[i].0);
    }
    if 0 <= i < motions.len() {
        assert(plan[9 + textures.len() + i].name == motions[i].0);
    }
    assert(plan[m + 1] == parameter_file(files, "ik.prc"@));
    assert(plan[m + 2] == parameter_file(files, "swing.prc"@));
}

/// The file is a parameter file: the one at hand, or an empty one where there is none.
pub open spec fn is_parameter(
    file: PlannedView,
    name: Seq<char>,
    files: Map<Seq<char>, crate::workspace::SourceView>,
) -> bool {
    &&& file.area == "motion"@
    &&& file.name == name
    &&& files.contains_key(name) ==> file.content == ContentView::Copy(files[name])
    &&& !files.contains_key(name) ==> file.content == ContentView::EmptyParameters
}

/// A file of the model is copied from what was selected for it, unless it is one of those that are
/// written anew; without a source it is an empty animation.
pub open spec fn rewritten_or_copied(
    selection: Seq<(Seq<char>, crate::workspace::SourceView)>,
    stripped: bool,
    file: PlannedView,
) -> bool {
    let source = selected_source(selection, file.name, 0);
    match file.content {
        ContentView::Copy(s) => Some(s) == source && file.name != "model.numatb"@ && file.name
            != "model.numdlb"@ && file.name != "model.nusrcmdlb"@ && (stripped ==> file.name
            != "model.numshb"@ && file.name != "model.numshexb"@),
        ContentView::EmptyAnimation => source is None,
        ContentView::Materials => file.name == "model.numatb"@,
        ContentView::Descriptor => file.name == "model.numdlb"@,
        ContentView::CommandDescriptor => file.name == "model.nusrcmdlb"@,
        ContentView::StrippedMeshes => stripped && file.name == "model.numshb"@,
        ContentView::StrippedMeshInfo => stripped && file.name == "model.numshexb"@,
        _ => false,
    }
}

proof fn lemma_graph_spelled(i: int)
    requires
        0 <= i < 9,
    ensures
        model_graph()[i].len() > 0,
{
    lemma_graph_names(i, i);
}

} // verus!
