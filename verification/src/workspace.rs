//! The project workspace: one folder that holds every edit, with a manual overlay in the layout
//! of the game's files.
use crate::ordering::lemma_placed_at;
use crate::paths::{file_extension, file_name, join};
use crate::sorted::SortedMap;
use crate::text::{
    chars_of, comes_before, decimal_text, has_char, has_end, holds, lowered, same_text,
    search_last, text_of, trimmed,
};
use vstd::prelude::*;

verus! {

/// The file that holds a project's edits.
pub const PROJECT_FILE_NAME: &'static str = "modproject.json";

/// `modproject.json` inside a workspace folder.
pub fn workspace_file(workspace: &str) -> (path: String)
    ensures
        path@ == crate::paths::joined(workspace@, PROJECT_FILE_NAME@),
{
    join(workspace, PROJECT_FILE_NAME)
}

/// The manual overlay inside a workspace folder.
pub open spec fn overlay_of(workspace: Seq<char>) -> Seq<char> {
    crate::paths::joined(workspace, "romfs"@)
}

/// The manual overlay inside a workspace folder.
pub fn workspace_romfs(workspace: &str) -> (path: String)
    ensures
        path@ == overlay_of(workspace@),
{
    join(workspace, "romfs")
}

// ── Names ────────────────────────────────────────────────────────────────────

/// Why an asset was refused.
#[derive(Debug, PartialEq, Eq)]
pub enum AssetError {
    /// The fighter's name cannot be a part of a game path.
    UnsafeFighter(String),
    /// The path ends in no name that can be used.
    NoUsableName(String),
    /// The name holds a separator.
    UnsafeName(String),
    /// The name occurs twice.
    DuplicateName(String),
    /// The file is not of the kind asked for.
    Unsupported(String),
    /// No file was selected.
    NothingSelected,
}

#[verifier::ext_equal]
pub enum AssetErrorView {
    UnsafeFighter(Seq<char>),
    NoUsableName(Seq<char>),
    UnsafeName(Seq<char>),
    DuplicateName(Seq<char>),
    Unsupported(Seq<char>),
    NothingSelected,
}

impl View for AssetError {
    type V = AssetErrorView;

    open spec fn view(&self) -> AssetErrorView {
        match *self {
            AssetError::UnsafeFighter(name) => AssetErrorView::UnsafeFighter(name@),
            AssetError::NoUsableName(path) => AssetErrorView::NoUsableName(path@),
            AssetError::UnsafeName(name) => AssetErrorView::UnsafeName(name@),
            AssetError::DuplicateName(name) => AssetErrorView::DuplicateName(name@),
            AssetError::Unsupported(path) => AssetErrorView::Unsupported(path@),
            AssetError::NothingSelected => AssetErrorView::NothingSelected,
        }
    }
}

/// The view of a text or an error.
pub open spec fn text_result(
    result: Result<String, AssetError>,
) -> Result<Seq<char>, AssetErrorView> {
    match result {
        Ok(t) => Ok(t@),
        Err(e) => Err(e@),
    }
}

/// Every character can stand in a fighter's internal name.
pub open spec fn is_fighter_name(name: Seq<char>) -> bool {
    name.len() > 0 && forall|i: int|
        0 <= i < name.len() ==> crate::link::is_target_char(#[trigger] name[i])
}

/// A fighter's name as a part of a game path: without white space around it, in small letters.
pub open spec fn fighter_part(fighter: Seq<char>) -> Result<Seq<char>, AssetErrorView> {
    let name = crate::text::lower(crate::text::trim(fighter));
    if is_fighter_name(name) {
        Ok(name)
    } else {
        Err(AssetErrorView::UnsafeFighter(name))
    }
}

/// The name under which a file is imported: its own in small letters, unless it is hidden or
/// holds a separator.
pub open spec fn asset_name(path: Seq<char>) -> Result<Seq<char>, AssetErrorView> {
    match crate::paths::name_of(path) {
        Some(name) => if name.len() == 0 || name[0] == '.' {
            Err(AssetErrorView::NoUsableName(path))
        } else {
            let small = crate::text::lower(name);
            if small.contains('/') || small.contains('\\') {
                Err(AssetErrorView::UnsafeName(small))
            } else {
                Ok(small)
            }
        },
        None => Err(AssetErrorView::NoUsableName(path)),
    }
}

/// A fighter's name as a part of a game path.
pub fn fighter_component(fighter: &str) -> (name: Result<String, AssetError>)
    ensures
        text_result(name) == fighter_part(fighter@),
{
    let name = lowered(trimmed(fighter).as_str());
    let chars = chars_of(name.as_str());
    if chars.len() == 0 {
        return Err(AssetError::UnsafeFighter(name));
    }
    let mut i: usize = 0;
    while i < chars.len()
        invariant
            i <= chars@.len(),
            chars@ == name@,
            name@ == crate::text::lower(crate::text::trim(fighter@)),
            forall|j: int| 0 <= j < i ==> crate::link::is_target_char(#[trigger] name@[j]),
        decreases chars@.len() - i,
    {
        let c = chars[i];
        if !(('a' <= c && c <= 'z') || ('0' <= c && c <= '9') || c == '_') {
            assert(!crate::link::is_target_char(name@[i as int]));
            return Err(AssetError::UnsafeFighter(name));
        }
        i += 1;
    }
    Ok(name)
}

/// The name under which a file is imported.
pub fn asset_file_name(source: &str) -> (name: Result<String, AssetError>)
    ensures
        text_result(name) == asset_name(source@),
{
    match file_name(source) {
        Some(name) => {
            let chars = chars_of(name.as_str());
            if chars.len() == 0 || chars[0] == '.' {
                return Err(AssetError::NoUsableName(source.to_owned()));
            }
            let small = lowered(name.as_str());
            if has_char(small.as_str(), '/') || has_char(small.as_str(), '\\') {
                Err(AssetError::UnsafeName(small))
            } else {
                Ok(small)
            }
        },
        None => Err(AssetError::NoUsableName(source.to_owned())),
    }
}

/// A path's extension in small letters.
pub open spec fn small_extension(path: Seq<char>) -> Seq<char> {
    crate::text::lower(crate::paths::extension_of(path))
}

/// A path's extension in small letters.
pub fn extension(source: &str) -> (extension: String)
    ensures
        extension@ == small_extension(source@),
{
    lowered(file_extension(source).as_str())
}

/// The extensions of the files that make up a model folder.
pub open spec fn is_model_extension(extension: Seq<char>) -> bool {
    extension == "adjb"@ || extension == "lvd"@ || extension == "nuhlpb"@ || extension == "numatb"@
        || extension == "numdlb"@ || extension == "numshexb"@ || extension == "numshb"@ || extension
        == "nuanmb"@ || extension == "nusktb"@ || extension == "nusrcmdlb"@ || extension
        == "nutexb"@ || extension == "xmb"@
}

/// Whether the file belongs to a model folder.
pub fn is_model_asset(source: &str) -> (b: bool)
    ensures
        b == is_model_extension(small_extension(source@)),
{
    let found = extension(source);
    let e = found.as_str();
    same_text(e, "adjb") || same_text(e, "lvd") || same_text(e, "nuhlpb") || same_text(e, "numatb")
        || same_text(e, "numdlb") || same_text(e, "numshexb") || same_text(e, "numshb")
        || same_text(e, "nuanmb") || same_text(e, "nusktb") || same_text(e, "nusrcmdlb")
        || same_text(e, "nutexb") || same_text(e, "xmb")
}

/// Whether the file is an animation.
pub fn is_animation_asset(source: &str) -> (b: bool)
    ensures
        b == (small_extension(source@) == "nuanmb"@),
{
    same_text(extension(source).as_str(), "nuanmb")
}

/// A costume slot as a part of a game path: `c` and at least two digits.
pub open spec fn slot_part(slot: u8) -> Seq<char> {
    if slot < 10 {
        "c0"@ + crate::text::decimal(slot as nat)
    } else {
        "c"@ + crate::text::decimal(slot as nat)
    }
}

fn slot_name(slot: u8) -> (name: String)
    ensures
        name@ == slot_part(slot),
{
    let mut name = if slot < 10 {
        "c0".to_owned()
    } else {
        "c".to_owned()
    };
    name.append(decimal_text(slot as u64).as_str());
    name
}

/// The folder of a fighter's costume in an overlay, for `area` `model` or `motion`.
pub open spec fn slot_dir(
    workspace: Seq<char>,
    fighter: Seq<char>,
    area: Seq<char>,
    slot: u8,
) -> Seq<char> {
    let base = crate::paths::joined(
        crate::paths::joined(overlay_of(workspace), "fighter"@),
        fighter,
    );
    crate::paths::joined(
        crate::paths::joined(crate::paths::joined(base, area), "body"@),
        slot_part(slot),
    )
}

/// The body-model and body-motion folders of one costume.
pub fn workspace_fighter_slot_dirs(workspace: &str, fighter: &str, slot: u8) -> (dirs: Result<
    (String, String),
    AssetError,
>)
    ensures
        match dirs {
            Ok((model, motion)) => fighter_part(fighter@) is Ok && model@ == slot_dir(
                workspace@,
                fighter_part(fighter@)->Ok_0,
                "model"@,
                slot,
            ) && motion@ == slot_dir(
                workspace@,
                fighter_part(fighter@)->Ok_0,
                "motion"@,
                slot,
            ),
            Err(e) => fighter_part(fighter@) == Err::<Seq<char>, AssetErrorView>(e@),
        },
{
    let name = match fighter_component(fighter) {
        Ok(name) => name,
        Err(e) => {
            return Err(e);
        },
    };
    let slot_text = slot_name(slot);
    let fighters = join(workspace_romfs(workspace).as_str(), "fighter");
    let base = join(fighters.as_str(), name.as_str());
    let model = join(join(base.as_str(), "model").as_str(), "body");
    let motion = join(join(base.as_str(), "motion").as_str(), "body");
    Ok((join(model.as_str(), slot_text.as_str()), join(motion.as_str(), slot_text.as_str())))
}

// ── Files of the overlay ─────────────────────────────────────────────────────

/// A file in the workspace and the game path that it replaces.
#[derive(Debug, PartialEq, Eq)]
pub struct WorkspaceAssetFile {
    pub workspace_path: String,
    pub game_path: String,
}

#[verifier::ext_equal]
pub struct AssetFileView {
    pub workspace_path: Seq<char>,
    pub game_path: Seq<char>,
}

impl View for WorkspaceAssetFile {
    type V = AssetFileView;

    open spec fn view(&self) -> AssetFileView {
        AssetFileView { workspace_path: self.workspace_path@, game_path: self.game_path@ }
    }
}

impl Clone for WorkspaceAssetFile {
    fn clone(&self) -> (copy: Self)
        ensures
            copy == *self,
    {
        WorkspaceAssetFile {
            workspace_path: self.workspace_path.clone(),
            game_path: self.game_path.clone(),
        }
    }
}

/// The views of a list of files.
pub open spec fn file_views(files: Seq<WorkspaceAssetFile>) -> Seq<AssetFileView> {
    Seq::new(files.len(), |i: int| files[i]@)
}

/// Files are ordered by the game paths they replace.
pub open spec fn by_game_path() -> spec_fn(AssetFileView) -> Seq<char> {
    |f: AssetFileView| f.game_path
}

/// The game path of a fighter's file.
pub open spec fn game_path(
    fighter: Seq<char>,
    area: Seq<char>,
    slot: u8,
    file: Seq<char>,
) -> Seq<char> {
    "fighter/"@ + fighter + "/"@ + area + "/body/"@ + slot_part(slot) + "/"@ + file
}

fn write_game_path(fighter: &str, area: &str, slot: u8, file: &str) -> (path: String)
    ensures
        path@ == game_path(fighter@, area@, slot, file@),
{
    let mut path = "fighter/".to_owned();
    path.append(fighter);
    path.append("/");
    path.append(area);
    path.append("/body/");
    path.append(slot_name(slot).as_str());
    path.append("/");
    path.append(file);
    path
}

/// Where a prepared file goes.
pub fn output_asset_path(output_dir: &str, fighter: &str, slot: u8, area: &str, file: &str) -> (
    output: WorkspaceAssetFile)
    ensures
        output@ == (AssetFileView {
            workspace_path: crate::paths::joined(
                output_dir@,
                game_path(fighter@, area@, slot, file@),
            ),
            game_path: game_path(fighter@, area@, slot, file@),
        }),
{
    let path = write_game_path(fighter, area, slot, file);
    WorkspaceAssetFile { workspace_path: join(output_dir, path.as_str()), game_path: path }
}

/// The files in the order of the game paths they replace.
pub fn sort_files(files: &Vec<WorkspaceAssetFile>) -> (sorted: Vec<WorkspaceAssetFile>)
    ensures
        file_views(sorted@) == crate::ordering::in_order(file_views(files@), by_game_path()),
{
    let ghost all = file_views(files@);
    let mut sorted: Vec<WorkspaceAssetFile> = Vec::new();
    let mut i: usize = 0;
    assert(all.take(0).len() == 0);
    assert(file_views(sorted@) =~= crate::ordering::in_order(all.take(0), by_game_path()));
    while i < files.len()
        invariant
            i <= files@.len(),
            all == file_views(files@),
            file_views(sorted@) == crate::ordering::in_order(all.take(i as int), by_game_path()),
        decreases files@.len() - i,
    {
        let ghost before = file_views(sorted@);
        let mut p: usize = sorted.len();
        while p > 0 && comes_before(
            files[i as usize].game_path.as_str(),
            sorted[p - 1].game_path.as_str(),
        )
            invariant
                i < files@.len(),
                p <= sorted@.len(),
                before == file_views(sorted@),
                forall|j: int|
                    p <= j < before.len() ==> crate::text::before(
                        files@[i as int].game_path@,
                        (#[trigger] before[j]).game_path,
                    ),
            decreases p,
        {
            assert(before[p - 1] == sorted@[p - 1]@);
            p -= 1;
        }
        proof {
            assert(all.take(i + 1).drop_last() =~= all.take(i as int));
            assert(all.take(i + 1).last() == files@[i as int]@);
            if p > 0 {
                assert(before[p - 1] == sorted@[p - 1]@);
            }
            lemma_placed_at(before, files@[i as int]@, by_game_path(), p as int);
        }
        sorted.insert(p, files[i].clone());
        assert(file_views(sorted@) =~= before.insert(p as int, files@[i as int]@));
        i += 1;
    }
    assert(all.take(i as int) =~= all);
    sorted
}

/// An entry of a folder.
#[derive(Debug)]
pub struct ListedFile {
    pub path: String,
    pub is_file: bool,
    pub is_symlink: bool,
    pub len: u64,
}

#[verifier::ext_equal]
pub struct ListedView {
    pub path: Seq<char>,
    pub is_file: bool,
    pub is_symlink: bool,
    pub len: u64,
}

impl View for ListedFile {
    type V = ListedView;

    open spec fn view(&self) -> ListedView {
        ListedView {
            path: self.path@,
            is_file: self.is_file,
            is_symlink: self.is_symlink,
            len: self.len,
        }
    }
}

/// The views of the entries of a folder.
pub open spec fn listed_views(list: Seq<ListedFile>) -> Seq<ListedView> {
    Seq::new(list.len(), |i: int| list[i]@)
}

/// Whose files a folder holds.
#[derive(Clone, Copy, Debug, PartialEq, Eq, Structural)]
pub enum AssetArea {
    Model,
    Motion,
}

impl AssetArea {
    /// The area's part of a game path.
    pub open spec fn part(self) -> Seq<char> {
        match self {
            AssetArea::Model => "model"@,
            AssetArea::Motion => "motion"@,
        }
    }
}

/// The file's name in small letters is `wanted`.
pub open spec fn is_named(path: Seq<char>, wanted: Seq<char>) -> bool {
    match crate::paths::name_of(path) {
        Some(name) => crate::text::lower(name) == wanted,
        None => false,
    }
}

/// The file belongs to what is shown of a workspace: every model file, every animation, and the
/// swing parameters and motion list.
pub open spec fn is_shown(path: Seq<char>, area: AssetArea) -> bool {
    match area {
        AssetArea::Model => is_model_extension(small_extension(path)),
        AssetArea::Motion => small_extension(path) == "nuanmb"@ || is_named(path, "swing.prc"@)
            || is_named(path, "motion_list.bin"@),
    }
}

/// The file can go into a preview: what is shown, and the other motion parameters.
pub open spec fn is_previewed(path: Seq<char>, area: AssetArea) -> bool {
    match area {
        AssetArea::Model => is_model_extension(small_extension(path)),
        AssetArea::Motion => small_extension(path) == "nuanmb"@ || is_named(path, "swing.prc"@)
            || is_named(path, "swingblend.prc"@) || is_named(path, "ik.prc"@) || is_named(
            path,
            "motion_list.bin"@,
        ),
    }
}

/// The entry is a regular file.
pub open spec fn is_regular(entry: ListedView) -> bool {
    entry.is_file && !entry.is_symlink
}

/// The shown files of a folder, in the order of its entries. A name that cannot be used is an
/// error.
pub open spec fn shown_files(
    entries: Seq<ListedView>,
    fighter: Seq<char>,
    slot: u8,
    area: AssetArea,
) -> Result<Seq<AssetFileView>, AssetErrorView>
    decreases entries.len(),
{
    if entries.len() == 0 {
        Ok(Seq::empty())
    } else {
        match shown_files(entries.drop_last(), fighter, slot, area) {
            Err(e) => Err(e),
            Ok(files) => {
                let entry = entries.last();
                if !is_shown(entry.path, area) || !is_regular(entry) {
                    Ok(files)
                } else {
                    match asset_name(entry.path) {
                        Err(e) => Err(e),
                        Ok(name) => Ok(
                            files.push(
                                AssetFileView {
                                    workspace_path: entry.path,
                                    game_path: game_path(fighter, area.part(), slot, name),
                                },
                            ),
                        ),
                    }
                }
            },
        }
    }
}

/// Every shown file of a costume's two folders, ordered by game path.
pub open spec fn costume_files(
    fighter: Seq<char>,
    slot: u8,
    model: Seq<ListedView>,
    motion: Seq<ListedView>,
) -> Result<Seq<AssetFileView>, AssetErrorView> {
    match fighter_part(fighter) {
        Err(e) => Err(e),
        Ok(name) => match shown_files(model, name, slot, AssetArea::Model) {
            Err(e) => Err(e),
            Ok(models) => match shown_files(motion, name, slot, AssetArea::Motion) {
                Err(e) => Err(e),
                Ok(motions) => Ok(crate::ordering::in_order(models + motions, by_game_path())),
            },
        },
    }
}

/// The view of a list of files or an error.
pub open spec fn files_result(
    result: Result<Vec<WorkspaceAssetFile>, AssetError>,
) -> Result<Seq<AssetFileView>, AssetErrorView> {
    match result {
        Ok(files) => Ok(file_views(files@)),
        Err(e) => Err(e@),
    }
}

fn named(path: &str, wanted: &str) -> (b: bool)
    ensures
        b == is_named(path@, wanted@),
{
    match file_name(path) {
        Some(name) => same_text(lowered(name.as_str()).as_str(), wanted),
        None => false,
    }
}

fn shows(path: &str, area: AssetArea) -> (b: bool)
    ensures
        b == is_shown(path@, area),
{
    match area {
        AssetArea::Model => is_model_asset(path),
        AssetArea::Motion => is_animation_asset(path) || named(path, "swing.prc") || named(
            path,
            "motion_list.bin",
        ),
    }
}

fn previews(path: &str, area: AssetArea) -> (b: bool)
    ensures
        b == is_previewed(path@, area),
{
    match area {
        AssetArea::Model => is_model_asset(path),
        AssetArea::Motion => is_animation_asset(path) || named(path, "swing.prc") || named(
            path,
            "swingblend.prc",
        ) || named(path, "ik.prc") || named(path, "motion_list.bin"),
    }
}

/// Adds the shown files of a folder to `files`.
fn add_shown(
    files: &mut Vec<WorkspaceAssetFile>,
    entries: &Vec<ListedFile>,
    fighter: &str,
    slot: u8,
    area: AssetArea,
) -> (result: Result<(), AssetError>)
    ensures
        match shown_files(listed_views(entries@), fighter@, slot, area) {
            Ok(shown) => result is Ok && file_views(final(files)@) == file_views(old(files)@)
                + shown,
            Err(e) => result is Err && result->Err_0@ == e,
        },
{
    let ghost all = listed_views(entries@);
    let ghost before = file_views(files@);
    let mut i: usize = 0;
    proof {
        assert(all.take(0).len() == 0);
        assert(file_views(files@) =~= before + Seq::<AssetFileView>::empty());
    }
    while i < entries.len()
        invariant
            i <= entries@.len(),
            all == listed_views(entries@),
            shown_files(all.take(i as int), fighter@, slot, area) is Ok,
            file_views(files@) == before + shown_files(
                all.take(i as int),
                fighter@,
                slot,
                area,
            )->Ok_0,
        decreases entries@.len() - i,
    {
        proof {
            assert(all.take(i + 1).drop_last() =~= all.take(i as int));
            assert(all.take(i + 1).last() == entries@[i as int]@);
            lemma_shown_error(all, fighter@, slot, area, i + 1);
        }
        let entry = &entries[i];
        if shows(entry.path.as_str(), area) && entry.is_file && !entry.is_symlink {
            let name = match asset_file_name(entry.path.as_str()) {
                Ok(name) => name,
                Err(e) => {
                    return Err(e);
                },
            };
            let part = match area {
                AssetArea::Model => "model",
                AssetArea::Motion => "motion",
            };
            let ghost shown = shown_files(all.take(i as int), fighter@, slot, area)->Ok_0;
            let file = WorkspaceAssetFile {
                workspace_path: entry.path.clone(),
                game_path: write_game_path(fighter, part, slot, name.as_str()),
            };
            let ghost now = file_views(files@);
            files.push(file);
            proof {
                assert(file_views(files@) =~= now.push(file@));
                assert((before + shown).push(file@) =~= before + shown.push(file@));
            }
        }
        i += 1;
    }
    assert(all.take(i as int) =~= all);
    Ok(())
}

/// An error among the first entries is the error of all of them.
proof fn lemma_shown_error(
    entries: Seq<ListedView>,
    fighter: Seq<char>,
    slot: u8,
    area: AssetArea,
    k: int,
)
    requires
        0 <= k <= entries.len(),
    ensures
        shown_files(entries.take(k), fighter, slot, area) is Err ==> shown_files(
            entries,
            fighter,
            slot,
            area,
        ) == shown_files(entries.take(k), fighter, slot, area),
    decreases entries.len(),
{
    if k == entries.len() {
        assert(entries.take(k) =~= entries);
    } else {
        lemma_shown_error(entries.drop_last(), fighter, slot, area, k);
        assert(entries.drop_last().take(k) =~= entries.take(k));
    }
}

/// Every shown file of a costume, from the entries of its two folders.
pub fn workspace_asset_files(
    fighter: &str,
    slot: u8,
    model: &Vec<ListedFile>,
    motion: &Vec<ListedFile>,
) -> (files: Result<Vec<WorkspaceAssetFile>, AssetError>)
    ensures
        files_result(files) == costume_files(
            fighter@,
            slot,
            listed_views(model@),
            listed_views(motion@),
        ),
{
    let name = match fighter_component(fighter) {
        Ok(name) => name,
        Err(e) => {
            return Err(e);
        },
    };
    let mut files: Vec<WorkspaceAssetFile> = Vec::new();
    assert(file_views(files@) =~= Seq::empty());
    match add_shown(&mut files, model, name.as_str(), slot, AssetArea::Model) {
        Ok(_) => {},
        Err(e) => {
            return Err(e);
        },
    }
    match add_shown(&mut files, motion, name.as_str(), slot, AssetArea::Motion) {
        Ok(_) => {},
        Err(e) => {
            return Err(e);
        },
    }
    proof {
        let models = shown_files(listed_views(model@), name@, slot, AssetArea::Model)->Ok_0;
        let motions = shown_files(listed_views(motion@), name@, slot, AssetArea::Motion)->Ok_0;
        assert(Seq::<AssetFileView>::empty() + models =~= models);
        assert(file_views(files@) =~= models + motions);
    }
    Ok(sort_files(&files))
}

// ── What a costume's folders hold ────────────────────────────────────────────

/// A short account of a costume's files.
#[derive(Debug, PartialEq, Eq)]
pub struct WorkspaceAssetInventory {
    pub model_files: Vec<String>,
    pub animations: Vec<String>,
    pub swing_prc: bool,
    pub motion_list: bool,
}

impl WorkspaceAssetInventory {
    /// How many files there are.
    pub open spec fn total(&self) -> nat {
        self.model_files@.len() + self.animations@.len() + (if self.swing_prc {
            1nat
        } else {
            0nat
        }) + (if self.motion_list {
            1nat
        } else {
            0nat
        })
    }

    /// How many files there are.
    pub fn total_files(&self) -> (n: usize)
        requires
            self.total() <= usize::MAX,
        ensures
            n == self.total(),
    {
        let mut n: usize = self.model_files.len() + self.animations.len();
        if self.swing_prc {
            n += 1;
        }
        if self.motion_list {
            n += 1;
        }
        n
    }
}

/// What follows the last `/`.
pub open spec fn last_part(path: Seq<char>) -> Seq<char> {
    match crate::text::rfind(path, "/"@) {
        Some(k) => path.skip(k + 1),
        None => path,
    }
}

/// The game path leads into a model folder.
pub open spec fn is_model_path(path: Seq<char>) -> bool {
    crate::text::contains(path, "/model/"@)
}

/// The game path is that of an animation.
pub open spec fn is_animation_path(path: Seq<char>) -> bool {
    !is_model_path(path) && crate::text::ends_with(last_part(path), ".nuanmb"@)
}

/// The names of the files whose game paths satisfy `wanted`, in order.
pub open spec fn names_where(
    files: Seq<AssetFileView>,
    wanted: spec_fn(Seq<char>) -> bool,
) -> Seq<Seq<char>>
    decreases files.len(),
{
    if files.len() == 0 {
        Seq::empty()
    } else if wanted(files.last().game_path) {
        names_where(files.drop_last(), wanted).push(last_part(files.last().game_path))
    } else {
        names_where(files.drop_last(), wanted)
    }
}

/// Some file outside the model folder has this name.
pub open spec fn has_motion_file(files: Seq<AssetFileView>, name: Seq<char>) -> bool {
    exists|i: int|
        0 <= i < files.len() && !is_model_path((#[trigger] files[i]).game_path) && last_part(
            files[i].game_path,
        ) == name
}

/// `inventory` is the account of `files`.
pub open spec fn accounts_for(
    inventory: WorkspaceAssetInventory,
    files: Seq<AssetFileView>,
) -> bool {
    &&& crate::text::texts(inventory.model_files@) == names_where(
        files,
        |p: Seq<char>| is_model_path(p),
    )
    &&& crate::text::texts(inventory.animations@) == names_where(
        files,
        |p: Seq<char>| is_animation_path(p),
    )
    &&& inventory.swing_prc == has_motion_file(files, "swing.prc"@)
    &&& inventory.motion_list == has_motion_file(files, "motion_list.bin"@)
}

fn name_at_end(path: &str) -> (name: String)
    ensures
        name@ == last_part(path@),
{
    let chars = chars_of(path);
    let slash = chars_of("/");
    match search_last(&chars, &slash) {
        Some(k) => {
            proof {
                crate::text::lemma_rfind_from(chars@, slash@, chars@.len() - slash@.len());
                reveal_strlit("/");
            }
            let end: usize = chars.len();
            assert(k + 1 <= end);
            let name = text_of(&chars, k + 1, end);
            assert(name@ =~= path@.skip(k + 1));
            name
        },
        None => path.to_owned(),
    }
}

/// The account of a list of files.
pub fn inventory_of(files: &Vec<WorkspaceAssetFile>) -> (inventory: WorkspaceAssetInventory)
    ensures
        accounts_for(inventory, file_views(files@)),
{
    let ghost all = file_views(files@);
    let ghost in_model = |p: Seq<char>| is_model_path(p);
    let ghost animated = |p: Seq<char>| is_animation_path(p);
    let mut model_files: Vec<String> = Vec::new();
    let mut animations: Vec<String> = Vec::new();
    let mut swing_prc: bool = false;
    let mut motion_list: bool = false;
    let mut i: usize = 0;
    proof {
        assert(all.take(0).len() == 0);
        assert(crate::text::texts(model_files@) =~= names_where(all.take(0), in_model));
        assert(crate::text::texts(animations@) =~= names_where(all.take(0), animated));
        reveal_strlit(".nuanmb");
        reveal_strlit("swing.prc");
        reveal_strlit("motion_list.bin");
    }
    while i < files.len()
        invariant
            i <= files@.len(),
            all == file_views(files@),
            in_model == (|p: Seq<char>| is_model_path(p)),
            animated == (|p: Seq<char>| is_animation_path(p)),
            crate::text::texts(model_files@) == names_where(all.take(i as int), in_model),
            crate::text::texts(animations@) == names_where(all.take(i as int), animated),
            swing_prc == has_motion_file(all.take(i as int), "swing.prc"@),
            motion_list == has_motion_file(all.take(i as int), "motion_list.bin"@),
        decreases files@.len() - i,
    {
        let path = files[i].game_path.as_str();
        let name = name_at_end(path);
        let ghost now = all.take(i + 1);
        proof {
            assert(now.drop_last() =~= all.take(i as int));
            assert(now.last() == files@[i as int]@);
            lemma_motion_file(all, "swing.prc"@, i as int);
            lemma_motion_file(all, "motion_list.bin"@, i as int);
        }
        if holds(path, "/model/") {
            let ghost before = crate::text::texts(model_files@);
            model_files.push(name);
            assert(crate::text::texts(model_files@) =~= before.push(name@));
        } else {
            if same_text(name.as_str(), "swing.prc") {
                swing_prc = true;
            }
            if same_text(name.as_str(), "motion_list.bin") {
                motion_list = true;
            }
            if has_end(name.as_str(), ".nuanmb") {
                let ghost before = crate::text::texts(animations@);
                animations.push(name);
                assert(crate::text::texts(animations@) =~= before.push(name@));
            }
        }
        i += 1;
    }
    assert(all.take(i as int) =~= all);
    WorkspaceAssetInventory { model_files, animations, swing_prc, motion_list }
}

proof fn lemma_motion_file(files: Seq<AssetFileView>, name: Seq<char>, i: int)
    requires
        0 <= i < files.len(),
    ensures
        has_motion_file(files.take(i + 1), name) == (has_motion_file(files.take(i), name) || (
        !is_model_path(files[i].game_path) && last_part(files[i].game_path) == name)),
{
    let now = files.take(i + 1);
    let past = files.take(i);
    if has_motion_file(past, name) {
        let k = choose|k: int|
            0 <= k < past.len() && !is_model_path((#[trigger] past[k]).game_path) && last_part(
                past[k].game_path,
            ) == name;
        assert(now[k] == past[k]);
    }
    if has_motion_file(now, name) {
        let k = choose|k: int|
            0 <= k < now.len() && !is_model_path((#[trigger] now[k]).game_path) && last_part(
                now[k].game_path,
            ) == name;
        if k < i {
            assert(past[k] == now[k]);
        }
    }
    assert(now[i] == files[i]);
}

/// The account of a costume's files, from the entries of its two folders.
pub fn workspace_asset_inventory(
    fighter: &str,
    slot: u8,
    model: &Vec<ListedFile>,
    motion: &Vec<ListedFile>,
) -> (inventory: Result<WorkspaceAssetInventory, AssetError>)
    ensures
        match costume_files(fighter@, slot, listed_views(model@), listed_views(motion@)) {
            Ok(files) => inventory is Ok && accounts_for(inventory->Ok_0, files),
            Err(e) => inventory is Err && inventory->Err_0@ == e,
        },
{
    match workspace_asset_files(fighter, slot, model, motion) {
        Ok(files) => Ok(inventory_of(&files)),
        Err(e) => Err(e),
    }
}

// ── Files for a preview ──────────────────────────────────────────────────────

/// A file that can go into a preview, and its length in bytes.
#[derive(Debug)]
pub struct AssetSource {
    pub path: String,
    pub len: u64,
}

#[verifier::ext_equal]
pub struct SourceView {
    pub path: Seq<char>,
    pub len: u64,
}

impl View for AssetSource {
    type V = SourceView;

    open spec fn view(&self) -> SourceView {
        SourceView { path: self.path@, len: self.len }
    }
}

impl Clone for AssetSource {
    fn clone(&self) -> (copy: Self)
        ensures
            copy == *self,
    {
        AssetSource { path: self.path.clone(), len: self.len }
    }
}

/// The views of a map's sources.
pub open spec fn source_views(files: Map<Seq<char>, AssetSource>) -> Map<Seq<char>, SourceView> {
    files.map_values(|p: AssetSource| p@)
}

/// The files of a folder that can go into a preview, by name. A name that cannot be used, or that
/// occurs twice, is an error.
pub open spec fn collected(
    entries: Seq<ListedView>,
    area: AssetArea,
) -> Result<Map<Seq<char>, SourceView>, AssetErrorView>
    decreases entries.len(),
{
    if entries.len() == 0 {
        Ok(Map::empty())
    } else {
        match collected(entries.drop_last(), area) {
            Err(e) => Err(e),
            Ok(files) => {
                let entry = entries.last();
                if !is_regular(entry) || !is_previewed(entry.path, area) {
                    Ok(files)
                } else {
                    match asset_name(entry.path) {
                        Err(e) => Err(e),
                        Ok(name) => if files.contains_key(name) {
                            Err(AssetErrorView::DuplicateName(name))
                        } else {
                            Ok(
                                files.insert(
                                    name,
                                    SourceView { path: entry.path, len: entry.len },
                                ),
                            )
                        },
                    }
                }
            },
        }
    }
}

proof fn lemma_collected_error(entries: Seq<ListedView>, area: AssetArea, k: int)
    requires
        0 <= k <= entries.len(),
    ensures
        collected(entries.take(k), area) is Err ==> collected(entries, area) == collected(
            entries.take(k),
            area,
        ),
    decreases entries.len(),
{
    if k == entries.len() {
        assert(entries.take(k) =~= entries);
    } else {
        lemma_collected_error(entries.drop_last(), area, k);
        assert(entries.drop_last().take(k) =~= entries.take(k));
    }
}

/// The files of a folder that can go into a preview, by name.
pub fn regular_asset_files(entries: &Vec<ListedFile>, area: AssetArea) -> (files: Result<
    SortedMap<String, AssetSource>,
    AssetError,
>)
    ensures
        match collected(listed_views(entries@), area) {
            Ok(found) => files is Ok && files->Ok_0.wf() && source_views(files->Ok_0@) == found,
            Err(e) => files is Err && files->Err_0@ == e,
        },
{
    let ghost all = listed_views(entries@);
    let mut files: SortedMap<String, AssetSource> = SortedMap::new();
    let mut i: usize = 0;
    proof {
        assert(all.take(0).len() == 0);
        assert(source_views(files@) =~= Map::empty());
    }
    while i < entries.len()
        invariant
            i <= entries@.len(),
            all == listed_views(entries@),
            files.wf(),
            collected(all.take(i as int), area) is Ok,
            source_views(files@) == collected(all.take(i as int), area)->Ok_0,
        decreases entries@.len() - i,
    {
        proof {
            assert(all.take(i + 1).drop_last() =~= all.take(i as int));
            assert(all.take(i + 1).last() == entries@[i as int]@);
            lemma_collected_error(all, area, i + 1);
        }
        let entry = &entries[i];
        if entry.is_file && !entry.is_symlink && previews(entry.path.as_str(), area) {
            let name = match asset_file_name(entry.path.as_str()) {
                Ok(name) => name,
                Err(e) => {
                    return Err(e);
                },
            };
            let ghost before = source_views(files@);
            if files.contains_key(&name) {
                assert(before.contains_key(name@));
                return Err(AssetError::DuplicateName(name));
            }
            assert(!before.contains_key(name@));
            let source = AssetSource { path: entry.path.clone(), len: entry.len };
            files.insert(name, source);
            assert(source_views(files@) =~= before.insert(name@, source@));
        }
        i += 1;
    }
    assert(all.take(i as int) =~= all);
    Ok(files)
}

/// The files of both, those of `over` winning.
pub fn overlaid(
    base: &SortedMap<String, AssetSource>,
    over: &SortedMap<String, AssetSource>,
) -> (files: SortedMap<String, AssetSource>)
    requires
        base.wf(),
        over.wf(),
    ensures
        files.wf(),
        source_views(files@) == source_views(base@).union_prefer_right(source_views(over@)),
{
    let mut files: SortedMap<String, AssetSource> = SortedMap::new();
    add_all(&mut files, base);
    assert(source_views(files@) =~= source_views(base@));
    add_all(&mut files, over);
    files
}

/// Puts every entry of `more` into `files`.
fn add_all(files: &mut SortedMap<String, AssetSource>, more: &SortedMap<String, AssetSource>)
    requires
        old(files).wf(),
        more.wf(),
    ensures
        final(files).wf(),
        source_views(final(files)@) == source_views(old(files)@).union_prefer_right(
            source_views(more@),
        ),
{
    let ghost before = source_views(files@);
    let ghost keys = more.key_list();
    let mut i: usize = 0;
    while i < more.len()
        invariant
            files.wf(),
            more.wf(),
            keys == more.key_list(),
            i <= keys.len(),
            forall|k: Seq<char>| #[trigger]
                source_views(files@).contains_key(k) <==> (before.contains_key(k) || keys.take(
                    i as int,
                ).contains(k)),
            forall|k: Seq<char>|
                source_views(files@).contains_key(k) ==> #[trigger] source_views(files@)[k] == (
                if keys.take(i as int).contains(k) {
                    source_views(more@)[k]
                } else {
                    before[k]
                }),
        decreases keys.len() - i,
    {
        let ghost now = source_views(files@);
        proof {
            more.lemma_entry(i as int);
        }
        let name = more.key_at(i).clone();
        let source = more.value_at(i).clone();
        files.insert(name, source);
        proof {
            assert(source_views(files@) =~= now.insert(name@, source@));
            assert(keys.take(i + 1) =~= keys.take(i as int).push(name@));
            assert forall|k: Seq<char>| #[trigger]
                keys.take(i + 1).contains(k) == (keys.take(i as int).contains(k) || k
                    == name@) by {
                let past = keys.take(i as int);
                let next = keys.take(i + 1);
                if past.contains(k) {
                    let j = past.index_of(k);
                    assert(next[j] == k);
                }
                if next.contains(k) {
                    let j = next.index_of(k);
                    if j < i {
                        assert(past[j] == k);
                    }
                }
                assert(next[i as int] == name@);
            }
            assert(source_views(more@)[name@] == source@);
            assert forall|k: Seq<char>| #[trigger]
                source_views(files@).contains_key(k) <==> (before.contains_key(k) || keys.take(
                    i + 1,
                ).contains(k)) by {
                assert(now.contains_key(k) <==> (before.contains_key(k) || keys.take(
                    i as int,
                ).contains(k)));
            }
            assert forall|k: Seq<char>|
                source_views(files@).contains_key(k) implies #[trigger] source_views(files@)[k] == (
            if keys.take(i + 1).contains(k) {
                source_views(more@)[k]
            } else {
                before[k]
            }) by {
                if k != name@ {
                    assert(now.contains_key(k));
                    assert(now[k] == source_views(files@)[k]);
                }
            }
        }
        i += 1;
    }
    proof {
        assert(keys.take(i as int) =~= keys);
        more.lemma_lists();
        assert forall|k: Seq<char>| keys.contains(k) == source_views(more@).contains_key(k) by {
            assert(more@.dom().contains(k) == keys.to_set().contains(k));
        }
        assert(source_views(files@) =~= before.union_prefer_right(source_views(more@)));
    }
}

// ── Imports ──────────────────────────────────────────────────────────────────

/// A file to import: where it comes from, its name, and where it goes.
#[derive(Debug)]
pub struct PlannedImport {
    pub source: String,
    pub name: String,
    pub output: String,
}

#[verifier::ext_equal]
pub struct ImportView {
    pub source: Seq<char>,
    pub name: Seq<char>,
    pub output: Seq<char>,
}

impl View for PlannedImport {
    type V = ImportView;

    open spec fn view(&self) -> ImportView {
        ImportView { source: self.source@, name: self.name@, output: self.output@ }
    }
}

/// The views of a plan.
pub open spec fn import_views(plan: Seq<PlannedImport>) -> Seq<ImportView> {
    Seq::new(plan.len(), |i: int| plan[i]@)
}

/// The file can be imported into the area: any model file, or an animation.
pub open spec fn is_importable(path: Seq<char>, area: AssetArea) -> bool {
    match area {
        AssetArea::Model => is_model_extension(small_extension(path)),
        AssetArea::Motion => small_extension(path) == "nuanmb"@,
    }
}

/// Some file of the plan has this name.
pub open spec fn plans_name(plan: Seq<ImportView>, name: Seq<char>) -> bool {
    exists|i: int| 0 <= i < plan.len() && (#[trigger] plan[i]).name == name
}

/// The plan for these sources: all of them are of the right kind and have different names, or
/// none is imported.
pub open spec fn planned(
    sources: Seq<Seq<char>>,
    destination: Seq<char>,
    area: AssetArea,
) -> Result<Seq<ImportView>, AssetErrorView>
    decreases sources.len(),
{
    if sources.len() == 0 {
        Ok(Seq::empty())
    } else {
        match planned(sources.drop_last(), destination, area) {
            Err(e) => Err(e),
            Ok(plan) => {
                let source = sources.last();
                if !is_importable(source, area) {
                    Err(AssetErrorView::Unsupported(source))
                } else {
                    match asset_name(source) {
                        Err(e) => Err(e),
                        Ok(name) => if plans_name(plan, name) {
                            Err(AssetErrorView::DuplicateName(name))
                        } else {
                            Ok(
                                plan.push(
                                    ImportView {
                                        source,
                                        name,
                                        output: crate::paths::joined(destination, name),
                                    },
                                ),
                            )
                        },
                    }
                }
            },
        }
    }
}

/// The plan for an import; without a source there is none.
pub open spec fn import_plan(
    sources: Seq<Seq<char>>,
    destination: Seq<char>,
    area: AssetArea,
) -> Result<Seq<ImportView>, AssetErrorView> {
    if sources.len() == 0 {
        Err(AssetErrorView::NothingSelected)
    } else {
        planned(sources, destination, area)
    }
}

proof fn lemma_planned_error(
    sources: Seq<Seq<char>>,
    destination: Seq<char>,
    area: AssetArea,
    k: int,
)
    requires
        0 <= k <= sources.len(),
    ensures
        planned(sources.take(k), destination, area) is Err ==> planned(sources, destination, area)
            == planned(sources.take(k), destination, area),
    decreases sources.len(),
{
    if k == sources.len() {
        assert(sources.take(k) =~= sources);
    } else {
        lemma_planned_error(sources.drop_last(), destination, area, k);
        assert(sources.drop_last().take(k) =~= sources.take(k));
    }
}

/// Plans the import of files into a folder.
pub fn import_named_assets(sources: &Vec<String>, destination: &str, area: AssetArea) -> (plan:
    Result<Vec<PlannedImport>, AssetError>)
    ensures
        match import_plan(crate::text::texts(sources@), destination@, area) {
            Ok(wanted) => plan is Ok && import_views(plan->Ok_0@) == wanted,
            Err(e) => plan is Err && plan->Err_0@ == e,
        },
{
    if sources.len() == 0 {
        assert(crate::text::texts(sources@).len() == 0);
        return Err(AssetError::NothingSelected);
    }
    let ghost all = crate::text::texts(sources@);
    let mut plan: Vec<PlannedImport> = Vec::new();
    let mut i: usize = 0;
    proof {
        assert(all.take(0).len() == 0);
        assert(import_views(plan@) =~= Seq::empty());
    }
    while i < sources.len()
        invariant
            i <= sources@.len(),
            sources@.len() > 0,
            all == crate::text::texts(sources@),
            planned(all.take(i as int), destination@, area) is Ok,
            import_views(plan@) == planned(all.take(i as int), destination@, area)->Ok_0,
        decreases sources@.len() - i,
    {
        proof {
            assert(all.take(i + 1).drop_last() =~= all.take(i as int));
            assert(all.take(i + 1).last() == sources@[i as int]@);
            lemma_planned_error(all, destination@, area, i + 1);
        }
        let source = sources[i].as_str();
        let accepted = match area {
            AssetArea::Model => is_model_asset(source),
            AssetArea::Motion => is_animation_asset(source),
        };
        if !accepted {
            return Err(AssetError::Unsupported(source.to_owned()));
        }
        let name = match asset_file_name(source) {
            Ok(name) => name,
            Err(e) => {
                return Err(e);
            },
        };
        if has_planned(&plan, name.as_str()) {
            return Err(AssetError::DuplicateName(name));
        }
        let output = join(destination, name.as_str());
        let item = PlannedImport { source: source.to_owned(), name, output };
        let ghost before = import_views(plan@);
        plan.push(item);
        assert(import_views(plan@) =~= before.push(item@));
        i += 1;
    }
    assert(all.take(i as int) =~= all);
    Ok(plan)
}

fn has_planned(plan: &Vec<PlannedImport>, name: &str) -> (b: bool)
    ensures
        b == plans_name(import_views(plan@), name@),
{
    let mut i: usize = 0;
    while i < plan.len()
        invariant
            i <= plan@.len(),
            forall|j: int| 0 <= j < i ==> (#[trigger] import_views(plan@)[j]).name != name@,
        decreases plan@.len() - i,
    {
        assert(import_views(plan@)[i as int].name == plan@[i as int].name@);
        if same_text(plan[i].name.as_str(), name) {
            return true;
        }
        i += 1;
    }
    false
}

/// Plans the import of model files into a costume.
pub fn import_model_files(workspace: &str, fighter: &str, slot: u8, sources: &Vec<String>) -> (
    plan: Result<Vec<PlannedImport>, AssetError>)
    ensures
        match fighter_part(fighter@) {
            Err(e) => plan is Err && plan->Err_0@ == e,
            Ok(name) => match import_plan(
                crate::text::texts(sources@),
                slot_dir(workspace@, name, "model"@, slot),
                AssetArea::Model,
            ) {
                Ok(wanted) => plan is Ok && import_views(plan->Ok_0@) == wanted,
                Err(e) => plan is Err && plan->Err_0@ == e,
            },
        },
{
    match workspace_fighter_slot_dirs(workspace, fighter, slot) {
        Ok((model, _)) => import_named_assets(sources, model.as_str(), AssetArea::Model),
        Err(e) => Err(e),
    }
}

/// The files of a folder that belong to a model, in the order of the listing.
pub open spec fn model_paths(entries: Seq<ListedView>) -> Seq<Seq<char>>
    decreases entries.len(),
{
    if entries.len() == 0 {
        Seq::empty()
    } else {
        let before = model_paths(entries.drop_last());
        if is_regular(entries.last()) && is_previewed(entries.last().path, AssetArea::Model) {
            before.push(entries.last().path)
        } else {
            before
        }
    }
}

/// Plans the import of every file of a folder that belongs to a model. Folders and links in it
/// are left out.
pub fn import_model_folder(
    workspace: &str,
    fighter: &str,
    slot: u8,
    entries: &Vec<ListedFile>,
) -> (plan: Result<Vec<PlannedImport>, AssetError>)
    ensures
        match fighter_part(fighter@) {
            Err(e) => plan is Err && plan->Err_0@ == e,
            Ok(name) => match import_plan(
                crate::ordering::in_order(
                    model_paths(listed_views(entries@)),
                    crate::ordering::itself(),
                ),
                slot_dir(workspace@, name, "model"@, slot),
                AssetArea::Model,
            ) {
                Ok(wanted) => plan is Ok && import_views(plan->Ok_0@) == wanted,
                Err(e) => plan is Err && plan->Err_0@ == e,
            },
        },
{
    let ghost all = listed_views(entries@);
    let mut sources: Vec<String> = Vec::new();
    let mut i: usize = 0;
    proof {
        assert(all.take(0).len() == 0);
        assert(crate::text::texts(sources@) =~= Seq::empty());
    }
    while i < entries.len()
        invariant
            i <= entries@.len(),
            all == listed_views(entries@),
            crate::text::texts(sources@) == model_paths(all.take(i as int)),
        decreases entries@.len() - i,
    {
        proof {
            assert(all.take(i + 1).drop_last() =~= all.take(i as int));
            assert(all.take(i + 1).last() == entries@[i as int]@);
        }
        let entry = &entries[i];
        if entry.is_file && !entry.is_symlink && previews(entry.path.as_str(), AssetArea::Model) {
            let ghost before = crate::text::texts(sources@);
            sources.push(entry.path.clone());
            assert(crate::text::texts(sources@) =~= before.push(entry.path@));
        }
        i += 1;
    }
    assert(all.take(i as int) =~= all);
    import_model_files(workspace, fighter, slot, &crate::ordering::sort_texts(&sources))
}

/// The destinations of an import.
pub open spec fn output_list(plan: Seq<ImportView>) -> Seq<Seq<char>> {
    Seq::new(plan.len(), |i: int| plan[i].output)
}

/// The files that an import leaves behind, in order.
pub fn imported_files(plan: &Vec<PlannedImport>) -> (files: Vec<String>)
    ensures
        crate::text::texts(files@) == crate::ordering::in_order(
            output_list(import_views(plan@)),
            crate::ordering::itself(),
        ),
{
    let ghost all = output_list(import_views(plan@));
    let mut files: Vec<String> = Vec::new();
    let mut i: usize = 0;
    while i < plan.len()
        invariant
            i <= plan@.len(),
            all == output_list(import_views(plan@)),
            crate::text::texts(files@) == all.take(i as int),
        decreases plan@.len() - i,
    {
        let ghost before = crate::text::texts(files@);
        files.push(plan[i].output.clone());
        proof {
            assert(all[i as int] == plan@[i as int].output@);
            assert(crate::text::texts(files@) =~= before.push(all[i as int]));
            assert(all.take(i + 1) =~= before.push(all[i as int]));
        }
        i += 1;
    }
    assert(all.take(i as int) =~= all);
    crate::ordering::sort_texts(&files)
}

/// Plans the import of animations into a costume.
pub fn import_animation_files(workspace: &str, fighter: &str, slot: u8, sources: &Vec<String>) -> (
    plan: Result<Vec<PlannedImport>, AssetError>)
    ensures
        match fighter_part(fighter@) {
            Err(e) => plan is Err && plan->Err_0@ == e,
            Ok(name) => match import_plan(
                crate::text::texts(sources@),
                slot_dir(workspace@, name, "motion"@, slot),
                AssetArea::Motion,
            ) {
                Ok(wanted) => plan is Ok && import_views(plan->Ok_0@) == wanted,
                Err(e) => plan is Err && plan->Err_0@ == e,
            },
        },
{
    match workspace_fighter_slot_dirs(workspace, fighter, slot) {
        Ok((_, motion)) => import_named_assets(sources, motion.as_str(), AssetArea::Motion),
        Err(e) => Err(e),
    }
}

/// Where swing parameters go, whatever their file is called.
pub fn import_swing_prc(workspace: &str, fighter: &str, slot: u8, source: &str) -> (destination:
    Result<String, AssetError>)
    ensures
        text_result(destination) == if small_extension(source@) != "prc"@ {
            Err(AssetErrorView::Unsupported(source@))
        } else {
            match fighter_part(fighter@) {
                Err(e) => Err(e),
                Ok(name) => Ok(
                    crate::paths::joined(
                        slot_dir(workspace@, name, "motion"@, slot),
                        "swing.prc"@,
                    ),
                ),
            }
        },
{
    if !same_text(extension(source).as_str(), "prc") {
        return Err(AssetError::Unsupported(source.to_owned()));
    }
    match workspace_fighter_slot_dirs(workspace, fighter, slot) {
        Ok((_, motion)) => Ok(join(motion.as_str(), "swing.prc")),
        Err(e) => Err(e),
    }
}

// ── The map of a workspace ───────────────────────────────────────────────────

/// How a kind of edit is handled.
#[derive(Debug, Clone, Copy, PartialEq, Eq, Structural)]
pub enum WorkspaceSupport {
    /// Edited here, and stored with the project.
    Supported,
    /// Copied on import for reading, and never exported.
    Reference,
    /// Dropped into the overlay, and shipped as it is.
    Manual,
}

/// One row of the map.
#[derive(Debug, Clone, Copy, PartialEq, Eq)]
pub struct WorkspaceEntry {
    pub kind: &'static str,
    pub support: WorkspaceSupport,
    /// Where it lives in the workspace.
    pub workspace_path: &'static str,
    /// A game path that it ships as.
    pub game_path: &'static str,
    pub notes: &'static str,
}

#[verifier::ext_equal]
pub struct EntryView {
    pub kind: Seq<char>,
    pub support: WorkspaceSupport,
    pub workspace_path: Seq<char>,
    pub game_path: Seq<char>,
    pub notes: Seq<char>,
}

impl View for WorkspaceEntry {
    type V = EntryView;

    open spec fn view(&self) -> EntryView {
        EntryView {
            kind: self.kind@,
            support: self.support,
            workspace_path: self.workspace_path@,
            game_path: self.game_path@,
            notes: self.notes@,
        }
    }
}

/// Every kind of edit and where it goes.
pub open spec fn edit_kinds() -> Seq<EntryView> {
    seq![
        EntryView {
            kind: "Fighter moves (ACMD)"@,
            support: WorkspaceSupport::Supported,
            workspace_path: "modproject.json"@,
            game_path: "plugin.nro (built on export)"@,
            notes: "Hitboxes, effects, sounds per move."@,
        },
        EntryView {
            kind: "Fighter params"@,
            support: WorkspaceSupport::Supported,
            workspace_path: "modproject.json"@,
            game_path: "fighter/common/param/fighter_param.prc"@,
            notes: "Weight, speeds, jumps — sparse diffs."@,
        },
        EntryView {
            kind: "Roster order / visibility / row fields"@,
            support: WorkspaceSupport::Supported,
            workspace_path: "modproject.json"@,
            game_path: "ui/param/database/ui_chara_db.prc"@,
            notes: "Rebuilt from base + overrides on export."@,
        },
        EntryView {
            kind: "Display names"@,
            support: WorkspaceSupport::Supported,
            workspace_path: "modproject.json"@,
            game_path: "ui/message/msg_name.xmsbt"@,
            notes: "Adopted from .xmsbt on import."@,
        },
        EntryView {
            kind: "Portraits / stock icons"@,
            support: WorkspaceSupport::Supported,
            workspace_path: "assets/roster_ui/..."@,
            game_path: "ui/replace/chara/.../*.bntx"@,
            notes: "PNGs managed by Visionary."@,
        },
        EntryView {
            kind: "Effect textures"@,
            support: WorkspaceSupport::Supported,
            workspace_path: "assets/textures/..."@,
            game_path: "effect pool BNTX"@,
            notes: "Replacements + additions."@,
        },
        EntryView {
            kind: "Source reference"@,
            support: WorkspaceSupport::Reference,
            workspace_path: "reference/..."@,
            game_path: "—"@,
            notes: "Copied on import for reading; never exported."@,
        },
        EntryView {
            kind: "Models"@,
            support: WorkspaceSupport::Manual,
            workspace_path: "romfs/fighter/<fighter>/model/..."@,
            game_path: "fighter/<fighter>/model/..."@,
            notes: "Not modelled — drop .numdlb/.numshb/.nusktb here; ships verbatim."@,
        },
        EntryView {
            kind: "Animations"@,
            support: WorkspaceSupport::Manual,
            workspace_path: "romfs/fighter/<fighter>/motion/..."@,
            game_path: "fighter/<fighter>/motion/..."@,
            notes: "Not modelled — drop .nuanmb/.nusmab here; ships verbatim."@,
        },
        EntryView {
            kind: "Sound / streams"@,
            support: WorkspaceSupport::Manual,
            workspace_path: "romfs/sound/..."@,
            game_path: "sound/..."@,
            notes: "Not modelled — ships verbatim."@,
        },
        EntryView {
            kind: "Binary effects / messages"@,
            support: WorkspaceSupport::Manual,
            workspace_path: "romfs/effect/... · romfs/ui/message/..."@,
            game_path: "effect/... · ui/message/*.msbt"@,
            notes: "Compiled .eff/.msbt are reference-only; manual overrides ship verbatim."@,
        },
        EntryView {
            kind: "Compiled plugins"@,
            support: WorkspaceSupport::Reference,
            workspace_path: "reference/..."@,
            game_path: "*.nro"@,
            notes: "Reference-only by design; editor shows vanilla scripts."@,
        },
    ]
}

/// Every kind of edit and where it goes.
pub fn workspace_map() -> (entries: Vec<WorkspaceEntry>)
    ensures
        Seq::new(entries@.len(), |i: int| entries@[i]@) == edit_kinds(),
{
    let entries: Vec<WorkspaceEntry> = vec![
        WorkspaceEntry {
            kind: "Fighter moves (ACMD)",
            support: WorkspaceSupport::Supported,
            workspace_path: "modproject.json",
            game_path: "plugin.nro (built on export)",
            notes: "Hitboxes, effects, sounds per move.",
        },
        WorkspaceEntry {
            kind: "Fighter params",
            support: WorkspaceSupport::Supported,
            workspace_path: "modproject.json",
            game_path: "fighter/common/param/fighter_param.prc",
            notes: "Weight, speeds, jumps — sparse diffs.",
        },
        WorkspaceEntry {
            kind: "Roster order / visibility / row fields",
            support: WorkspaceSupport::Supported,
            workspace_path: "modproject.json",
            game_path: "ui/param/database/ui_chara_db.prc",
            notes: "Rebuilt from base + overrides on export.",
        },
        WorkspaceEntry {
            kind: "Display names",
            support: WorkspaceSupport::Supported,
            workspace_path: "modproject.json",
            game_path: "ui/message/msg_name.xmsbt",
            notes: "Adopted from .xmsbt on import.",
        },
        WorkspaceEntry {
            kind: "Portraits / stock icons",
            support: WorkspaceSupport::Supported,
            workspace_path: "assets/roster_ui/...",
            game_path: "ui/replace/chara/.../*.bntx",
            notes: "PNGs managed by Visionary.",
        },
        WorkspaceEntry {
            kind: "Effect textures",
            support: WorkspaceSupport::Supported,
            workspace_path: "assets/textures/...",
            game_path: "effect pool BNTX",
            notes: "Replacements + additions.",
        },
        WorkspaceEntry {
            kind: "Source reference",
            support: WorkspaceSupport::Reference,
            workspace_path: "reference/...",
            game_path: "—",
            notes: "Copied on import for reading; never exported.",
        },
        WorkspaceEntry {
            kind: "Models",
            support: WorkspaceSupport::Manual,
            workspace_path: "romfs/fighter/<fighter>/model/...",
            game_path: "fighter/<fighter>/model/...",
            notes: "Not modelled — drop .numdlb/.numshb/.nusktb here; ships verbatim.",
        },
        WorkspaceEntry {
            kind: "Animations",
            support: WorkspaceSupport::Manual,
            workspace_path: "romfs/fighter/<fighter>/motion/...",
            game_path: "fighter/<fighter>/motion/...",
            notes: "Not modelled — drop .nuanmb/.nusmab here; ships verbatim.",
        },
        WorkspaceEntry {
            kind: "Sound / streams",
            support: WorkspaceSupport::Manual,
            workspace_path: "romfs/sound/...",
            game_path: "sound/...",
            notes: "Not modelled — ships verbatim.",
        },
        WorkspaceEntry {
            kind: "Binary effects / messages",
            support: WorkspaceSupport::Manual,
            workspace_path: "romfs/effect/... · romfs/ui/message/...",
            game_path: "effect/... · ui/message/*.msbt",
            notes: "Compiled .eff/.msbt are reference-only; manual overrides ship verbatim.",
        },
        WorkspaceEntry {
            kind: "Compiled plugins",
            support: WorkspaceSupport::Reference,
            workspace_path: "reference/...",
            game_path: "*.nro",
            notes: "Reference-only by design; editor shows vanilla scripts.",
        },
    ];
    assert(Seq::new(entries@.len(), |i: int| entries@[i]@) =~= edit_kinds());
    entries
}

/// What the README of a new workspace says.
pub const WORKSPACE_README: &'static str =
    "# Visionary project workspace\n\nThis folder holds every edit for the project.\n\n- `modproject.json` — every edit the tool supports (moves, params, roster,\nnames, portraits, effect values/textures). Edited in Visionary, saved with\nCtrl+S.\n- `assets/` — portable images managed by Visionary. Keep beside the JSON.\n- `reference/` — import reference copies (source text, notes). Never exported.\n- `romfs/` — MANUAL overlay in arc layout. Drop files the tool does not model\nhere and they ship verbatim on export:\n- models: `romfs/fighter/<fighter>/model/...` (*.numdlb, *.numshb, *.nusktb…)\n- animations: `romfs/fighter/<fighter>/motion/...` (*.nuanmb, *.nushdb…)\n- sound: `romfs/sound/...`\n- binary effect/message overrides: `romfs/effect/...`, `romfs/ui/message/...`\n\nProject Files can import models, animations, and swing.prc into this overlay.\nEdit those imported copies, then use Reload asset preview to update the\nexperimental in-game carrier preview. Export keeps the original asset names.\n\nSee Windows → Project Files in Visionary for the full map.\n";

/// The folders of a workspace.
pub fn workspace_folders(workspace: &str) -> (folders: Vec<String>)
    ensures
        crate::text::texts(folders@) == seq![
            workspace@,
            crate::paths::joined(workspace@, "assets"@),
            crate::paths::joined(workspace@, "reference"@),
            overlay_of(workspace@),
        ],
{
    let mut folders: Vec<String> = Vec::new();
    folders.push(workspace.to_owned());
    folders.push(join(workspace, "assets"));
    folders.push(join(workspace, "reference"));
    folders.push(workspace_romfs(workspace));
    assert(crate::text::texts(folders@) =~= seq![
        workspace@,
        crate::paths::joined(workspace@, "assets"@),
        crate::paths::joined(workspace@, "reference"@),
        overlay_of(workspace@),
    ]);
    folders
}

// ── Laws ─────────────────────────────────────────────────────────────────────

/// A name that is accepted for an asset is a single, visible part of a path, in small letters.
pub proof fn law_asset_names_are_safe(path: Seq<char>)
    ensures
        asset_name(path) matches Ok(name) ==> name.len() > 0 && name[0] != '.' && !name.contains('/')
            && !name.contains('\\') && crate::text::lower(name) == name,
{
    if asset_name(path) is Ok {
        let name = asset_name(path)->Ok_0;
        assert(crate::text::lower(name) =~= name);
    }
}

/// An accepted fighter name is accepted again, as it is.
pub proof fn law_fighter_names_are_stable(fighter: Seq<char>)
    ensures
        fighter_part(fighter) matches Ok(name) ==> fighter_part(name) == Ok::<
            Seq<char>,
            AssetErrorView,
        >(name),
{
    if fighter_part(fighter) is Ok {
        let name = fighter_part(fighter)->Ok_0;
        assert(crate::link::is_target_char(name[0]));
        assert(crate::link::is_target_char(name[name.len() - 1]));
        assert(crate::text::trim_start(name) == name);
        assert(crate::text::trim_end(name) == name);
        assert(crate::text::lower(name) =~= name) by {
            assert forall|i: int| 0 <= i < name.len() implies crate::text::lower_char(
                name[i],
            ) == name[i] by {
                assert(crate::link::is_target_char(name[i]));
            }
        }
    }
}

/// A plan imports no two files under one name.
pub proof fn law_imports_have_different_names(
    sources: Seq<Seq<char>>,
    destination: Seq<char>,
    area: AssetArea,
    i: int,
    j: int,
)
    ensures
        planned(sources, destination, area) matches Ok(plan) ==> (0 <= i < j < plan.len()
            ==> plan[i].name != plan[j].name) && plan.len() == sources.len(),
    decreases sources.len(),
{
    if sources.len() > 0 && planned(sources, destination, area) is Ok {
        let rest = planned(sources.drop_last(), destination, area)->Ok_0;
        law_imports_have_different_names(sources.drop_last(), destination, area, i, j);
        let plan = planned(sources, destination, area)->Ok_0;
        if 0 <= i < j < plan.len() && j == rest.len() {
            assert(rest[i].name != plan[j].name);
        }
    }
}

/// A costume slot is a `c` and the digits of its number, at least two of them.
pub proof fn law_slots_are_numbered(slot: u8)
    ensures
        slot_part(slot).len() >= 3,
        slot_part(slot)[0] == 'c',
        crate::text::is_digits(slot_part(slot).skip(1)),
        crate::text::digits_value(slot_part(slot).skip(1)) == slot,
        crate::paths::is_file_name(slot_part(slot)),
{
    crate::snapshots::lemma_decimal_digits(slot as nat);
    reveal_strlit("c0");
    reveal_strlit("c");
    reveal_strlit(".");
    reveal_strlit("..");
    let part = slot_part(slot);
    let digits = crate::text::decimal(slot as nat);
    if slot < 10 {
        assert(digits =~= seq![crate::text::digit(slot as nat)]);
        let tail = part.skip(1);
        assert(tail =~= seq!['0', digits[0]]);
        assert(tail.drop_last() =~= seq!['0']);
        assert(seq!['0'].drop_last() =~= Seq::empty());
        assert(crate::text::digits_value(seq!['0'].drop_last()) == 0);
        assert(digits.drop_last() =~= Seq::empty());
        assert(crate::text::digits_value(digits.drop_last()) == 0);
        assert(crate::text::is_digit(digits[0]));
        assert(seq!['0'].last() == '0');
        assert(crate::text::digits_value(seq!['0']) == 0);
        assert(tail.last() == digits[0]);
        assert(crate::text::digits_value(tail) == digits[0] as nat - 48);
        assert(crate::text::digits_value(digits) == digits[0] as nat - 48);
    } else {
        assert(part.skip(1) =~= digits);
        assert(crate::text::decimal((slot / 10) as nat).len() > 0) by {
            crate::snapshots::lemma_decimal_digits((slot / 10) as nat);
        }
        assert(digits.len() >= 2);
    }
    assert forall|i: int| 0 <= i < part.len() implies part[i] != '/' by {
        if i > 0 {
            assert(part.skip(1)[i - 1] == part[i]);
            assert(crate::text::is_digit(part.skip(1)[i - 1]));
        }
    }
    assert(part[0] != '.');
}

proof fn lemma_one_named(name: Seq<char>)
    requires
        crate::paths::is_file_name(name),
    ensures
        crate::paths::parts(name) == seq![name],
        !crate::paths::is_absolute(name),
{
    crate::paths::law_files_keep_their_names(Seq::empty(), name);
    let none = Seq::<char>::empty();
    assert(crate::text::split_on(none, '/') =~= seq![none]);
    let one = crate::text::split_on(none, '/');
    assert(one.last().len() == 0);
    assert(crate::paths::named(one.drop_last()) =~= Seq::empty());
    assert(crate::paths::parts(none) =~= Seq::empty());
    if crate::paths::is_absolute(name) {
        assert(name[0] == '/');
        assert(name.contains('/'));
    } else {
        crate::paths::law_joined_paths_have_the_parts_of_both(none, name);
        assert(crate::paths::parts(none) + crate::paths::parts(name) =~= crate::paths::parts(name));
        assert(crate::paths::parts(none).push(name) =~= seq![name]);
    }
}

proof fn lemma_step_down(folder: Seq<char>, name: Seq<char>)
    requires
        crate::paths::is_file_name(name),
    ensures
        crate::paths::parts(crate::paths::joined(folder, name)) == crate::paths::parts(folder).push(
            name,
        ),
{
    crate::paths::law_files_keep_their_names(folder, name);
}

proof fn lemma_fixed_names()
    ensures
        crate::paths::is_file_name("romfs"@),
        crate::paths::is_file_name("fighter"@),
        crate::paths::is_file_name("model"@),
        crate::paths::is_file_name("motion"@),
        crate::paths::is_file_name("body"@),
        crate::paths::is_file_name("swing.prc"@),
{
    reveal_strlit(".");
    reveal_strlit("..");
    reveal_strlit("romfs");
    reveal_strlit("fighter");
    reveal_strlit("model");
    reveal_strlit("motion");
    reveal_strlit("body");
    reveal_strlit("swing.prc");
    assert("romfs"@.len() == 5 && "fighter"@.len() == 7 && "model"@.len() == 5);
    assert("motion"@.len() == 6 && "body"@.len() == 4 && "swing.prc"@.len() == 9);
}

proof fn lemma_fighter_is_a_name(fighter: Seq<char>)
    requires
        is_fighter_name(fighter),
    ensures
        crate::paths::is_file_name(fighter),
{
    reveal_strlit(".");
    reveal_strlit("..");
    assert forall|i: int| 0 <= i < fighter.len() implies fighter[i] != '/' && fighter[i] != '.' by {
        assert(crate::link::is_target_char(fighter[i]));
    }
    assert(fighter[0] != '.');
}

/// The folder of a costume: `romfs/fighter/<fighter>/<area>/body/<slot>` in the workspace.
pub proof fn law_costumes_have_their_folders(
    workspace: Seq<char>,
    fighter: Seq<char>,
    area: AssetArea,
    slot: u8,
)
    requires
        is_fighter_name(fighter),
    ensures
        crate::paths::parts(slot_dir(workspace, fighter, area.part(), slot)) == crate::paths::parts(
            workspace,
        ) + seq!["romfs"@, "fighter"@, fighter, area.part(), "body"@, slot_part(slot)],
        area.part() == match area {
            AssetArea::Model => "model"@,
            AssetArea::Motion => "motion"@,
        },
{
    lemma_fixed_names();
    lemma_fighter_is_a_name(fighter);
    law_slots_are_numbered(slot);
    let a = overlay_of(workspace);
    let b = crate::paths::joined(a, "fighter"@);
    let c = crate::paths::joined(b, fighter);
    let d = crate::paths::joined(c, area.part());
    let e = crate::paths::joined(d, "body"@);
    lemma_step_down(workspace, "romfs"@);
    lemma_step_down(a, "fighter"@);
    lemma_step_down(b, fighter);
    lemma_step_down(c, area.part());
    lemma_step_down(d, "body"@);
    lemma_step_down(e, slot_part(slot));
    assert(crate::paths::parts(slot_dir(workspace, fighter, area.part(), slot))
        =~= crate::paths::parts(workspace) + seq![
        "romfs"@,
        "fighter"@,
        fighter,
        area.part(),
        "body"@,
        slot_part(slot),
    ]);
}

proof fn lemma_parted(a: Seq<char>, b: Seq<char>)
    ensures
        crate::paths::parts(a + "/"@ + b) == crate::paths::parts(a) + crate::paths::parts(b),
{
    reveal_strlit("/");
    if a.len() == 0 {
        let text = a + "/"@ + b;
        assert(text =~= a + seq!['/'] + b);
        crate::text::lemma_split_sum(a, b, '/');
        let (x, y) = (crate::text::split_on(a, '/'), crate::text::split_on(b, '/'));
        crate::paths::lemma_named_sum(x, y);
    } else {
        assert(a + "/"@ + b =~= a + seq!['/'] + b);
        crate::text::lemma_split_sum(a, b, '/');
        crate::paths::lemma_named_sum(
            crate::text::split_on(a, '/'),
            crate::text::split_on(b, '/'),
        );
    }
}

/// The game path of a costume's file: `fighter/<fighter>/<area>/body/<slot>/<file>`, which is just
/// where the file stands below the workspace's overlay.
pub proof fn law_game_paths_mirror_the_overlay(
    workspace: Seq<char>,
    fighter: Seq<char>,
    area: AssetArea,
    slot: u8,
    file: Seq<char>,
)
    requires
        is_fighter_name(fighter),
        crate::paths::is_file_name(file),
    ensures
        crate::paths::parts(game_path(fighter, area.part(), slot, file)) == seq![
            "fighter"@,
            fighter,
            area.part(),
            "body"@,
            slot_part(slot),
            file,
        ],
        crate::paths::parts(
            crate::paths::joined(overlay_of(workspace), game_path(fighter, area.part(), slot, file)),
        ) == crate::paths::parts(
            crate::paths::joined(slot_dir(workspace, fighter, area.part(), slot), file),
        ),
{
    lemma_fixed_names();
    lemma_fighter_is_a_name(fighter);
    law_slots_are_numbered(slot);
    let path = game_path(fighter, area.part(), slot, file);
    lemma_one_named("fighter"@);
    lemma_one_named(fighter);
    lemma_one_named(area.part());
    lemma_one_named("body"@);
    lemma_one_named(slot_part(slot));
    lemma_one_named(file);
    reveal_strlit("/");
    assert("fighter/"@ =~= "fighter"@ + "/"@) by {
        reveal_strlit("fighter/");
        reveal_strlit("fighter");
    }
    assert("/body/"@ =~= "/"@ + "body"@ + "/"@) by {
        reveal_strlit("/body/");
        reveal_strlit("body");
    }
    let p1 = "fighter"@ + "/"@ + fighter;
    let p2 = p1 + "/"@ + area.part();
    let p3 = p2 + "/"@ + "body"@;
    let p4 = p3 + "/"@ + slot_part(slot);
    let p5 = p4 + "/"@ + file;
    assert(p2 + "/body/"@ =~= p3 + "/"@);
    assert(path == p2 + "/body/"@ + slot_part(slot) + "/"@ + file);
    lemma_parted("fighter"@, fighter);
    lemma_parted(p1, area.part());
    lemma_parted(p2, "body"@);
    lemma_parted(p3, slot_part(slot));
    lemma_parted(p4, file);
    assert(crate::paths::parts(path) =~= seq![
        "fighter"@,
        fighter,
        area.part(),
        "body"@,
        slot_part(slot),
        file,
    ]);
    assert(!crate::paths::is_absolute(path)) by {
        reveal_strlit("fighter");
        assert(path[0] == 'f');
    }
    crate::paths::law_joined_paths_have_the_parts_of_both(overlay_of(workspace), path);
    law_costumes_have_their_folders(workspace, fighter, area, slot);
    lemma_step_down(workspace, "romfs"@);
    lemma_step_down(slot_dir(workspace, fighter, area.part(), slot), file);
    assert(crate::paths::parts(crate::paths::joined(overlay_of(workspace), path))
        =~= crate::paths::parts(
        crate::paths::joined(slot_dir(workspace, fighter, area.part(), slot), file),
    ));
}

/// Each source of an import comes out in its place: under its own name in small letters, in the
/// folder it is imported to.
pub proof fn law_imports_keep_their_sources(
    sources: Seq<Seq<char>>,
    destination: Seq<char>,
    area: AssetArea,
    i: int,
)
    requires
        planned(sources, destination, area) is Ok,
        0 <= i < sources.len(),
    ensures
        ({
            let plan = planned(sources, destination, area)->Ok_0;
            &&& plan.len() == sources.len()
            &&& plan[i].source == sources[i]
            &&& crate::paths::name_of(sources[i]) is Some
            &&& plan[i].name == crate::text::lower(crate::paths::name_of(sources[i])->Some_0)
            &&& plan[i].output == crate::paths::joined(destination, plan[i].name)
            &&& is_importable(sources[i], area)
        }),
    decreases sources.len(),
{
    let rest = sources.drop_last();
    law_imports_have_different_names(sources, destination, area, 0, 0);
    law_imports_have_different_names(rest, destination, area, 0, 0);
    if i < sources.len() - 1 {
        law_imports_keep_their_sources(rest, destination, area, i);
        assert(rest[i] == sources[i]);
    }
}

/// An import is refused only for a reason: a source of the wrong kind, one without a usable name,
/// or two whose names are the same in small letters.
pub proof fn law_fit_sources_are_imported(
    sources: Seq<Seq<char>>,
    destination: Seq<char>,
    area: AssetArea,
)
    requires
        forall|i: int|
            0 <= i < sources.len() ==> is_importable(#[trigger] sources[i], area) && asset_name(
                sources[i],
            ) is Ok,
        forall|i: int, j: int|
            0 <= i < j < sources.len() ==> asset_name(#[trigger] sources[i]) != asset_name(
                #[trigger] sources[j],
            ),
    ensures
        planned(sources, destination, area) is Ok,
    decreases sources.len(),
{
    if sources.len() > 0 {
        let rest = sources.drop_last();
        let n = sources.len() - 1;
        assert forall|i: int| 0 <= i < rest.len() implies is_importable(#[trigger] rest[i], area)
            && asset_name(rest[i]) is Ok by {
            assert(rest[i] == sources[i]);
        }
        assert forall|i: int, j: int| 0 <= i < j < rest.len() implies asset_name(
            #[trigger] rest[i],
        ) != asset_name(#[trigger] rest[j]) by {
            assert(rest[i] == sources[i] && rest[j] == sources[j]);
        }
        law_fit_sources_are_imported(rest, destination, area);
        let plan = planned(rest, destination, area)->Ok_0;
        let name = asset_name(sources[n])->Ok_0;
        law_imports_have_different_names(rest, destination, area, 0, 0);
        assert(is_importable(sources[n], area));
        if plans_name(plan, name) {
            let k = choose|k: int| 0 <= k < plan.len() && (#[trigger] plan[k]).name == name;
            law_imports_keep_their_sources(rest, destination, area, k);
            assert(rest[k] == sources[k]);
            assert(asset_name(sources[k]) == Ok::<Seq<char>, AssetErrorView>(plan[k].name));
            assert(asset_name(sources[k]) != asset_name(sources[n]));
        }
    }
}

/// The files of a costume's folder that are shown are those of the right kind, in the order of the
/// listing, each with its own path and with its own name in the game path.
pub proof fn law_shown_files_stand_for_their_entries(
    entries: Seq<ListedView>,
    fighter: Seq<char>,
    slot: u8,
    area: AssetArea,
) -> (positions: Seq<int>)
    requires
        shown_files(entries, fighter, slot, area) is Ok,
    ensures
        crate::selection::are_wanted_positions(
            positions,
            entries,
            |e: ListedView| e.is_file && !e.is_symlink && is_shown(e.path, area),
        ),
        shown_files(entries, fighter, slot, area)->Ok_0.len() == positions.len(),
        forall|k: int|
            0 <= k < positions.len() ==> {
                let file = #[trigger] shown_files(entries, fighter, slot, area)->Ok_0[k];
                let path = entries[positions[k]].path;
                &&& file.workspace_path == path
                &&& crate::paths::name_of(path) is Some
                &&& file.game_path == game_path(
                    fighter,
                    area.part(),
                    slot,
                    crate::text::lower(crate::paths::name_of(path)->Some_0),
                )
            },
    decreases entries.len(),
{
    let wanted = |e: ListedView| e.is_file && !e.is_symlink && is_shown(e.path, area);
    let files = shown_files(entries, fighter, slot, area)->Ok_0;
    if entries.len() == 0 {
        Seq::empty()
    } else {
        let rest = entries.drop_last();
        let before = shown_files(rest, fighter, slot, area)->Ok_0;
        let at = law_shown_files_stand_for_their_entries(rest, fighter, slot, area);
        let n = entries.len() - 1;
        let positions = if wanted(entries[n]) {
            at.push(n)
        } else {
            at
        };
        assert forall|k: int| 0 <= k < positions.len() implies 0 <= (#[trigger] positions[k])
            < entries.len() && wanted(entries[positions[k]]) by {
            if k < at.len() {
                assert(positions[k] == at[k]);
                assert(rest[at[k]] == entries[at[k]]);
            }
        }
        assert forall|j: int, k: int| 0 <= j < k < positions.len() implies (#[trigger] positions[j])
            < (#[trigger] positions[k]) by {
            assert(positions[j] == at[j]);
            if k < at.len() {
                assert(positions[k] == at[k]);
            }
        }
        assert forall|i: int| 0 <= i < entries.len() && wanted(
            #[trigger] entries[i],
        ) implies positions.contains(i) by {
            if i < n {
                assert(rest[i] == entries[i]);
                let k = at.index_of(i);
                assert(at[k] == i);
                assert(positions[k] == i);
            } else {
                assert(positions[positions.len() - 1] == i);
            }
        }
        assert forall|k: int| 0 <= k < positions.len() implies ({
            let file = #[trigger] files[k];
            let path = entries[positions[k]].path;
            &&& file.workspace_path == path
            &&& crate::paths::name_of(path) is Some
            &&& file.game_path == game_path(
                fighter,
                area.part(),
                slot,
                crate::text::lower(crate::paths::name_of(path)->Some_0),
            )
        }) by {
            if k < at.len() {
                assert(files[k] == before[k]);
                assert(positions[k] == at[k]);
                assert(rest[at[k]] == entries[at[k]]);
            }
        }
        positions
    }
}

/// Every file of a folder that can go into a preview is found under its name in small letters, and
/// nothing else is.
pub proof fn law_collected_files_are_those_of_the_folder(
    entries: Seq<ListedView>,
    area: AssetArea,
    name: Seq<char>,
)
    requires
        collected(entries, area) is Ok,
    ensures
        ({
            let files = collected(entries, area)->Ok_0;
            &&& files.contains_key(name) ==> exists|i: int|
                0 <= i < entries.len() && #[trigger] goes_into_preview(entries[i], area, name)
                    && files[name] == (SourceView { path: entries[i].path, len: entries[i].len })
            &&& forall|i: int|
                0 <= i < entries.len() && #[trigger] goes_into_preview(entries[i], area, name)
                    ==> files.contains_key(name) && files[name].path == entries[i].path
        }),
    decreases entries.len(),
{
    if entries.len() > 0 {
        let rest = entries.drop_last();
        let n = entries.len() - 1;
        law_collected_files_are_those_of_the_folder(rest, area, name);
        let files = collected(entries, area)->Ok_0;
        let before = collected(rest, area)->Ok_0;
        assert forall|i: int| 0 <= i < n implies rest[i] == #[trigger] entries[i] by {}
        if files.contains_key(name) {
            if before.contains_key(name) {
                let i = choose|i: int|
                    0 <= i < rest.len() && #[trigger] goes_into_preview(rest[i], area, name)
                        && before[name] == (SourceView { path: rest[i].path, len: rest[i].len });
                assert(goes_into_preview(entries[i], area, name));
            } else {
                assert(goes_into_preview(entries[n], area, name));
            }
        }
        assert forall|i: int|
            0 <= i < entries.len() && #[trigger] goes_into_preview(
                entries[i],
                area,
                name,
            ) implies files.contains_key(name) && files[name].path == entries[i].path by {
            if i < n {
                assert(goes_into_preview(rest[i], area, name));
            }
        }
    }
}

/// The entry is a file for a preview that goes by this name.
pub open spec fn goes_into_preview(entry: ListedView, area: AssetArea, name: Seq<char>) -> bool {
    entry.is_file && !entry.is_symlink && is_previewed(entry.path, area) && crate::paths::name_of(
        entry.path,
    ) is Some && crate::text::lower(crate::paths::name_of(entry.path)->Some_0) == name
}

/// The files of a folder that belong to a model are picked in the order of the listing.
pub proof fn law_model_folders_are_imported_whole(entries: Seq<ListedView>)
    ensures
        exists|positions: Seq<int>|
            #![trigger crate::selection::are_wanted_positions(positions, entries, belongs_to_model())]
            crate::selection::are_wanted_positions(positions, entries, belongs_to_model())
                && model_paths(entries).len() == positions.len() && forall|k: int|
                0 <= k < positions.len() ==> #[trigger] model_paths(entries)[k]
                    == entries[positions[k]].path,
    decreases entries.len(),
{
    let picked = lemma_model_entries(entries);
    let positions = choose|positions: Seq<int>|
        #![trigger crate::selection::are_wanted_positions(positions, entries, belongs_to_model())]
        crate::selection::are_wanted_positions(positions, entries, belongs_to_model())
            && picked.len() == positions.len() && forall|k: int|
            0 <= k < picked.len() ==> #[trigger] picked[k] == entries[positions[k]];
    assert forall|k: int| 0 <= k < positions.len() implies #[trigger] model_paths(entries)[k]
        == entries[positions[k]].path by {
        assert(picked[k] == entries[positions[k]]);
    }
}

/// The entry is a regular file of a model.
pub open spec fn belongs_to_model() -> spec_fn(ListedView) -> bool {
    |e: ListedView| e.is_file && !e.is_symlink && is_model_extension(small_extension(e.path))
}

proof fn lemma_model_entries(entries: Seq<ListedView>) -> (picked: Seq<ListedView>)
    ensures
        crate::selection::keeps_just(picked, entries, belongs_to_model()),
        model_paths(entries).len() == picked.len(),
        forall|k: int| 0 <= k < picked.len() ==> #[trigger] model_paths(entries)[k] == picked[k].path,
    decreases entries.len(),
{
    if entries.len() == 0 {
        crate::selection::lemma_nothing(entries, belongs_to_model());
        Seq::empty()
    } else {
        let rest = entries.drop_last();
        let before = lemma_model_entries(rest);
        crate::selection::lemma_one_more(before, rest, belongs_to_model(), entries.last());
        assert(rest.push(entries.last()) =~= entries);
        if belongs_to_model()(entries.last()) {
            before.push(entries.last())
        } else {
            before
        }
    }
}

/// What is shown of a costume: in its motion folder every animation, the swing parameters and the
/// motion list; in its model folder every model file. All of that can go into a preview too, and
/// so can the other two parameter files.
pub proof fn law_shown_kinds(path: Seq<char>, name: Seq<char>)
    requires
        crate::paths::name_of(path) == Some(name),
    ensures
        ({
            let small = crate::text::lower(name);
            let end = crate::text::lower(crate::paths::extension_of(path));
            &&& is_shown(path, AssetArea::Motion) == (end == "nuanmb"@ || small == "swing.prc"@
                || small == "motion_list.bin"@)
            &&& is_previewed(path, AssetArea::Motion) == (is_shown(path, AssetArea::Motion) || small
                == "swingblend.prc"@ || small == "ik.prc"@)
            &&& is_shown(path, AssetArea::Model) == is_previewed(path, AssetArea::Model)
            &&& is_shown(path, AssetArea::Model) == is_importable(path, AssetArea::Model)
            &&& is_importable(path, AssetArea::Motion) == (end == "nuanmb"@)
        }),
{
}

/// Every kind of file that makes up the model of a preview is a model file, and so are textures,
/// lights and stages.
pub proof fn law_model_kinds(end: Seq<char>)
    ensures
        is_model_extension(end) <==> seq![
            "xmb"@,
            "nusktb"@,
            "numdlb"@,
            "numshb"@,
            "nuanmb"@,
            "numatb"@,
            "nuhlpb"@,
            "numshexb"@,
            "nusrcmdlb"@,
            "nutexb"@,
            "adjb"@,
            "lvd"@,
        ].contains(end),
{
    let kinds = seq![
        "xmb"@,
        "nusktb"@,
        "numdlb"@,
        "numshb"@,
        "nuanmb"@,
        "numatb"@,
        "nuhlpb"@,
        "numshexb"@,
        "nusrcmdlb"@,
        "nutexb"@,
        "adjb"@,
        "lvd"@,
    ];
    assert(kinds[0] == "xmb"@ && kinds[1] == "nusktb"@ && kinds[2] == "numdlb"@);
    assert(kinds[3] == "numshb"@ && kinds[4] == "nuanmb"@ && kinds[5] == "numatb"@);
    assert(kinds[6] == "nuhlpb"@ && kinds[7] == "numshexb"@ && kinds[8] == "nusrcmdlb"@);
    assert(kinds[9] == "nutexb"@ && kinds[10] == "adjb"@ && kinds[11] == "lvd"@);
}

/// Where things live: what is supported in the project file or under `assets/`, what ships as it is
/// under `romfs/`, and what is for reading only under `reference/`. No kind is listed twice.
pub proof fn law_map_says_where_things_live(i: int, j: int)
    requires
        0 <= i < j < 12,
    ensures
        edit_kinds().len() == 12,
        edit_kinds()[i].kind != edit_kinds()[j].kind,
        lives_in_its_place(edit_kinds()[i]),
        lives_in_its_place(edit_kinds()[j]),
{
    reveal_strlit("Fighter moves (ACMD)");
    reveal_strlit("Fighter params");
    reveal_strlit("Roster order / visibility / row fields");
    reveal_strlit("Display names");
    reveal_strlit("Portraits / stock icons");
    reveal_strlit("Effect textures");
    reveal_strlit("Source reference");
    reveal_strlit("Models");
    reveal_strlit("Animations");
    reveal_strlit("Sound / streams");
    reveal_strlit("Binary effects / messages");
    reveal_strlit("Compiled plugins");
    lemma_lives(i);
    lemma_lives(j);
    let kinds = Seq::new(12, |k: int| (edit_kinds()[k].kind.len(), edit_kinds()[k].kind[0]));
    assert(kinds[0] == (20nat, 'F') && kinds[1] == (14nat, 'F') && kinds[2] == (38nat, 'R'));
    assert(kinds[3] == (13nat, 'D') && kinds[4] == (23nat, 'P') && kinds[5] == (15nat, 'E'));
    assert(kinds[6] == (16nat, 'S') && kinds[7] == (6nat, 'M') && kinds[8] == (10nat, 'A'));
    assert(kinds[9] == (15nat, 'S') && kinds[10] == (25nat, 'B') && kinds[11] == (16nat, 'C'));
    assert(kinds[i] != kinds[j]);
}

/// The place where a kind of edit is kept goes with how it is supported.
pub open spec fn lives_in_its_place(entry: EntryView) -> bool {
    match entry.support {
        WorkspaceSupport::Supported => entry.workspace_path == "modproject.json"@
            || crate::text::starts_with(entry.workspace_path, "assets/"@),
        WorkspaceSupport::Manual => crate::text::starts_with(entry.workspace_path, "romfs/"@),
        WorkspaceSupport::Reference => entry.workspace_path == "reference/..."@,
    }
}

proof fn lemma_lives(i: int)
    requires
        0 <= i < 12,
    ensures
        edit_kinds().len() == 12,
        lives_in_its_place(edit_kinds()[i]),
{
    reveal_strlit("assets/");
    reveal_strlit("assets/roster_ui/...");
    reveal_strlit("assets/textures/...");
    reveal_strlit("romfs/");
    reveal_strlit("romfs/fighter/<fighter>/model/...");
    reveal_strlit("romfs/fighter/<fighter>/motion/...");
    reveal_strlit("romfs/sound/...");
    reveal_strlit("romfs/effect/... · romfs/ui/message/...");
    let path = edit_kinds()[i].workspace_path;
    if edit_kinds()[i].support == WorkspaceSupport::Manual {
        assert(path.take(6) =~= "romfs/"@);
    } else if i == 4 || i == 5 {
        assert(path.take(7) =~= "assets/"@);
    }
}

} // verus!
