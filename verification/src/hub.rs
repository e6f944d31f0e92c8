//! The project hub: the current project, the choices at a cold start, and the list of recent
//! projects.
use crate::paths::{join, same_path};
use crate::text::{copy_texts, split, trimmed};
use vstd::prelude::*;

verus! {

/// How many recent projects are remembered.
pub const MAX_RECENT_PROJECTS: usize = 10;

/// The config file that holds the path of the last project.
pub const LAST_PROJECT_KEY: &'static str = "project_path";

/// The config file that holds the paths of recent projects, one per line.
pub const RECENT_PROJECTS_KEY: &'static str = "recent_projects";

// ── The current project ──────────────────────────────────────────────────────

/// The one project that holds every edit.
#[derive(Debug, Clone)]
pub struct CurrentProject {
    /// Where a save goes without asking; none before the first save.
    pub path: Option<String>,
    /// Some edit came after the last save or load.
    pub dirty: bool,
    /// The name that is shown.
    pub name: String,
}

impl Default for CurrentProject {
    fn default() -> (project: Self)
        ensures
            project.path is None,
            !project.dirty,
            project.name@.len() == 0,
    {
        CurrentProject { path: None, dirty: false, name: String::new() }
    }
}

impl CurrentProject {
    /// A project that was never saved.
    pub fn new() -> (project: Self)
        ensures
            project.path is None,
            !project.dirty,
            project.name@.len() == 0,
    {
        CurrentProject::default()
    }

    /// A project that stands at `path`.
    pub fn with_path(path: String, name: String) -> (project: Self)
        ensures
            project == (CurrentProject { path: Some(path), dirty: false, name }),
    {
        CurrentProject { path: Some(path), dirty: false, name }
    }

    pub fn has_path(&self) -> (b: bool)
        ensures
            b == self.path is Some,
    {
        self.path.is_some()
    }

    pub fn is_dirty(&self) -> (b: bool)
        ensures
            b == self.dirty,
    {
        self.dirty
    }

    /// An edit has been made.
    pub fn mark_dirty(&mut self)
        ensures
            *final(self) == (CurrentProject { dirty: true, ..*old(self) }),
    {
        self.dirty = true;
    }

    /// The project has been saved at `path`.
    pub fn mark_saved(&mut self, path: String)
        ensures
            *final(self) == (CurrentProject { path: Some(path), dirty: false, ..*old(self) }),
    {
        self.path = Some(path);
        self.dirty = false;
    }

    /// Another project takes the place of this one.
    pub fn mark_loaded(&mut self, path: Option<String>, name: String)
        ensures
            *final(self) == (CurrentProject { path, dirty: false, name }),
    {
        self.path = path;
        self.name = name;
        self.dirty = false;
    }

    pub fn mark_clean(&mut self)
        ensures
            *final(self) == (CurrentProject { dirty: false, ..*old(self) }),
    {
        self.dirty = false;
    }

    /// Whether a save has to ask where to.
    pub fn needs_save_as(&self) -> (b: bool)
        ensures
            b == self.path is None,
    {
        self.path.is_none()
    }

    /// Whether leaving the project has to warn.
    pub fn needs_warning(&self) -> (b: bool)
        ensures
            b == self.dirty,
    {
        self.dirty
    }
}

// ── What the hub does ────────────────────────────────────────────────────────

/// A thing the hub can do.
#[derive(Debug, Clone, PartialEq, Eq)]
pub enum HubAction {
    /// Open the last project again.
    ResumeLast(String),
    /// Start an empty project in this folder.
    New(String),
    /// Open a project file.
    Open(String),
    /// Import a compiled mod folder as a project.
    ImportMod(String),
    /// Open one of the recent projects.
    OpenRecent(String),
    /// Go on without a project.
    BrowseWithoutProject,
}

impl HubAction {
    /// The action replaces the edits in memory.
    pub open spec fn replaces_edits(&self) -> bool {
        !(self is BrowseWithoutProject)
    }

    /// Whether the action replaces the edits in memory.
    pub fn discards_edits(&self) -> (b: bool)
        ensures
            b == self.replaces_edits(),
    {
        match self {
            HubAction::BrowseWithoutProject => false,
            _ => true,
        }
    }

    /// The text shown for the action.
    pub fn label(&self) -> (label: String)
        ensures
            label@ == match *self {
                HubAction::ResumeLast(path) => "Resume "@ + path@,
                HubAction::New(path) => "New project at "@ + path@,
                HubAction::Open(path) => "Open "@ + path@,
                HubAction::ImportMod(path) => "Import "@ + path@,
                HubAction::OpenRecent(path) => "Open "@ + path@,
                HubAction::BrowseWithoutProject => "Browse without project"@,
            },
    {
        match self {
            HubAction::ResumeLast(path) => labelled("Resume ", path.as_str()),
            HubAction::New(path) => labelled("New project at ", path.as_str()),
            HubAction::Open(path) => labelled("Open ", path.as_str()),
            HubAction::ImportMod(path) => labelled("Import ", path.as_str()),
            HubAction::OpenRecent(path) => labelled("Open ", path.as_str()),
            HubAction::BrowseWithoutProject => "Browse without project".to_owned(),
        }
    }
}

fn labelled(word: &str, path: &str) -> (label: String)
    ensures
        label@ == word@ + path@,
{
    let mut label = word.to_owned();
    label.append(path);
    label
}

/// Whether the action has to warn first.
pub fn needs_hub_warning(dirty: bool, action: &HubAction) -> (b: bool)
    ensures
        b == (dirty && action.replaces_edits()),
{
    dirty && action.discards_edits()
}

// ── The choices at a cold start ──────────────────────────────────────────────

/// One row of the hub. `Open` and `ImportMod` ask for a path.
#[derive(Debug, Clone, PartialEq, Eq)]
pub enum HubChoice {
    ResumeLast(String),
    New,
    Open,
    ImportMod,
    Recent(String),
    BrowseWithoutProject,
}

#[verifier::ext_equal]
pub enum ChoiceView {
    ResumeLast(Seq<char>),
    New,
    Open,
    ImportMod,
    Recent(Seq<char>),
    BrowseWithoutProject,
}

impl View for HubChoice {
    type V = ChoiceView;

    open spec fn view(&self) -> ChoiceView {
        match *self {
            HubChoice::ResumeLast(path) => ChoiceView::ResumeLast(path@),
            HubChoice::New => ChoiceView::New,
            HubChoice::Open => ChoiceView::Open,
            HubChoice::ImportMod => ChoiceView::ImportMod,
            HubChoice::Recent(path) => ChoiceView::Recent(path@),
            HubChoice::BrowseWithoutProject => ChoiceView::BrowseWithoutProject,
        }
    }
}

impl HubChoice {
    /// The title of the row.
    pub fn title(&self) -> (title: &'static str)
        ensures
            title@ == match *self {
                HubChoice::ResumeLast(_) => "Resume last"@,
                HubChoice::New => "New"@,
                HubChoice::Open => "Open"@,
                HubChoice::ImportMod => "Import mod"@,
                HubChoice::Recent(_) => "Recent"@,
                HubChoice::BrowseWithoutProject => "Browse without project"@,
            },
    {
        match self {
            HubChoice::ResumeLast(_) => "Resume last",
            HubChoice::New => "New",
            HubChoice::Open => "Open",
            HubChoice::ImportMod => "Import mod",
            HubChoice::Recent(_) => "Recent",
            HubChoice::BrowseWithoutProject => "Browse without project",
        }
    }
}

/// What the hub shows.
#[derive(Debug, Clone)]
pub struct HubState {
    pub show: bool,
    /// The last project, if its file still exists.
    pub last: Option<String>,
    /// The recent projects whose files still exist, the latest first.
    pub recent: Vec<String>,
}

/// The paths that do not name the same place as `path`, in order.
pub open spec fn others(paths: Seq<Seq<char>>, path: Seq<char>) -> Seq<Seq<char>>
    decreases paths.len(),
{
    if paths.len() == 0 {
        paths
    } else if crate::paths::same_place(paths.last(), path) {
        others(paths.drop_last(), path)
    } else {
        others(paths.drop_last(), path).push(paths.last())
    }
}

/// The recent paths that are listed: all but the last project, which has a row of its own.
pub open spec fn listed(recent: Seq<Seq<char>>, last: Option<Seq<char>>) -> Seq<Seq<char>> {
    match last {
        Some(path) => others(recent, path),
        None => recent,
    }
}

/// The rows of the hub, in order.
pub open spec fn rows(last: Option<Seq<char>>, recent: Seq<Seq<char>>) -> Seq<ChoiceView> {
    let resume = match last {
        Some(path) => seq![ChoiceView::ResumeLast(path)],
        None => Seq::empty(),
    };
    let shown = listed(recent, last);
    resume + seq![ChoiceView::New, ChoiceView::Open, ChoiceView::ImportMod] + Seq::new(
        shown.len(),
        |i: int| ChoiceView::Recent(shown[i]),
    ) + seq![ChoiceView::BrowseWithoutProject]
}

/// The paths whose flag is set, in order.
pub open spec fn existing(paths: Seq<Seq<char>>, exists_flags: Seq<bool>) -> Seq<Seq<char>>
    decreases paths.len(),
{
    if paths.len() == 0 {
        paths
    } else if exists_flags[paths.len() - 1] {
        existing(paths.drop_last(), exists_flags).push(paths.last())
    } else {
        existing(paths.drop_last(), exists_flags)
    }
}

/// The views of a list of rows.
pub open spec fn choice_views(list: Seq<HubChoice>) -> Seq<ChoiceView> {
    Seq::new(list.len(), |i: int| list[i]@)
}

/// The paths of `paths` that do not name the same place as `path`.
fn other_paths(paths: &Vec<String>, path: &str) -> (list: Vec<String>)
    ensures
        crate::text::texts(list@) == others(crate::text::texts(paths@), path@),
{
    let ghost all = crate::text::texts(paths@);
    let mut list: Vec<String> = Vec::new();
    let mut i: usize = 0;
    assert(all.take(0).len() == 0);
    assert(crate::text::texts(list@) =~= others(all.take(0), path@));
    while i < paths.len()
        invariant
            i <= paths@.len(),
            all == crate::text::texts(paths@),
            crate::text::texts(list@) == others(all.take(i as int), path@),
        decreases paths@.len() - i,
    {
        proof {
            assert(all.take(i + 1).drop_last() =~= all.take(i as int));
            assert(all.take(i + 1).last() == paths@[i as int]@);
        }
        if !same_path(paths[i].as_str(), path) {
            let ghost before = crate::text::texts(list@);
            list.push(paths[i].clone());
            assert(crate::text::texts(list@) =~= before.push(paths@[i as int]@));
        }
        i += 1;
    }
    assert(all.take(i as int) =~= all);
    list
}

impl HubState {
    /// The hub as it opens: `last` and `recent` are what the config holds, and the flags say
    /// which of the files exist.
    pub fn cold_start(
        last: Option<String>,
        last_exists: bool,
        recent: Vec<String>,
        recent_exists: &Vec<bool>,
    ) -> (state: Self)
        requires
            recent@.len() == recent_exists@.len(),
        ensures
            state.show,
            crate::events::optional_text(state.last) == if last_exists {
                crate::events::optional_text(last)
            } else {
                None
            },
            crate::text::texts(state.recent@) == existing(
                crate::text::texts(recent@),
                recent_exists@,
            ),
    {
        let ghost all = crate::text::texts(recent@);
        let mut kept: Vec<String> = Vec::new();
        let mut i: usize = 0;
        assert(all.take(0).len() == 0);
        assert(crate::text::texts(kept@) =~= existing(all.take(0), recent_exists@));
        while i < recent.len()
            invariant
                i <= recent@.len(),
                recent@.len() == recent_exists@.len(),
                all == crate::text::texts(recent@),
                crate::text::texts(kept@) == existing(all.take(i as int), recent_exists@),
            decreases recent@.len() - i,
        {
            proof {
                assert(all.take(i + 1).drop_last() =~= all.take(i as int));
                assert(all.take(i + 1).last() == recent@[i as int]@);
            }
            if recent_exists[i] {
                let ghost before = crate::text::texts(kept@);
                kept.push(recent[i].clone());
                assert(crate::text::texts(kept@) =~= before.push(recent@[i as int]@));
            }
            i += 1;
        }
        assert(all.take(i as int) =~= all);
        HubState {
            show: true,
            last: if last_exists {
                last
            } else {
                None
            },
            recent: kept,
        }
    }

    /// The rows to show.
    pub fn choices(&self) -> (list: Vec<HubChoice>)
        ensures
            choice_views(list@) == rows(
                crate::events::optional_text(self.last),
                crate::text::texts(self.recent@),
            ),
    {
        let mut list: Vec<HubChoice> = Vec::new();
        let ghost last = crate::events::optional_text(self.last);
        let shown = match &self.last {
            Some(path) => {
                list.push(HubChoice::ResumeLast(path.clone()));
                other_paths(&self.recent, path.as_str())
            },
            None => copy_texts(&self.recent),
        };
        let ghost paths = listed(crate::text::texts(self.recent@), last);
        list.push(HubChoice::New);
        list.push(HubChoice::Open);
        list.push(HubChoice::ImportMod);
        let ghost head = choice_views(list@);
        proof {
            let resume = match last {
                Some(path) => seq![ChoiceView::ResumeLast(path)],
                None => Seq::<ChoiceView>::empty(),
            };
            assert(head =~= resume + seq![ChoiceView::New, ChoiceView::Open, ChoiceView::ImportMod]);
        }
        let mut i: usize = 0;
        assert(head + Seq::new(0, |j: int| ChoiceView::Recent(paths[j])) =~= head);
        while i < shown.len()
            invariant
                i <= shown@.len(),
                paths == crate::text::texts(shown@),
                choice_views(list@) == head + Seq::new(
                    i as nat,
                    |j: int| ChoiceView::Recent(paths[j]),
                ),
            decreases shown@.len() - i,
        {
            let ghost before = choice_views(list@);
            list.push(HubChoice::Recent(shown[i].clone()));
            proof {
                assert(choice_views(list@) =~= before.push(ChoiceView::Recent(paths[i as int])));
                assert(choice_views(list@) =~= head + Seq::new(
                    (i + 1) as nat,
                    |j: int| ChoiceView::Recent(paths[j]),
                ));
            }
            i += 1;
        }
        let ghost before = choice_views(list@);
        list.push(HubChoice::BrowseWithoutProject);
        assert(choice_views(list@) =~= before.push(ChoiceView::BrowseWithoutProject));
        assert(choice_views(list@) =~= rows(last, crate::text::texts(self.recent@)));
        list
    }
}

// ── What the config holds ────────────────────────────────────────────────────

/// Where the path of the last project is kept.
pub fn last_path(config_dir: &str) -> (path: String)
    ensures
        path@ == crate::paths::joined(config_dir@, LAST_PROJECT_KEY@),
{
    join(config_dir, LAST_PROJECT_KEY)
}

/// Where the paths of recent projects are kept.
pub fn recent_path(config_dir: &str) -> (path: String)
    ensures
        path@ == crate::paths::joined(config_dir@, RECENT_PROJECTS_KEY@),
{
    join(config_dir, RECENT_PROJECTS_KEY)
}

/// The last project, from the text of its config file.
pub fn load_last_project(body: &str) -> (path: Option<String>)
    ensures
        crate::events::optional_text(path) == if crate::text::trim(body@).len() == 0 {
            None
        } else {
            Some(crate::text::trim(body@))
        },
{
    let path = trimmed(body);
    if path.as_str().is_empty() {
        None
    } else {
        Some(path)
    }
}

/// The lines without the white space around them, and without those that are empty then.
pub open spec fn filled(lines: Seq<Seq<char>>) -> Seq<Seq<char>>
    decreases lines.len(),
{
    if lines.len() == 0 {
        lines
    } else if crate::text::trim(lines.last()).len() == 0 {
        filled(lines.drop_last())
    } else {
        filled(lines.drop_last()).push(crate::text::trim(lines.last()))
    }
}

/// The recent projects that a text holds.
pub open spec fn recent_in(body: Seq<char>) -> Seq<Seq<char>> {
    filled(crate::text::split_on(body, '\n'))
}

/// The texts as lines.
pub open spec fn as_lines(list: Seq<Seq<char>>) -> Seq<char>
    decreases list.len(),
{
    if list.len() == 0 {
        Seq::empty()
    } else if list.len() == 1 {
        list[0]
    } else {
        as_lines(list.drop_last()).push('\n') + list.last()
    }
}

/// A project leads the recent ones, which hold it once, and no more than the limit.
pub open spec fn pushed(recent: Seq<Seq<char>>, path: Seq<char>) -> Seq<Seq<char>> {
    let all = seq![path] + others(recent, path);
    if all.len() > MAX_RECENT_PROJECTS {
        all.take(MAX_RECENT_PROJECTS as int)
    } else {
        all
    }
}

/// The recent projects, from the text of their config file.
pub fn load_recent_projects(body: &str) -> (list: Vec<String>)
    ensures
        crate::text::texts(list@) == recent_in(body@),
{
    let lines = split(body, '\n');
    let ghost all = crate::text::texts(lines@);
    let mut list: Vec<String> = Vec::new();
    let mut i: usize = 0;
    assert(all.take(0).len() == 0);
    assert(crate::text::texts(list@) =~= filled(all.take(0)));
    while i < lines.len()
        invariant
            i <= lines@.len(),
            all == crate::text::texts(lines@),
            crate::text::texts(list@) == filled(all.take(i as int)),
        decreases lines@.len() - i,
    {
        proof {
            assert(all.take(i + 1).drop_last() =~= all.take(i as int));
            assert(all.take(i + 1).last() == lines@[i as int]@);
        }
        let line = trimmed(lines[i].as_str());
        if !line.as_str().is_empty() {
            let ghost before = crate::text::texts(list@);
            list.push(line);
            assert(crate::text::texts(list@) =~= before.push(line@));
        }
        i += 1;
    }
    assert(all.take(i as int) =~= all);
    list
}

/// The text of the config file for these recent projects.
pub fn save_recent_projects(recent: &Vec<String>) -> (body: String)
    ensures
        body@ == as_lines(crate::text::texts(recent@)),
{
    let ghost all = crate::text::texts(recent@);
    let mut body = String::new();
    let mut i: usize = 0;
    assert(all.take(0).len() == 0);
    while i < recent.len()
        invariant
            i <= recent@.len(),
            all == crate::text::texts(recent@),
            body@ == as_lines(all.take(i as int)),
        decreases recent@.len() - i,
    {
        let ghost now = all.take(i + 1);
        proof {
            assert(now.drop_last() =~= all.take(i as int));
            assert(now.last() == recent@[i as int]@);
        }
        if i > 0 {
            body.push('\n');
        }
        let ghost before = body@;
        body.append(recent[i].as_str());
        proof {
            if i == 0 {
                assert(before + recent@[0]@ =~= recent@[0]@);
            }
        }
        i += 1;
    }
    assert(all.take(i as int) =~= all);
    body
}

/// The recent projects once `path` has been opened or saved, from the text of their config file.
pub fn push_recent(body: &str, path: &str) -> (list: Vec<String>)
    ensures
        crate::text::texts(list@) == pushed(recent_in(body@), path@),
{
    let recent = load_recent_projects(body);
    let mut list = other_paths(&recent, path);
    let ghost rest = crate::text::texts(list@);
    list.insert(0, path.to_owned());
    assert(crate::text::texts(list@) =~= seq![path@] + rest);
    if list.len() > MAX_RECENT_PROJECTS {
        let ghost all = crate::text::texts(list@);
        list.truncate(MAX_RECENT_PROJECTS);
        assert(crate::text::texts(list@) =~= all.take(MAX_RECENT_PROJECTS as int));
    }
    list
}

// ── Laws ─────────────────────────────────────────────────────────────────────

proof fn lemma_others(paths: Seq<Seq<char>>, path: Seq<char>)
    ensures
        others(paths, path).len() <= paths.len(),
        forall|i: int|
            0 <= i < others(paths, path).len() ==> !crate::paths::same_place(
                #[trigger] others(paths, path)[i],
                path,
            ),
    decreases paths.len(),
{
    if paths.len() > 0 {
        lemma_others(paths.drop_last(), path);
    }
}

proof fn lemma_others_all(paths: Seq<Seq<char>>, path: Seq<char>)
    requires
        forall|i: int| 0 <= i < paths.len() ==> !crate::paths::same_place(#[trigger] paths[i], path),
    ensures
        others(paths, path) == paths,
    decreases paths.len(),
{
    if paths.len() > 0 {
        lemma_others_all(paths.drop_last(), path);
        assert(paths.drop_last().push(paths.last()) =~= paths);
    }
}

proof fn lemma_others_first(path: Seq<char>, rest: Seq<Seq<char>>)
    ensures
        others(seq![path] + rest, path) == others(rest, path),
    decreases rest.len(),
{
    let all = seq![path] + rest;
    if rest.len() == 0 {
        assert(all.drop_last() =~= Seq::empty());
        assert(others(all.drop_last(), path) =~= rest);
    } else {
        lemma_others_first(path, rest.drop_last());
        assert(all.drop_last() =~= seq![path] + rest.drop_last());
    }
}

/// An opened project leads the list, occurs in it once, and the list stays short.
pub proof fn law_opened_project_leads(recent: Seq<Seq<char>>, path: Seq<char>)
    ensures
        pushed(recent, path).len() <= MAX_RECENT_PROJECTS,
        pushed(recent, path)[0] == path,
        forall|i: int|
            1 <= i < pushed(recent, path).len() ==> !crate::paths::same_place(
                #[trigger] pushed(recent, path)[i],
                path,
            ),
{
    lemma_others(recent, path);
    let rest = others(recent, path);
    assert forall|i: int| 1 <= i < pushed(recent, path).len() implies !crate::paths::same_place(
        #[trigger] pushed(recent, path)[i],
        path,
    ) by {
        assert(pushed(recent, path)[i] == rest[i - 1]);
    }
}

/// Opening a project twice in a row changes nothing the second time.
pub proof fn law_reopening_changes_nothing(recent: Seq<Seq<char>>, path: Seq<char>)
    ensures
        pushed(pushed(recent, path), path) == pushed(recent, path),
{
    law_opened_project_leads(recent, path);
    let list = pushed(recent, path);
    let rest = list.skip(1);
    assert(list =~= seq![path] + rest);
    lemma_others_first(path, rest);
    assert forall|i: int| 0 <= i < rest.len() implies !crate::paths::same_place(
        #[trigger] rest[i],
        path,
    ) by {
        assert(rest[i] == list[i + 1]);
    }
    lemma_others_all(rest, path);
}

/// A text that a line of the config file can hold.
pub open spec fn fits_line(text: Seq<char>) -> bool {
    text.len() > 0 && crate::text::trim(text) == text && !text.contains('\n')
}

proof fn lemma_split_line(prefix: Seq<char>, line: Seq<char>)
    requires
        !line.contains('\n'),
    ensures
        crate::text::split_on(prefix.push('\n') + line, '\n') == crate::text::split_on(
            prefix,
            '\n',
        ).push(line),
        crate::text::split_on(line, '\n') == seq![line],
    decreases line.len(),
{
    let text = prefix.push('\n') + line;
    let head = crate::text::split_on(prefix, '\n');
    if line.len() == 0 {
        assert(text =~= prefix.push('\n'));
        assert(text.drop_last() =~= prefix);
        assert(line =~= Seq::empty());
    } else {
        let rest = line.drop_last();
        assert forall|c: char| rest.contains(c) implies line.contains(c) by {
            let i = rest.index_of(c);
            assert(line[i] == c);
        }
        lemma_split_line(prefix, rest);
        assert(text.drop_last() =~= prefix.push('\n') + rest);
        assert(line.contains(line.last())) by {
            assert(line[line.len() - 1] == line.last());
        }
        assert(rest.push(line.last()) =~= line);
        assert(head.push(rest).drop_last() =~= head);
        assert(seq![rest].drop_last().push(line) =~= seq![line]);
    }
}

proof fn lemma_lines_split(list: Seq<Seq<char>>)
    requires
        list.len() > 0,
        forall|i: int| 0 <= i < list.len() ==> fits_line(#[trigger] list[i]),
    ensures
        crate::text::split_on(as_lines(list), '\n') == list,
    decreases list.len(),
{
    if list.len() == 1 {
        lemma_split_line(Seq::empty(), list[0]);
        assert(seq![list[0]] =~= list);
    } else {
        lemma_lines_split(list.drop_last());
        lemma_split_line(as_lines(list.drop_last()), list.last());
        assert(list.drop_last().push(list.last()) =~= list);
    }
}

proof fn lemma_filled_all(list: Seq<Seq<char>>)
    requires
        forall|i: int| 0 <= i < list.len() ==> fits_line(#[trigger] list[i]),
    ensures
        filled(list) == list,
    decreases list.len(),
{
    if list.len() > 0 {
        lemma_filled_all(list.drop_last());
        assert(list.drop_last().push(list.last()) =~= list);
    }
}

/// What is saved as recent projects is what is loaded again, for paths that a line can hold.
pub proof fn law_recent_projects_round_trip(list: Seq<Seq<char>>)
    requires
        forall|i: int| 0 <= i < list.len() ==> fits_line(#[trigger] list[i]),
    ensures
        recent_in(as_lines(list)) == list,
{
    if list.len() == 0 {
        assert(crate::text::split_on(Seq::empty(), '\n') =~= seq![Seq::empty()]);
        let lines = crate::text::split_on(as_lines(list), '\n');
        assert(crate::text::trim(lines.last()).len() == 0);
        assert(filled(lines.drop_last()) =~= list);
    } else {
        lemma_lines_split(list);
        lemma_filled_all(list);
    }
}

/// The last project has one row, the first, and is not listed again among the recent ones.
pub proof fn law_resume_leads_and_is_listed_once(last: Seq<char>, recent: Seq<Seq<char>>, i: int)
    requires
        0 <= i < rows(Some(last), recent).len(),
    ensures
        rows(Some(last), recent)[0] == ChoiceView::ResumeLast(last),
        rows(Some(last), recent)[i] matches ChoiceView::Recent(path)
            ==> !crate::paths::same_place(path, last),
{
    lemma_others(recent, last);
    let shown = others(recent, last);
    if 4 <= i < 4 + shown.len() {
        assert(rows(Some(last), recent)[i] == ChoiceView::Recent(shown[i - 4]));
    }
}

/// The recent projects at other places than an opened one are all kept, each as often as before
/// and in their order; the others are the only ones to go.
pub proof fn law_other_projects_are_kept(paths: Seq<Seq<char>>, path: Seq<char>)
    ensures
        crate::selection::keeps_just(
            others(paths, path),
            paths,
            |p: Seq<char>| !crate::paths::same_place(p, path),
        ),
    decreases paths.len(),
{
    let elsewhere = |p: Seq<char>| !crate::paths::same_place(p, path);
    if paths.len() == 0 {
        crate::selection::lemma_nothing(paths, elsewhere);
        assert(others(paths, path) =~= Seq::empty());
    } else {
        law_other_projects_are_kept(paths.drop_last(), path);
        crate::selection::lemma_one_more(
            others(paths.drop_last(), path),
            paths.drop_last(),
            elsewhere,
            paths.last(),
        );
        assert(paths.drop_last().push(paths.last()) =~= paths);
    }
}

/// After a project was opened, the list is that project and behind it the recent ones at other
/// places, as many of them as the limit leaves room for.
pub proof fn law_opening_forgets_no_other_project(recent: Seq<Seq<char>>, path: Seq<char>) -> (
    kept: Seq<Seq<char>>)
    ensures
        crate::selection::keeps_just(
            kept,
            recent,
            |p: Seq<char>| !crate::paths::same_place(p, path),
        ),
        pushed(recent, path).len() == if 1 + kept.len() < 10 {
            1 + kept.len()
        } else {
            10
        },
        pushed(recent, path)[0] == path,
        forall|i: int|
            1 <= i < pushed(recent, path).len() ==> #[trigger] pushed(recent, path)[i] == kept[i
                - 1],
{
    law_other_projects_are_kept(recent, path);
    others(recent, path)
}

/// The paths that are kept at a cold start are those whose files exist, in order.
pub proof fn law_existing_projects_are_kept(paths: Seq<Seq<char>>, flags: Seq<bool>) -> (positions:
    Seq<int>)
    requires
        paths.len() == flags.len(),
    ensures
        crate::selection::are_wanted_positions(positions, flags, |f: bool| f),
        existing(paths, flags).len() == positions.len(),
        forall|k: int|
            0 <= k < positions.len() ==> #[trigger] existing(paths, flags)[k]
                == paths[positions[k]],
    decreases paths.len(),
{
    lemma_existing(paths, flags)
}

proof fn lemma_existing(paths: Seq<Seq<char>>, flags: Seq<bool>) -> (positions: Seq<int>)
    requires
        paths.len() <= flags.len(),
    ensures
        crate::selection::are_wanted_positions(
            positions,
            flags.take(paths.len() as int),
            |f: bool| f,
        ),
        paths.len() == flags.len() ==> crate::selection::are_wanted_positions(
            positions,
            flags,
            |f: bool| f,
        ),
        existing(paths, flags).len() == positions.len(),
        forall|k: int|
            0 <= k < positions.len() ==> #[trigger] existing(paths, flags)[k]
                == paths[positions[k]],
    decreases paths.len(),
{
    let n = paths.len() as int;
    let seen = flags.take(n);
    if paths.len() == flags.len() {
        assert(seen =~= flags);
    }
    if n == 0 {
        Seq::empty()
    } else {
        let rest = paths.drop_last();
        let before = lemma_existing(rest, flags);
        let head = flags.take(n - 1);
        let positions = if flags[n - 1] {
            before.push(n - 1)
        } else {
            before
        };
        assert forall|k: int| 0 <= k < positions.len() implies 0 <= (#[trigger] positions[k])
            < seen.len() && seen[positions[k]] by {
            if k < before.len() {
                assert(positions[k] == before[k]);
                assert(head[before[k]] == seen[before[k]]);
            }
        }
        assert forall|j: int, k: int| 0 <= j < k < positions.len() implies (#[trigger] positions[j])
            < (#[trigger] positions[k]) by {
            assert(positions[j] == before[j]);
            if k < before.len() {
                assert(positions[k] == before[k]);
            }
        }
        assert forall|i: int| 0 <= i < seen.len() && (#[trigger] seen[i]) implies positions.contains(
            i,
        ) by {
            if i < n - 1 {
                assert(head[i] == seen[i]);
                let k = before.index_of(i);
                assert(before[k] == i);
                assert(positions[k] == i);
            } else {
                assert(positions[positions.len() - 1] == i);
            }
        }
        assert forall|k: int| 0 <= k < positions.len() implies #[trigger] existing(paths, flags)[k]
            == paths[positions[k]] by {
            if k < before.len() {
                assert(existing(paths, flags)[k] == existing(rest, flags)[k]);
                assert(positions[k] == before[k]);
                assert(rest[before[k]] == paths[before[k]]);
            }
        }
        positions
    }
}

/// Every line with something on it is a recent project: its text without the white space around
/// it, in the order of the lines.
pub proof fn law_every_line_is_loaded(lines: Seq<Seq<char>>)
    ensures
        crate::selection::keeps_just(
            filled(lines),
            Seq::new(lines.len(), |i: int| crate::text::trim(lines[i])),
            |line: Seq<char>| line.len() > 0,
        ),
    decreases lines.len(),
{
    let said = |line: Seq<char>| line.len() > 0;
    let all = Seq::new(lines.len(), |i: int| crate::text::trim(lines[i]));
    if lines.len() == 0 {
        crate::selection::lemma_nothing(all, said);
        assert(filled(lines) =~= Seq::empty());
    } else {
        let rest = lines.drop_last();
        let head = Seq::new(rest.len(), |i: int| crate::text::trim(rest[i]));
        law_every_line_is_loaded(rest);
        crate::selection::lemma_one_more(
            filled(rest),
            head,
            said,
            crate::text::trim(lines.last()),
        );
        assert(head.push(crate::text::trim(lines.last())) =~= all);
    }
}

/// The rows of the hub: the last project leads if there is one, then come the three ways to
/// start, then a row for each recent project at another place, in order, and at last the way on
/// without a project.
pub proof fn law_rows_offer_every_project(last: Option<Seq<char>>, recent: Seq<Seq<char>>) -> (
    shown: Seq<Seq<char>>)
    ensures
        crate::selection::keeps_just(
            shown,
            recent,
            |p: Seq<char>| last is None || !crate::paths::same_place(p, last->Some_0),
        ),
        ({
            let n: int = if last is Some {
                1
            } else {
                0
            };
            let list = rows(last, recent);
            &&& list.len() == n + 3 + shown.len() + 1
            &&& last is Some ==> list[0] == ChoiceView::ResumeLast(last->Some_0)
            &&& list[n] == ChoiceView::New
            &&& list[n + 1] == ChoiceView::Open
            &&& list[n + 2] == ChoiceView::ImportMod
            &&& forall|i: int|
                0 <= i < shown.len() ==> #[trigger] list[n + 3 + i] == ChoiceView::Recent(shown[i])
            &&& list.last() == ChoiceView::BrowseWithoutProject
        }),
{
    let elsewhere = |p: Seq<char>|
        last is None || !crate::paths::same_place(p, last->Some_0);
    let shown = listed(recent, last);
    match last {
        Some(path) => {
            law_other_projects_are_kept(recent, path);
            crate::selection::lemma_same_wanted(
                shown,
                recent,
                |p: Seq<char>| !crate::paths::same_place(p, path),
                elsewhere,
            );
        },
        None => {
            crate::selection::lemma_everything(recent, elsewhere);
        },
    }
    shown
}

/// A warning comes up just where edits would be lost: there are some, and the action opens another
/// project in their place.
pub proof fn law_only_lost_edits_are_warned_of(action: HubAction)
    ensures
        action.replaces_edits() <==> action is ResumeLast || action is New || action is Open
            || action is ImportMod || action is OpenRecent,
{
}

} // verus!
