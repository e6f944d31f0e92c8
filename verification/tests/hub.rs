use visionary::hub::{
    last_path, load_last_project, load_recent_projects, needs_hub_warning, push_recent,
    recent_path, save_recent_projects, CurrentProject, HubAction, HubChoice, HubState,
    LAST_PROJECT_KEY, MAX_RECENT_PROJECTS, RECENT_PROJECTS_KEY,
};

fn listed(paths: &[&str]) -> Vec<String> {
    paths.iter().map(|p| p.to_string()).collect()
}

/// A hub over what the two config files hold; `exists` says which projects are there.
fn cold_start(last: &str, recent: &str, exists: fn(&str) -> bool) -> HubState {
    let last = load_last_project(last);
    let last_exists = last.as_deref().is_some_and(exists);
    let recent = load_recent_projects(recent);
    let recent_exists: Vec<bool> = recent.iter().map(|p| exists(p)).collect();
    HubState::cold_start(last, last_exists, recent, &recent_exists)
}

#[test]
fn cold_start_with_no_config_offers_new_open_import_and_browse() {
    let hub = cold_start("", "", |_| true);
    assert!(hub.show, "the hub must appear on launch");
    assert!(hub.last.is_none());
    assert!(hub.recent.is_empty());
    let titles: Vec<&str> = hub.choices().iter().map(|c| c.title()).collect();
    assert_eq!(
        titles,
        vec!["New", "Open", "Import mod", "Browse without project"]
    );
}

#[test]
fn resume_leads_and_recent_skips_the_duplicate() {
    let a = "/cfg/a/modproject.json".to_string();
    let b = "/cfg/b/modproject.json".to_string();
    let recent = save_recent_projects(&vec![a.clone(), b.clone()]);
    let hub = cold_start(&a, &recent, |_| true);
    assert_eq!(hub.last.as_deref(), Some(a.as_str()));
    // Recent still holds both, but the choices list Resume once.
    let choices = hub.choices();
    assert!(matches!(&choices[0], HubChoice::ResumeLast(p) if p == &a));
    let recents: Vec<&String> = choices
        .iter()
        .filter_map(|c| match c {
            HubChoice::Recent(p) => Some(p),
            _ => None,
        })
        .collect();
    assert_eq!(recents, vec![&b], "Resume must not duplicate its path");
}

#[test]
fn missing_files_are_dropped_from_resume_and_recents() {
    let gone = "/cfg/gone/modproject.json";
    let recent = save_recent_projects(&listed(&[gone]));
    let hub = cold_start(gone, &recent, |_| false);
    assert!(
        hub.last.is_none(),
        "a missing Resume target must not linger"
    );
    assert!(hub.recent.is_empty());
}

#[test]
fn save_clears_dirty_and_save_as_is_needed_only_without_a_path() {
    let mut current = CurrentProject::new();
    assert!(current.needs_save_as());
    assert!(!current.is_dirty());
    current.mark_dirty();
    assert!(current.needs_warning());
    let path = "/cfg/modproject.json".to_string();
    current.mark_saved(path.clone());
    assert!(!current.is_dirty());
    assert!(!current.needs_save_as());
    assert_eq!(current.path.as_deref(), Some(path.as_str()));
}

#[test]
fn hub_switch_warns_only_when_edits_would_be_discarded() {
    let dirty = true;
    assert!(needs_hub_warning(
        dirty,
        &HubAction::Open("/tmp/x.json".into())
    ));
    assert!(needs_hub_warning(dirty, &HubAction::New("/tmp/new".into())));
    assert!(needs_hub_warning(
        dirty,
        &HubAction::ImportMod("/tmp/mod".into())
    ));
    assert!(needs_hub_warning(
        dirty,
        &HubAction::ResumeLast("/tmp/x.json".into())
    ));
    assert!(!needs_hub_warning(dirty, &HubAction::BrowseWithoutProject));
    assert!(!needs_hub_warning(
        false,
        &HubAction::New("/tmp/new".into())
    ));
}

#[test]
fn push_recent_dedupes_caps_and_adopts_last() {
    let paths: Vec<String> = (0..12)
        .map(|i| format!("/cfg/p{i}/modproject.json"))
        .collect();
    let mut body = String::new();
    for p in &paths {
        body = save_recent_projects(&push_recent(&body, p));
    }
    let recent = load_recent_projects(&body);
    assert_eq!(recent.len(), MAX_RECENT_PROJECTS);
    assert_eq!(recent[0], paths[11]);
    // Reopening an older entry moves it to the front without duplicating.
    body = save_recent_projects(&push_recent(&body, &paths[0]));
    let recent = load_recent_projects(&body);
    assert_eq!(recent[0], paths[0]);
    assert_eq!(
        recent.iter().filter(|p| *p == &paths[0]).count(),
        1,
        "reopening must not duplicate the entry"
    );
    assert_eq!(
        load_last_project(&paths[0]).as_deref(),
        Some(paths[0].as_str())
    );
}

#[test]
fn save_round_trip_persists_path_and_recent() {
    let path = "/cfg/my_mod/modproject.json".to_string();
    let mut current = CurrentProject::with_path(path.clone(), "my_mod".into());
    current.mark_dirty();
    // Save adopts the path and clears dirty; hub records it.
    current.mark_saved(path.clone());
    let recent = save_recent_projects(&push_recent("", &path));
    assert!(!current.is_dirty());

    let hub = cold_start(&path, &recent, |_| true);
    assert_eq!(hub.last.as_deref(), Some(path.as_str()));
    assert!(hub.recent.contains(&path));
}

#[test]
fn config_files_stand_side_by_side() {
    assert_eq!(last_path("/cfg"), "/cfg/project_path");
    assert_eq!(recent_path("/cfg/"), "/cfg/recent_projects");
    assert_eq!(LAST_PROJECT_KEY, "project_path");
    assert_eq!(RECENT_PROJECTS_KEY, "recent_projects");
}

#[test]
fn a_last_project_is_a_text_without_space_around_it() {
    assert_eq!(load_last_project("  /a/b.json\n").as_deref(), Some("/a/b.json"));
    assert_eq!(load_last_project(" \n"), None);
}

#[test]
fn recent_projects_stand_one_to_a_line() {
    let recent = listed(&["/a b/\u{fc}.json", "c.json"]);
    assert_eq!(save_recent_projects(&recent), "/a b/\u{fc}.json\nc.json");
    assert_eq!(load_recent_projects(&save_recent_projects(&recent)), recent);
    assert_eq!(
        load_recent_projects("  /x.json \r\n\n\t\n/y.json"),
        listed(&["/x.json", "/y.json"])
    );
    assert!(load_recent_projects("").is_empty());
}

#[test]
fn reopening_the_newest_project_changes_nothing() {
    let once = push_recent("", "/a.json");
    let body = save_recent_projects(&once);
    assert_eq!(push_recent(&body, "/a.json"), once);
    // The same place may be written in another way.
    assert_eq!(push_recent("/a//b.json", "/a/b.json"), listed(&["/a/b.json"]));
}

#[test]
fn actions_have_labels() {
    assert_eq!(
        HubAction::Open("/tmp/x.json".into()).label(),
        "Open /tmp/x.json"
    );
    assert!(!HubAction::BrowseWithoutProject.discards_edits());
    assert!(HubAction::OpenRecent("/a".into()).discards_edits());
}

#[test]
fn a_loaded_project_is_clean() {
    let mut current = CurrentProject::default();
    current.mark_dirty();
    current.mark_loaded(Some("/p.json".to_string()), "p".to_string());
    assert!(!current.is_dirty());
    assert!(current.has_path());
    assert_eq!(current.name, "p");
    current.mark_dirty();
    current.mark_clean();
    assert!(!current.needs_warning());
}
