use visionary::workspace::{
    asset_file_name, extension, fighter_component, import_animation_files, import_model_files,
    import_model_folder, import_swing_prc, imported_files, is_animation_asset, is_model_asset,
    output_asset_path, overlaid, regular_asset_files, workspace_asset_files,
    workspace_asset_inventory, workspace_fighter_slot_dirs, workspace_file, workspace_folders,
    workspace_map, workspace_romfs, AssetArea, AssetError, ListedFile, WorkspaceSupport,
    PROJECT_FILE_NAME, WORKSPACE_README,
};

fn file(path: &str) -> ListedFile {
    ListedFile {
        path: path.to_string(),
        is_file: true,
        is_symlink: false,
        len: 10,
    }
}

fn link(path: &str) -> ListedFile {
    ListedFile {
        path: path.to_string(),
        is_file: true,
        is_symlink: true,
        len: 10,
    }
}

fn folder(path: &str) -> ListedFile {
    ListedFile {
        path: path.to_string(),
        is_file: false,
        is_symlink: false,
        len: 0,
    }
}

fn listed(paths: &[&str]) -> Vec<String> {
    paths.iter().map(|p| p.to_string()).collect()
}

#[test]
fn new_scaffolds_a_workspace_where_every_edit_has_a_home() {
    assert_eq!(workspace_file("/w/my_mod"), "/w/my_mod/modproject.json");
    let folders = workspace_folders("/w/my_mod");
    for needed in ["/w/my_mod", "/w/my_mod/assets", "/w/my_mod/reference", "/w/my_mod/romfs"] {
        assert!(folders.iter().any(|f| f == needed), "{needed}");
    }
    assert!(WORKSPACE_README.starts_with("# Visionary project workspace\n"));
    assert!(WORKSPACE_README.contains("`romfs/`"));
    assert_eq!(PROJECT_FILE_NAME, "modproject.json");
}

#[test]
fn workspace_map_names_manual_drop_zones_for_unsupported_edits() {
    let map = workspace_map();
    let kinds: Vec<&str> = map.iter().map(|e| e.kind).collect();
    for needed in [
        "Models",
        "Animations",
        "Sound / streams",
        "Binary effects / messages",
    ] {
        assert!(
            kinds.contains(&needed),
            "workspace map must show where {needed} go: {kinds:?}"
        );
    }
    let models = map.iter().find(|e| e.kind == "Models").unwrap();
    assert_eq!(models.support, WorkspaceSupport::Manual);
    assert!(models.workspace_path.contains("romfs/fighter"));
    assert!(models.notes.contains("ships verbatim"));
    let anims = map.iter().find(|e| e.kind == "Animations").unwrap();
    assert_eq!(anims.support, WorkspaceSupport::Manual);
    assert!(anims.workspace_path.contains("motion"));
    // Supported edits keep living in the JSON/assets.
    assert!(map
        .iter()
        .any(|e| e.support == WorkspaceSupport::Supported
            && e.workspace_path == "modproject.json"));
}

#[test]
fn model_animation_and_swing_imports_land_in_the_selected_fighter_slot() {
    let source_model = vec![
        file("/src/MODEL.NUMDLB"),
        file("/src/model.nusktb"),
        file("/src/body_col.nutexb"),
        file("/src/notes.blend"),
    ];
    let plan = import_model_folder("/w", "PICKEL", 12, &source_model).unwrap();
    assert_eq!(plan.len(), 3);
    let (model, motion) = workspace_fighter_slot_dirs("/w", "pickel", 12).unwrap();
    assert_eq!(model, "/w/romfs/fighter/pickel/model/body/c12");
    assert_eq!(motion, "/w/romfs/fighter/pickel/motion/body/c12");
    assert_eq!(
        imported_files(&plan),
        vec![
            format!("{model}/body_col.nutexb"),
            format!("{model}/model.numdlb"),
            format!("{model}/model.nusktb"),
        ]
    );
    let mesh = plan.iter().find(|i| i.name == "model.numdlb").unwrap();
    assert_eq!(mesh.source, "/src/MODEL.NUMDLB");

    let animation =
        import_animation_files("/w", "pickel", 12, &listed(&["/src/AttackAirN.NUANMB"])).unwrap();
    assert_eq!(animation[0].output, format!("{motion}/attackairn.nuanmb"));
    let swing = import_swing_prc("/w", "pickel", 12, "/src/swing_iteration_4.prc").unwrap();
    assert_eq!(swing, format!("{motion}/swing.prc"));

    let on_disk: Vec<ListedFile> = imported_files(&plan).iter().map(|p| file(p)).collect();
    let moved = vec![file(&animation[0].output), file(&swing)];
    let inventory = workspace_asset_inventory("pickel", 12, &on_disk, &moved).unwrap();
    assert_eq!(inventory.model_files.len(), 3);
    assert_eq!(inventory.animations, vec!["attackairn.nuanmb"]);
    assert!(inventory.swing_prc);
    assert_eq!(inventory.total_files(), 5);
}

#[test]
fn workspace_asset_manifest_uses_lowercase_canonical_game_paths() {
    let model = import_model_files("/w", "Kirby", 3, &listed(&["/src/MODEL.NUMSHB"])).unwrap();
    let run = import_animation_files("/w", "Kirby", 3, &listed(&["/src/Run.NUANMB"])).unwrap();
    let swing = import_swing_prc("/w", "Kirby", 3, "/src/physics.prc").unwrap();

    let paths: Vec<String> = workspace_asset_files(
        "KIRBY",
        3,
        &vec![file(&model[0].output)],
        &vec![file(&swing), file(&run[0].output)],
    )
    .unwrap()
    .into_iter()
    .map(|file| file.game_path)
    .collect();
    assert_eq!(
        paths,
        vec![
            "fighter/kirby/model/body/c03/model.numshb",
            "fighter/kirby/motion/body/c03/run.nuanmb",
            "fighter/kirby/motion/body/c03/swing.prc",
        ]
    );
}

#[test]
fn imports_reject_path_traversal_symlinks_and_wrong_file_kinds() {
    let wrong = listed(&["/src/model.blend"]);
    assert!(import_model_files("/w", "../kirby", 0, &wrong).is_err());
    assert!(import_model_files("/w", "kirby", 0, &wrong).is_err());
    // A link is refused when it would be copied.
    assert!(visionary::transfer::start_replacement(
        visionary::transfer::FileFacts {
            is_file: true,
            is_symlink: true,
            len: 9,
        },
        None,
        false,
    )
    .is_err());
}

#[test]
fn every_refusal_has_its_reason() {
    assert_eq!(
        fighter_component("../kirby").unwrap_err(),
        AssetError::UnsafeFighter("../kirby".to_string())
    );
    assert_eq!(
        fighter_component("  ").unwrap_err(),
        AssetError::UnsafeFighter(String::new())
    );
    assert_eq!(
        asset_file_name("/a/.hidden.nutexb").unwrap_err(),
        AssetError::NoUsableName("/a/.hidden.nutexb".to_string())
    );
    assert_eq!(
        asset_file_name("/a/b\\c.nutexb").unwrap_err(),
        AssetError::UnsafeName("b\\c.nutexb".to_string())
    );
    assert_eq!(
        import_model_files("/w", "kirby", 0, &listed(&["/a/M.numdlb", "/b/m.NUMDLB"])).unwrap_err(),
        AssetError::DuplicateName("m.numdlb".to_string())
    );
    assert_eq!(
        import_animation_files("/w", "kirby", 0, &listed(&["/a/m.numdlb"])).unwrap_err(),
        AssetError::Unsupported("/a/m.numdlb".to_string())
    );
    assert_eq!(
        import_animation_files("/w", "kirby", 0, &Vec::new()).unwrap_err(),
        AssetError::NothingSelected
    );
    assert_eq!(
        import_swing_prc("/w", "kirby", 0, "/a/swing.txt").unwrap_err(),
        AssetError::Unsupported("/a/swing.txt".to_string())
    );
}

#[test]
fn fighters_and_slots_are_parts_of_game_paths() {
    assert_eq!(fighter_component(" Pickel\n").unwrap(), "pickel");
    assert_eq!(fighter_component("pickel").unwrap(), "pickel");
    let output = output_asset_path("/out", "mario", 7, "model", "model.xmb");
    assert_eq!(output.game_path, "fighter/mario/model/body/c07/model.xmb");
    assert_eq!(output.workspace_path, "/out/fighter/mario/model/body/c07/model.xmb");
    let output = output_asset_path("/out", "mario", 107, "motion", "x");
    assert_eq!(output.game_path, "fighter/mario/motion/body/c107/x");
    assert_eq!(workspace_romfs("/w"), "/w/romfs");
}

#[test]
fn kinds_of_files_go_by_their_extensions() {
    assert_eq!(extension("/a/B.NuMdLb"), "numdlb");
    assert_eq!(extension("/a/b"), "");
    for name in ["a.adjb", "a.lvd", "a.XMB", "a.nutexb", "a.nuanmb", "a.nuhlpb"] {
        assert!(is_model_asset(name), "{name}");
    }
    assert!(!is_model_asset("a.blend"));
    assert!(!is_model_asset("nutexb"));
    assert!(is_animation_asset("a.NUANMB"));
    assert!(!is_animation_asset("a.numdlb"));
}

#[test]
fn folders_and_links_do_not_go_into_a_preview() {
    let entries = vec![
        file("/m/model.numdlb"),
        link("/m/model.nusktb"),
        folder("/m/model.numatb"),
        file("/m/readme.txt"),
    ];
    let files = regular_asset_files(&entries, AssetArea::Model).unwrap();
    assert_eq!(files.len(), 1);
    assert_eq!(files.key_at(0), "model.numdlb");
    assert_eq!(files.value_at(0).path, "/m/model.numdlb");
    let clash = vec![file("/m/A.nutexb"), file("/m/a.nutexb")];
    assert!(matches!(
        regular_asset_files(&clash, AssetArea::Model),
        Err(AssetError::DuplicateName(name)) if name == "a.nutexb"
    ));
    let motion = vec![
        file("/m/run.nuanmb"),
        file("/m/SWING.prc"),
        file("/m/swingblend.prc"),
        file("/m/ik.prc"),
        file("/m/motion_list.bin"),
        file("/m/other.prc"),
    ];
    assert_eq!(regular_asset_files(&motion, AssetArea::Motion).unwrap().len(), 5);
}

#[test]
fn the_files_on_top_win() {
    let base = regular_asset_files(&vec![file("/v/a.nutexb"), file("/v/b.nutexb")], AssetArea::Model)
        .unwrap();
    let over = regular_asset_files(&vec![file("/w/b.nutexb"), file("/w/c.nutexb")], AssetArea::Model)
        .unwrap();
    let both = overlaid(&base, &over);
    let paths: Vec<&str> = (0..both.len()).map(|i| both.value_at(i).path.as_str()).collect();
    assert_eq!(paths, vec!["/v/a.nutexb", "/w/b.nutexb", "/w/c.nutexb"]);
}

#[test]
fn an_inventory_counts_every_file_once() {
    let model = vec![
        file("/m/MODEL.NUMSHB"),
        file("/m/b.nutexb"),
        file("/m/a.nutexb"),
        file("/m/notes.txt"),
        link("/m/c.nutexb"),
    ];
    let motion = vec![
        file("/n/Wait.NUANMB"),
        file("/n/attack.nuanmb"),
        file("/n/swing.prc"),
        file("/n/Motion_List.bin"),
        file("/n/ik.prc"),
    ];
    let files = workspace_asset_files("kirby", 3, &model, &motion).unwrap();
    let inventory = workspace_asset_inventory("kirby", 3, &model, &motion).unwrap();
    assert_eq!(inventory.model_files, vec!["a.nutexb", "b.nutexb", "model.numshb"]);
    assert_eq!(inventory.animations, vec!["attack.nuanmb", "wait.nuanmb"]);
    assert!(inventory.swing_prc);
    assert!(inventory.motion_list);
    assert_eq!(inventory.total_files(), 7);
    assert_eq!(files.len(), 7);
}
