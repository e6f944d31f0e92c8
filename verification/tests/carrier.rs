use hash40::hash40;
use visionary::carrier::{
    carrier_model_files, check_rig, checked_asset_size, choose_motion, is_low_lod_mesh,
    merge_material_labels, planned_output, source_for_model_file, source_total,
    strip_low_lod_entries, validate_animation_bones, BundleBuilder, CarrierError, NodeGroup,
    PlannedFile, PreparedContent, CARRIER_MAX_FILE_SIZE, CARRIER_MAX_TOTAL_SIZE,
};
use visionary::motions::{prepare, Animation, MotionEntry, MotionError, MotionFlags};
use visionary::pool::{motion_name, texture_name, ResourcePool};
use visionary::preparation::{
    gather_costume, prepare_carrier_assets, CarrierPlan, Costume, CostumeContents, Descriptor,
    Material, PreparationError,
};
use visionary::sorted::SortedMap;
use visionary::textures::{
    can_hold_texture, carrier_texture_outputs, normalized_texture_name, rename_carrier_texture,
    texture_source, FooterError, TextureError, FOOTER_LEN,
};
use visionary::workspace::{AssetSource, ListedFile, WorkspaceAssetFile};

const MODEL: &str = "/w/romfs/fighter/mario/model/body/c00";
const MOTION: &str = "/w/romfs/fighter/mario/motion/body/c00";

fn texts(items: &[&str]) -> Vec<String> {
    items.iter().map(|t| t.to_string()).collect()
}

fn pool() -> ResourcePool {
    ResourcePool {
        version: "1".to_string(),
        model_root: "fighter/alucard/model".to_string(),
        motion_root: "fighter/alucard/motion".to_string(),
        texture_capacity: 64,
        motion_capacity: 512,
    }
}

fn source(path: &str, len: u64) -> AssetSource {
    AssetSource {
        path: path.to_string(),
        len,
    }
}

fn files(items: &[(&str, &str)]) -> SortedMap<String, AssetSource> {
    let mut map = SortedMap::new();
    for (name, path) in items {
        map.insert(name.to_string(), source(path, 10));
    }
    map
}

/// A costume on a disk that exists only here: the files of each folder with their sizes, and what
/// they hold.
struct Disk {
    vanilla_dir: Option<&'static str>,
    vanilla_model: Vec<(String, u64)>,
    model: Vec<(String, u64)>,
    motion: Vec<(String, u64)>,
    vanilla_motion: Vec<(String, u64)>,
    contents: CostumeContents,
}

fn listing(items: &[(String, u64)]) -> Vec<ListedFile> {
    items
        .iter()
        .map(|(path, len)| ListedFile {
            path: path.clone(),
            is_file: true,
            is_symlink: false,
            len: *len,
        })
        .collect()
}

fn descriptor(meshes: &[&str], materials: &[&str]) -> Descriptor {
    Descriptor {
        material_files: 1,
        meshes: texts(meshes),
        materials: texts(materials),
    }
}

fn material(label: &str, textures: &[&str]) -> Material {
    Material {
        label: label.to_string(),
        textures: texts(textures),
    }
}

fn plain_flags() -> MotionFlags {
    MotionFlags {
        fix_trans: false,
        moves: false,
        loops: false,
        others: 0,
    }
}

fn motion(kind: &str, animations: &[&str]) -> MotionEntry {
    MotionEntry {
        kind: hash40(kind).0,
        game_script: 0,
        flags: plain_flags(),
        scripts: Vec::new(),
        animations: animations
            .iter()
            .map(|name| Animation { name: hash40(name).0, unk: 0 })
            .collect(),
        rest: Vec::new(),
    }
}

/// An animation that moves these nodes.
fn moving(nodes: &[&str]) -> Vec<NodeGroup> {
    vec![NodeGroup { is_transform: true, nodes: texts(nodes) }]
}

fn model_file(name: &str) -> String {
    format!("{MODEL}/{name}")
}

fn motion_file(name: &str) -> String {
    format!("{MOTION}/{name}")
}

fn fixture() -> Disk {
    let mut contents = CostumeContents {
        skeletons: SortedMap::new(),
        descriptors: SortedMap::new(),
        materials: SortedMap::new(),
        animations: SortedMap::new(),
        motion_lists: SortedMap::new(),
        parameters: SortedMap::new(),
        meshes: SortedMap::new(),
        mesh_groups: SortedMap::new(),
    };
    contents.skeletons.insert(model_file("model.nusktb"), texts(&["root"]));
    for name in ["model.numdlb", "model.nusrcmdlb"] {
        contents
            .descriptors
            .insert(model_file(name), descriptor(&["mesh"], &["body_mat"]));
    }
    contents.materials.insert(
        model_file("model.numatb"),
        vec![material("body_mat", &["custom_diffuse"])],
    );
    contents.animations.insert(model_file("model.nuanmb"), Vec::new());
    contents.animations.insert(motion_file("edited.nuanmb"), moving(&["root"]));
    contents
        .motion_lists
        .insert(motion_file("motion_list.bin"), vec![motion("wait", &["edited.nuanmb"])]);
    contents.parameters.insert(motion_file("swing.prc"), ());
    let mut model: Vec<(String, u64)> = carrier_model_files()
        .iter()
        .map(|name| (model_file(name), 10))
        .collect();
    model.push((model_file("custom_diffuse.nutexb"), 119));
    Disk {
        vanilla_dir: None,
        vanilla_model: Vec::new(),
        model,
        motion: ["edited.nuanmb", "motion_list.bin", "swing.prc"]
            .iter()
            .map(|name| (motion_file(name), 10))
            .collect(),
        vanilla_motion: Vec::new(),
        contents,
    }
}

fn gather(disk: &Disk) -> Costume {
    gather_costume(
        "MARIO",
        disk.vanilla_dir,
        &listing(&disk.vanilla_model),
        &listing(&disk.model),
        &listing(&disk.motion),
        &listing(&disk.vanilla_motion),
    )
    .unwrap()
}

fn prepared(disk: &Disk, animation: Option<&str>) -> Result<CarrierPlan, PreparationError> {
    prepare_carrier_assets(&gather(disk), animation, &disk.contents, &pool())
}

fn refusal(disk: &Disk, animation: Option<&str>) -> PreparationError {
    match prepared(disk, animation) {
        Ok(_) => panic!("the costume must be refused"),
        Err(error) => error,
    }
}

fn find<'a>(plan: &'a CarrierPlan, name: &str) -> &'a PlannedFile {
    plan.files.iter().find(|f| f.name == name).unwrap()
}

fn copied_from(file: &PlannedFile) -> Option<&str> {
    match &file.content {
        PreparedContent::Copy(source) => Some(source.path.as_str()),
        _ => None,
    }
}

#[test]
fn carrier_preparation_maps_descriptors_textures_animation_and_swing_without_touching_source() {
    let disk = fixture();
    let costume = gather(&disk);
    assert_eq!(costume.fighter, "mario");
    let plan = prepared(&disk, Some("edited.nuanmb")).unwrap();
    assert_eq!(
        plan.files.len(),
        14,
        "nine model, one texture, animation, swing, IK, motion list"
    );
    assert!(matches!(
        &find(&plan, "visionary_tex_0000.nutexb").content,
        PreparedContent::Texture(s) if s.path == model_file("custom_diffuse.nutexb")
    ));
    assert_eq!(
        copied_from(find(&plan, "visionary_motion_0000.nuanmb")),
        Some(motion_file("edited.nuanmb").as_str())
    );
    // The motion list accompanies its carrier-owned animation resources.
    assert!(matches!(find(&plan, "motion_list.bin").content, PreparedContent::MotionList));
    assert_eq!(plan.textures, vec![vec![texture_name(0)]]);
    assert_eq!(plan.materials.len(), 1);
    assert_eq!(plan.materials[0].path, model_file("model.numatb"));
    assert!(matches!(find(&plan, "model.numdlb").content, PreparedContent::Descriptor));
    assert!(matches!(find(&plan, "model.nusrcmdlb").content, PreparedContent::CommandDescriptor));
    assert!(matches!(find(&plan, "model.numatb").content, PreparedContent::Materials));
    assert_eq!(copied_from(find(&plan, "swing.prc")), Some(motion_file("swing.prc").as_str()));
    assert!(matches!(find(&plan, "ik.prc").content, PreparedContent::EmptyParameters));
    assert!(!plan.omitted_swing);
    assert!(plan.vanilla_motion_used.is_empty());
    assert!(plan.cut.is_none());

    // The texture is renamed inside, and nothing else of it changes.
    let mut footer = vec![0u8; FOOTER_LEN];
    footer[..4].copy_from_slice(b" XNT");
    footer[68] = 7;
    footer[104..108].copy_from_slice(b" XET");
    let renamed = rename_carrier_texture(&footer, &texture_name(0)).unwrap();
    let name = texture_name(0);
    assert_eq!(&renamed[4..4 + name.len()], name.as_bytes());
    assert_eq!(renamed[4 + name.len()], 0);
    assert_eq!(renamed[68], 7);
    assert_eq!(&renamed[104..108], b" XET");
}

#[test]
fn carrier_preparation_preserves_fighter_ik_and_prefers_workspace_edits() {
    let mut disk = fixture();
    disk.vanilla_motion.push(("/v/ik.prc".to_string(), 20));
    disk.contents.parameters.insert("/v/ik.prc".to_string(), ());
    let plan = prepared(&disk, None).unwrap();
    assert!(plan.vanilla_motion_used.iter().any(|f| f == "ik.prc"));
    assert_eq!(copied_from(find(&plan, "ik.prc")), Some("/v/ik.prc"));

    disk.motion.push((motion_file("ik.prc"), 21));
    disk.contents.parameters.insert(motion_file("ik.prc"), ());
    let plan = prepared(&disk, None).unwrap();
    assert!(!plan.vanilla_motion_used.iter().any(|f| f == "ik.prc"));
    assert_eq!(
        copied_from(find(&plan, "ik.prc")),
        Some(motion_file("ik.prc").as_str())
    );
}

#[test]
fn carrier_preparation_preserves_shared_shader_texture_paths() {
    let mut disk = fixture();
    let shared = "/common/shader/sfxpbs/fighter/default_normal";
    disk.contents.materials.insert(
        model_file("model.numatb"),
        vec![material("body_mat", &[shared])],
    );
    let plan = prepared(&disk, None).unwrap();
    assert_eq!(plan.textures, vec![texts(&[shared])]);
    assert!(!plan.files.iter().any(|f| f.name.ends_with(".nutexb")));
}

#[test]
fn carrier_preparation_supplies_absent_optional_model_animation() {
    let mut disk = fixture();
    disk.model.retain(|(path, _)| !path.ends_with(".nuanmb"));
    let plan = prepared(&disk, None).unwrap();
    assert!(matches!(
        find(&plan, "model.nuanmb").content,
        PreparedContent::EmptyAnimation
    ));
}

#[test]
fn low_lod_meshes_are_detected_and_stripped_by_name() {
    for name in ["blade_lowShape", "brave_sword_lowShape"] {
        assert!(is_low_lod_mesh(name), "{name}");
    }
    for name in [
        "mesh",
        "brave_sword_VIS_O_OBJShape",
        "lowShape",
        "blade_lowshape",
        "blade_lowShapeX",
        "Body",
    ] {
        assert!(!is_low_lod_mesh(name), "{name}");
    }
    let entries = texts(&["mesh", "blade_lowShape", "mesh", "shield_lowShape"]);
    let (kept, left_out) = strip_low_lod_entries(&entries);
    assert_eq!(left_out, 2);
    assert_eq!(
        kept.iter().map(|i| entries[*i].as_str()).collect::<Vec<_>>(),
        ["mesh", "mesh"]
    );
    assert_eq!(kept, vec![0, 2]);
}

#[test]
fn carrier_preparation_omits_low_lod_meshes_from_the_snapshot_only() {
    let mut disk = fixture();
    // Descriptors, mesh objects, and mesh-extra groups each gain a far-range twin.
    for name in ["model.numdlb", "model.nusrcmdlb"] {
        disk.contents.descriptors.insert(
            model_file(name),
            descriptor(&["mesh", "blade_lowShape"], &["body_mat", "body_mat"]),
        );
    }
    disk.contents
        .meshes
        .insert(model_file("model.numshb"), texts(&["mesh", "blade_lowShape"]));
    // A mesh file whose other half cannot be read stays as it is.
    let plan = prepared(&disk, Some("edited.nuanmb")).unwrap();
    assert!(plan.cut.is_none());
    assert!(copied_from(find(&plan, "model.numshb")).is_some());

    disk.contents
        .mesh_groups
        .insert(model_file("model.numshexb"), texts(&["mesh", "blade_lowShape"]));
    let plan = prepared(&disk, Some("edited.nuanmb")).unwrap();
    assert_eq!(plan.files.len(), 14);
    assert!(matches!(find(&plan, "model.numshb").content, PreparedContent::StrippedMeshes));
    assert!(matches!(find(&plan, "model.numshexb").content, PreparedContent::StrippedMeshInfo));
    let cut = plan.cut.unwrap();
    assert_eq!(cut.left_out, 1);
    for kept in [cut.meshes, cut.groups, cut.descriptor, cut.command] {
        assert_eq!(kept, vec![0]);
    }
}

#[test]
fn carrier_preparation_rejects_partial_models_and_unknown_animation_bones() {
    let mut disk = fixture();
    disk.model.retain(|(path, _)| !path.ends_with("model.numshb"));
    assert_eq!(
        refusal(&disk, Some("edited.nuanmb")),
        PreparationError::Carrier(CarrierError::MissingModelFile("model.numshb".to_string()))
    );

    let mut disk = fixture();
    disk.contents
        .animations
        .insert(motion_file("edited.nuanmb"), moving(&["missing_bone"]));
    assert_eq!(
        refusal(&disk, Some("edited.nuanmb")),
        PreparationError::Carrier(CarrierError::UnknownBones {
            animation: "edited.nuanmb".to_string(),
            names: texts(&["missing_bone"]),
        })
    );
}

fn vanilla_only() -> Disk {
    let mut disk = fixture();
    disk.motion.clear();
    for name in ["a00wait1.nuanmb", "motion_list.bin"] {
        disk.vanilla_motion.push((format!("/v/{name}"), 10));
    }
    disk.contents
        .animations
        .insert("/v/a00wait1.nuanmb".to_string(), moving(&["root"]));
    disk.contents.motion_lists.insert(
        "/v/motion_list.bin".to_string(),
        vec![motion("wait", &["a00wait1.nuanmb"])],
    );
    disk
}

#[test]
fn carrier_preparation_fills_missing_motion_from_the_vanilla_dump() {
    // Model-only workspace: the motion imports were never made.
    let mut disk = vanilla_only();
    disk.vanilla_motion.push(("/v/swing.prc".to_string(), 10));
    disk.contents.parameters.insert("/v/swing.prc".to_string(), ());
    let plan = prepared(&disk, None).unwrap();
    assert!(!plan.omitted_swing);
    assert_eq!(
        plan.vanilla_motion_used,
        vec!["a00wait1.nuanmb", "swing.prc"]
    );
    assert_eq!(
        copied_from(find(&plan, "visionary_motion_0000.nuanmb")),
        Some("/v/a00wait1.nuanmb")
    );
    assert_eq!(copied_from(find(&plan, "swing.prc")), Some("/v/swing.prc"));
}

#[test]
fn carrier_preparation_omits_swing_when_neither_side_has_one() {
    // Mario-like dump: animation but no swing.prc anywhere.
    let plan = prepared(&vanilla_only(), None).unwrap();
    assert!(plan.omitted_swing);
    assert_eq!(plan.vanilla_motion_used, vec!["a00wait1.nuanmb"]);
    assert!(copied_from(find(&plan, "visionary_motion_0000.nuanmb")).is_some());
    assert!(matches!(find(&plan, "swing.prc").content, PreparedContent::EmptyParameters));
}

#[test]
fn carrier_preparation_accepts_other_form_materials_from_variant_numatb() {
    let mut disk = fixture();
    // Another form's material lives only in its own variant file.
    disk.contents.descriptors.insert(
        model_file("model.nusrcmdlb"),
        descriptor(&["mesh", "form_mesh"], &["body_mat", "dark_mat"]),
    );
    assert_eq!(
        refusal(&disk, None),
        PreparationError::Carrier(CarrierError::UnknownMaterial {
            descriptor: "model.nusrcmdlb".to_string(),
            material: "dark_mat".to_string(),
        })
    );
    disk.model.push((model_file("dark_model.numatb"), 10));
    disk.contents.materials.insert(
        model_file("dark_model.numatb"),
        vec![material("body_mat", &[]), material("dark_mat", &[])],
    );
    let plan = prepared(&disk, Some("edited.nuanmb")).unwrap();
    let places: Vec<(&str, usize)> = plan
        .materials
        .iter()
        .map(|place| (place.path.as_str(), place.entry))
        .collect();
    assert_eq!(
        places,
        vec![
            (model_file("model.numatb").as_str(), 0),
            (model_file("dark_model.numatb").as_str(), 1),
        ]
    );
    assert!(!plan.omitted_swing);
    assert!(copied_from(find(&plan, "visionary_motion_0000.nuanmb")).is_some());
}

#[test]
fn carrier_preparation_gates_foreign_rigs_against_the_vanilla_skeleton() {
    let mut disk = fixture();
    disk.vanilla_dir = Some("/vm");
    assert_eq!(
        refusal(&disk, None),
        PreparationError::Unreadable("/vm/model.nusktb".to_string())
    );
    disk.contents
        .skeletons
        .insert("/vm/model.nusktb".to_string(), texts(&["root"]));
    assert!(prepared(&disk, Some("edited.nuanmb")).is_ok());
    disk.contents
        .skeletons
        .insert("/vm/model.nusktb".to_string(), texts(&["root", "foreign_rig_bone"]));
    assert_eq!(
        refusal(&disk, Some("edited.nuanmb")),
        PreparationError::Carrier(CarrierError::MissingBones(texts(&["foreign_rig_bone"])))
    );
}

#[test]
fn carrier_textures_use_expanded_graph_and_normalize_extensions() {
    assert_eq!(
        normalized_texture_name("folder/Albedo.NUTEXB").unwrap(),
        "albedo"
    );
    let mut disk = fixture();
    // A complete model can exceed the old nine native slots.
    let names: Vec<String> = (0..12).map(|i| format!("texture{i}")).collect();
    for name in &names {
        disk.model.push((model_file(&format!("{name}.nutexb")), 119));
    }
    disk.contents.materials.insert(
        model_file("model.numatb"),
        vec![Material {
            label: "body_mat".to_string(),
            textures: names,
        }],
    );
    let plan = prepared(&disk, Some("edited.nuanmb")).unwrap();
    assert_eq!(
        plan.files.iter().filter(|f| f.name.ends_with(".nutexb")).count(),
        12
    );
    for (index, texture) in plan.textures[0].iter().enumerate() {
        assert_eq!(texture, &texture_name(index));
    }
}

#[test]
fn carrier_preparation_rejects_material_textures_missing_from_the_folder() {
    let mut disk = fixture();
    disk.contents.materials.insert(
        model_file("model.numatb"),
        vec![material("body_mat", &["custom_diffuse", "ghost_texture"])],
    );
    assert_eq!(
        refusal(&disk, Some("edited.nuanmb")),
        PreparationError::Texture(TextureError::MissingFile {
            reference: "ghost_texture".to_string(),
            file: "ghost_texture.nutexb".to_string(),
        })
    );
}

#[test]
fn preserves_fighter_motion_hashes_aliases_and_gameplay_scripts() {
    let flags = MotionFlags {
        fix_trans: true,
        moves: true,
        loops: true,
        ..plain_flags()
    };
    let list: Vec<MotionEntry> = [("wait", "a00wait1.nuanmb"), ("custom_idle", "a00wait1")]
        .iter()
        .map(|(kind, name)| MotionEntry {
            kind: hash40(kind).0,
            game_script: hash40("game_attack").0,
            flags,
            scripts: vec![hash40("effect_attack").0],
            animations: vec![Animation { name: hash40(name).0, unk: 3 }],
            rest: vec![1, 2, 3],
        })
        .collect();
    let at_hand = files(&[
        ("a00wait1.nuanmb", "/v/a00wait1.nuanmb"),
        ("motion_list.bin", "/v/motion_list.bin"),
    ]);
    let prepared = prepare(&at_hand, &list, &pool()).unwrap();
    assert_eq!(prepared.files.len(), 1);
    assert_eq!(prepared.files[0].0, "visionary_motion_0000.nuanmb");
    let wait = &prepared.list[0];
    let alias = &prepared.list[1];
    assert_eq!(wait.kind, hash40("wait").0);
    assert_eq!(alias.kind, hash40("custom_idle").0);
    assert_eq!(wait.animations[0].name, hash40("visionary_motion_0000.nuanmb").0);
    assert_eq!(alias.animations[0].name, hash40("visionary_motion_0000").0);
    assert_eq!(wait.animations[0].unk, 3);
    assert_eq!(wait.game_script, hash40("game_attack").0);
    assert_eq!(wait.scripts, vec![hash40("effect_attack").0]);
    assert!(wait.flags.fix_trans);
    assert!(wait.flags.loops);
    for motion in &prepared.list {
        assert_eq!(motion.flags, list[0].flags);
        assert_eq!(motion.rest, vec![1, 2, 3]);
    }
    assert!(wait.flags.moves);
    assert_eq!(prepared.motion_path, hash40(&pool().motion_root).0);
    let missing = files(&[("motion_list.bin", "/v/motion_list.bin")]);
    assert_eq!(
        prepare(&missing, &list, &pool()).unwrap_err(),
        MotionError::MissingAnimation {
            kind: hash40("wait").0,
            animation: hash40("a00wait1.nuanmb").0,
        }
    );
}

#[test]
fn motions_may_be_named_by_their_hashes() {
    let list = vec![MotionEntry {
        animations: vec![
            Animation { name: 0xabc123, unk: 1 },
            Animation { name: 0xabc123, unk: 2 },
        ],
        ..motion("k", &[])
    }];
    let at_hand = files(&[
        ("0xABC123.nuanmb", "/v/raw.nuanmb"),
        ("motion_list.bin", "/v/motion_list.bin"),
    ]);
    let prepared = prepare(&at_hand, &list, &pool()).unwrap();
    assert_eq!(
        prepared.list[0].animations,
        vec![
            Animation { name: hash40("visionary_motion_0000.nuanmb").0, unk: 1 },
            Animation { name: hash40("visionary_motion_0000.nuanmb").0, unk: 2 },
        ]
    );
}

#[test]
fn a_motion_graph_needs_its_list_and_its_animations() {
    let nothing = files(&[]);
    assert_eq!(
        prepare(&nothing, &Vec::new(), &pool()).unwrap_err(),
        MotionError::NoMotionList
    );
    let at_hand = files(&[
        ("a.nuanmb", "/v/a.nuanmb"),
        ("b.nuanmb", "/v/b.nuanmb"),
        ("motion_list.bin", "/v/motion_list.bin"),
    ]);
    assert_eq!(
        prepare(&at_hand, &Vec::new(), &pool()).unwrap_err(),
        MotionError::NoAnimations
    );
    let mut small = pool();
    small.motion_capacity = 1;
    assert_eq!(
        prepare(&at_hand, &vec![motion("k", &["a.nuanmb", "b.nuanmb"])], &small).unwrap_err(),
        MotionError::PoolExceeded
    );
    assert!(prepare(&at_hand, &vec![motion("k", &["a.nuanmb", "a"])], &small).is_ok());
}

#[test]
fn pool_names_are_numbered() {
    assert_eq!(texture_name(0), "visionary_tex_0000");
    assert_eq!(texture_name(12345), "visionary_tex_12345");
    assert_eq!(motion_name(42), "visionary_motion_0042.nuanmb");
}

#[test]
fn sizes_are_bounded() {
    assert_eq!(checked_asset_size(1, "x"), Ok(1));
    assert_eq!(
        checked_asset_size(0, "x"),
        Err(CarrierError::EmptyFile("x".to_string()))
    );
    assert_eq!(checked_asset_size(CARRIER_MAX_FILE_SIZE, "x"), Ok(CARRIER_MAX_FILE_SIZE));
    assert_eq!(
        checked_asset_size(CARRIER_MAX_FILE_SIZE + 1, "x"),
        Err(CarrierError::FileTooLarge("x".to_string()))
    );
    let quarter = CARRIER_MAX_TOTAL_SIZE / 4;
    assert_eq!(source_total(&vec![quarter; 4]), Ok(CARRIER_MAX_TOTAL_SIZE));
    assert_eq!(
        source_total(&vec![quarter, quarter, quarter, quarter, 1]),
        Err(CarrierError::BundleTooLarge)
    );
    assert_eq!(
        source_total(&vec![1, 0]),
        Err(CarrierError::EmptyFile("carrier source".to_string()))
    );
}

#[test]
fn a_preview_is_refused_for_the_first_reason() {
    let mut disk = fixture();
    disk.model.clear();
    assert_eq!(
        refusal(&disk, None),
        PreparationError::Carrier(CarrierError::EmptyModelFolder)
    );

    let mut disk = fixture();
    disk.contents.skeletons.insert(model_file("model.nusktb"), Vec::new());
    assert_eq!(refusal(&disk, None), PreparationError::Carrier(CarrierError::NoBones));
    disk.contents.skeletons.remove(&model_file("model.nusktb"));
    assert_eq!(
        refusal(&disk, None),
        PreparationError::Unreadable(model_file("model.nusktb"))
    );

    let mut disk = fixture();
    disk.contents.materials.insert(model_file("model.numatb"), Vec::new());
    assert_eq!(refusal(&disk, None), PreparationError::Carrier(CarrierError::NoMaterials));
    disk.contents.descriptors.insert(
        model_file("model.numdlb"),
        Descriptor {
            material_files: 2,
            meshes: Vec::new(),
            materials: Vec::new(),
        },
    );
    disk.contents
        .materials
        .insert(model_file("model.numatb"), vec![material("m", &[])]);
    assert_eq!(
        refusal(&disk, None),
        PreparationError::Carrier(CarrierError::MaterialFiles {
            descriptor: "model.numdlb".to_string(),
            count: 2,
        })
    );

    let mut disk = fixture();
    disk.motion.retain(|(path, _)| !path.ends_with("motion_list.bin"));
    assert_eq!(
        refusal(&disk, None),
        PreparationError::Motion(MotionError::NoMotionList)
    );

    let mut disk = fixture();
    disk.contents.parameters.remove(&motion_file("swing.prc"));
    assert_eq!(
        refusal(&disk, None),
        PreparationError::Unreadable(motion_file("swing.prc"))
    );

    let mut disk = fixture();
    disk.model.pop();
    disk.model.push((model_file("custom_diffuse.nutexb"), 0));
    assert_eq!(
        refusal(&disk, None),
        PreparationError::Carrier(CarrierError::EmptyFile("carrier source".to_string()))
    );
}

#[test]
fn the_fighters_own_motions_may_move_more_than_its_body() {
    let mut disk = vanilla_only();
    disk.vanilla_motion.push(("/v/b.nuanmb".to_string(), 10));
    disk.contents
        .animations
        .insert("/v/b.nuanmb".to_string(), moving(&["prop"]));
    disk.contents.motion_lists.insert(
        "/v/motion_list.bin".to_string(),
        vec![motion("wait", &["a00wait1.nuanmb", "b"])],
    );
    assert!(prepared(&disk, None).is_ok());
    disk.motion.push((motion_file("b.nuanmb"), 10));
    disk.contents
        .animations
        .insert(motion_file("b.nuanmb"), moving(&["prop"]));
    assert_eq!(
        refusal(&disk, None),
        PreparationError::Carrier(CarrierError::UnknownBones {
            animation: "visionary_motion_0001.nuanmb".to_string(),
            names: texts(&["prop"]),
        })
    );
}

#[test]
fn the_shown_motion_is_chosen_or_found() {
    let at_hand = files(&[
        ("a00wait1.nuanmb", "1"),
        ("attack.nuanmb", "2"),
        ("model.nuanmb", "3"),
        ("swing.prc", "4"),
    ]);
    assert_eq!(choose_motion(None, &at_hand).as_deref(), Ok("a00wait1.nuanmb"));
    assert_eq!(choose_motion(Some("  "), &at_hand).as_deref(), Ok("a00wait1.nuanmb"));
    assert_eq!(choose_motion(Some(" Attack.NUANMB "), &at_hand).as_deref(), Ok("attack.nuanmb"));
    assert_eq!(
        choose_motion(Some("a/b.nuanmb"), &at_hand),
        Err(CarrierError::AnimationIsPath("a/b.nuanmb".to_string()))
    );
    assert_eq!(
        choose_motion(Some("model.nuanmb"), &at_hand),
        Err(CarrierError::NotAMotion("model.nuanmb".to_string()))
    );
    assert_eq!(
        choose_motion(Some("gone.nuanmb"), &at_hand),
        Err(CarrierError::MotionNotFound("gone.nuanmb".to_string()))
    );
    assert_eq!(
        choose_motion(None, &files(&[("swing.prc", "4")])),
        Err(CarrierError::NoMotion)
    );
    let wait = files(&[("a00wait1.nuanmb", "1"), ("wait.nuanmb", "2")]);
    assert_eq!(choose_motion(None, &wait).as_deref(), Ok("wait.nuanmb"));
}

#[test]
fn model_files_are_found_by_name_or_by_kind() {
    let one = files(&[("custom.numdlb", "/c"), ("x.nutexb", "/x")]);
    assert_eq!(source_for_model_file(&one, "model.numdlb").unwrap().path, "/c");
    let two = files(&[("a.numdlb", "/a"), ("b.numdlb", "/b")]);
    assert!(matches!(
        source_for_model_file(&two, "model.numdlb"),
        Err(CarrierError::AmbiguousModelFile(_))
    ));
    let exact = files(&[("a.numdlb", "/a"), ("model.numdlb", "/m")]);
    assert_eq!(source_for_model_file(&exact, "model.numdlb").unwrap().path, "/m");
}

#[test]
fn eight_bones_are_named_at_most() {
    let vanilla: Vec<String> = (0..12).rev().map(|i| format!("bone{i:02}")).collect();
    match check_rig(&texts(&["root"]), Some(&vanilla)) {
        Err(CarrierError::MissingBones(names)) => {
            assert_eq!(names.len(), 8);
            assert_eq!(names[0], "bone00");
        }
        other => panic!("bones are missing: {other:?}"),
    }
    let nodes = moving(&["z", "a", "z"]);
    assert_eq!(
        validate_animation_bones("x.nuanmb", &nodes, &texts(&["root"])),
        Err(CarrierError::UnknownBones {
            animation: "x.nuanmb".to_string(),
            names: texts(&["a", "z"]),
        })
    );
    assert_eq!(validate_animation_bones("x", &nodes, &texts(&["z"])), Ok(()));
    assert_eq!(validate_animation_bones("x", &Vec::new(), &texts(&["root"])), Ok(()));
    // Only groups that move their nodes count.
    let hiding = vec![NodeGroup { is_transform: false, nodes: texts(&["z"]) }];
    assert_eq!(validate_animation_bones("x", &hiding, &texts(&["root"])), Ok(()));
    let both = vec![
        NodeGroup { is_transform: false, nodes: texts(&["root"]) },
        NodeGroup { is_transform: true, nodes: texts(&["y"]) },
    ];
    assert_eq!(
        validate_animation_bones("x", &both, &texts(&["root"])),
        Err(CarrierError::UnknownBones { animation: "x".to_string(), names: texts(&["y"]) })
    );
    let mut known = texts(&["a"]);
    assert_eq!(merge_material_labels(&mut known, &texts(&["a", "b", "b", "c"])), vec![1, 3]);
    assert_eq!(known, texts(&["a", "b", "c"]));
}

#[test]
fn texture_references() {
    assert_eq!(normalized_texture_name("").unwrap_err(), TextureError::EmptyReference);
    let at_hand = files(&[("body.nutexb", "/m/body.nutexb")]);
    assert_eq!(texture_source(&at_hand, "Folder\\Body").unwrap().path, "/m/body.nutexb");
    let plan = carrier_texture_outputs(
        &vec![texts(&["body", "#replace_cubemap", "BODY.nutexb"])],
        &at_hand,
        1,
    )
    .unwrap();
    assert_eq!(
        plan.materials,
        vec![texts(&["visionary_tex_0000", "#replace_cubemap", "visionary_tex_0000"])]
    );
    assert_eq!(plan.outputs.len(), 1);
    assert!(matches!(
        carrier_texture_outputs(&vec![texts(&["body"])], &at_hand, 0),
        Err(TextureError::PoolExceeded)
    ));
}

#[test]
fn a_texture_keeps_its_picture() {
    let mut footer: Vec<u8> = (0..FOOTER_LEN).map(|i| i as u8).collect();
    assert_eq!(rename_carrier_texture(&footer, "x"), Err(FooterError::NoFooter));
    footer[..4].copy_from_slice(b" XNT");
    footer[104..108].copy_from_slice(b" XET");
    let renamed = rename_carrier_texture(&footer, "x").unwrap();
    assert_eq!(renamed[4], b'x');
    assert!(renamed[5..68].iter().all(|b| *b == 0));
    assert_eq!(renamed[68..], footer[68..]);
    assert_eq!(renamed[..4], footer[..4]);
    assert!(can_hold_texture(112, "x"));
    assert!(!can_hold_texture(111, "x"));
    assert!(!can_hold_texture(112, &"n".repeat(64)));
    assert_eq!(rename_carrier_texture(&footer, &"n".repeat(64)), Err(FooterError::Invalid));
}

#[test]
fn a_bundle_is_listed_by_game_path() {
    let mut builder = BundleBuilder::new();
    let file = |name: &str| WorkspaceAssetFile {
        workspace_path: format!("/o/{name}"),
        game_path: name.to_string(),
    };
    builder.add(file("b"), 5).unwrap();
    builder.add(file("a"), CARRIER_MAX_TOTAL_SIZE - 5).unwrap();
    assert_eq!(builder.add(file("c"), 1), Err(CarrierError::BundleTooLarge));
    let bundle = builder.finish(texts(&["x"]), true, 2);
    assert_eq!(bundle.files, vec![file("a"), file("b")]);
    assert_eq!(bundle.stripped_lod_meshes, 2);
    let plan = prepared(&fixture(), None).unwrap();
    assert_eq!(
        planned_output("/out", "mario", 0, find(&plan, "model.xmb")).game_path,
        "fighter/mario/model/body/c00/model.xmb"
    );
}

#[test]
fn the_fighters_own_model_files_never_stand_in() {
    for &missing in &carrier_model_files() {
        let mut disk = fixture();
        disk.vanilla_dir = Some("/v/model");
        for name in carrier_model_files() {
            disk.vanilla_model.push((format!("/v/model/{name}"), 10));
        }
        disk.contents
            .skeletons
            .insert("/v/model/model.nusktb".to_string(), texts(&["root"]));
        assert!(prepared(&disk, None).is_ok());
        disk.model.retain(|(path, _)| path != &model_file(missing));
        if missing == "model.nuanmb" {
            let plan = prepared(&disk, None).unwrap();
            assert!(matches!(find(&plan, missing).content, PreparedContent::EmptyAnimation));
        } else {
            assert_eq!(
                refusal(&disk, None),
                PreparationError::Carrier(CarrierError::MissingModelFile(missing.to_string()))
            );
        }
    }
    // A folder without any model file is refused as such.
    let mut disk = fixture();
    disk.model.clear();
    disk.vanilla_model.push(("/v/model/model.nusktb".to_string(), 10));
    assert_eq!(
        refusal(&disk, None),
        PreparationError::Carrier(CarrierError::EmptyModelFolder)
    );
    // Nor do its textures.
    let mut disk = fixture();
    disk.model.retain(|(path, _)| !path.ends_with(".nutexb"));
    disk.vanilla_model.push(("/v/model/custom_diffuse.nutexb".to_string(), 10));
    assert!(matches!(
        refusal(&disk, None),
        PreparationError::Texture(TextureError::MissingFile { .. })
    ));
}

#[test]
fn the_animations_of_a_plan_are_those_of_its_graph() {
    let plan = prepared(&fixture(), None).unwrap();
    assert_eq!(plan.motions.files.len(), 1);
    assert_eq!(plan.motions.files[0].0, "visionary_motion_0000.nuanmb");
    assert_eq!(plan.motions.files[0].1.path, motion_file("edited.nuanmb"));
}

#[test]
fn a_finished_bundle_is_in_strict_order() {
    let mut disk = vanilla_only();
    disk.contents.materials.insert(
        model_file("model.numatb"),
        vec![material("body_mat", &["custom_diffuse", "second"])],
    );
    disk.model.push((model_file("second.nutexb"), 119));
    let costume = gather(&disk);
    let plan = prepared(&disk, None).unwrap();
    let mut builder = BundleBuilder::new();
    for file in &plan.files {
        builder.add(planned_output("/out", &costume.fighter, 0, file), 1).unwrap();
    }
    let bundle = builder.finish(Vec::new(), false, 0);
    assert_eq!(bundle.files.len(), plan.files.len());
    for pair in bundle.files.windows(2) {
        assert!(pair[0].game_path < pair[1].game_path);
    }
}
