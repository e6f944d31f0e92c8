use std::collections::HashMap;
use std::io::Cursor;

use nutexb::NutexbFile;
use visionary::pool::{
    support_config, support_model_files, support_motion_files, ResourcePool,
};
use visionary::support::{
    install, is_installed, SupportContent, SUPPORT_INFO, SUPPORT_MARKER, SUPPORT_ROOT,
};

fn pool() -> ResourcePool {
    ResourcePool {
        version: "1".to_string(),
        model_root: "fighter/alucard/model".to_string(),
        motion_root: "fighter/alucard/motion".to_string(),
        texture_capacity: 64,
        motion_capacity: 512,
    }
}

/// A card that exists only here.
type Card = HashMap<String, SupportContent>;

/// Installs the package, up to so many files. Says where it is and how many files are due.
fn install_on(card: &mut Card, pool: &ResourcePool, limit: usize) -> (String, usize) {
    let has_config = card.contains_key(&format!("{SUPPORT_ROOT}/config.json"));
    let marker = match card.get(SUPPORT_MARKER) {
        Some(SupportContent::Text(text)) => Some(text.clone()),
        _ => None,
    };
    let plan = install(has_config, marker.as_deref(), pool).unwrap();
    let due = plan.writes.len();
    for file in plan.writes.into_iter().take(limit) {
        card.insert(file.path, file.content);
    }
    (plan.root, due)
}

fn words<'a>(card: &'a Card, path: &str) -> &'a str {
    match card.get(path) {
        Some(SupportContent::Text(text)) => text,
        other => panic!("no text: {other:?}"),
    }
}

#[test]
fn support_package_has_parseable_independent_resources_and_directory_membership() {
    let pool = pool();
    let mut card = Card::new();
    let (root, due) = install_on(&mut card, &pool, usize::MAX);
    assert_eq!(root, "ultimate/mods/visionary_live_assets");
    assert_eq!(due, 64 + 512 + 5);
    assert_eq!(card.len(), due);
    let config: serde_json::Value =
        serde_json::from_str(words(&card, &format!("{root}/config.json"))).unwrap();
    let entries = &config["new-dir-files"];
    assert_eq!(
        entries[&pool.model_root].as_array().unwrap().len(),
        pool.texture_capacity
    );
    assert_eq!(
        entries[&pool.motion_root].as_array().unwrap().len(),
        pool.motion_capacity + 2
    );
    for (directory, last) in [
        (&pool.model_root, pool.texture_capacity - 1),
        (&pool.motion_root, pool.motion_capacity - 1),
    ] {
        for index in [0, last] {
            let path = format!("{root}/{}", entries[directory][index].as_str().unwrap());
            match card.get(&path) {
                Some(SupportContent::Texture(bytes)) => {
                    assert_eq!(directory, &pool.model_root);
                    let texture = NutexbFile::read(&mut Cursor::new(bytes)).unwrap();
                    assert_eq!(texture.deswizzled_data().unwrap(), [255u8; 4]);
                    assert_eq!(
                        texture.footer.string.to_string(),
                        format!("visionary_tex_{index:04}")
                    );
                }
                Some(SupportContent::EmptyAnimation) => assert_eq!(directory, &pool.motion_root),
                other => panic!("{path} holds {other:?}"),
            }
        }
    }
    assert!(matches!(
        card.get(&format!("{root}/fighter/alucard/motion/ik.prc")),
        Some(SupportContent::EmptyParameters)
    ));
    assert_eq!(words(&card, &format!("{root}/info.toml")), SUPPORT_INFO);
    assert_eq!(words(&card, "effect_viewer/live_assets/pool.version"), "1");
    // A complete package is left alone.
    assert_eq!(install_on(&mut card, &pool, usize::MAX), (root, 0));
}

#[test]
fn the_config_names_every_file() {
    let pool = pool();
    let config = support_config(&pool);
    assert!(config.starts_with("{\n  \"new-dir-files\": {\n"));
    let value: serde_json::Value = serde_json::from_str(&config).unwrap();
    assert_eq!(
        value["new-dir-files"][&pool.model_root][0],
        "fighter/alucard/model/visionary_tex_0000.nutexb"
    );
    assert_eq!(
        value["new-dir-files"][&pool.motion_root][511],
        "fighter/alucard/motion/visionary_motion_0511.nuanmb"
    );
    assert_eq!(support_model_files(&pool).len(), 64);
    let motions = support_motion_files(&pool);
    assert_eq!(motions[512], "fighter/alucard/motion/swingblend.prc");
    assert_eq!(motions[513], "fighter/alucard/motion/ik.prc");
}

#[test]
fn an_interrupted_installation_is_done_again() {
    let pool = ResourcePool { texture_capacity: 2, motion_capacity: 1, ..pool() };
    let whole = install(false, None, &pool).unwrap().writes.len();
    assert_eq!(whole, 8);
    for limit in 0..whole {
        let mut card = Card::new();
        card.insert(SUPPORT_MARKER.to_string(), SupportContent::Text("0".to_string()));
        install_on(&mut card, &pool, limit);
        assert_eq!(install_on(&mut card, &pool, usize::MAX).1, whole);
        assert_eq!(install_on(&mut card, &pool, usize::MAX).1, 0);
    }
}

#[test]
fn only_the_package_is_written() {
    let plan = install(true, None, &pool()).unwrap();
    let (marker, rest) = plan.writes.split_last().unwrap();
    assert_eq!(marker.path, SUPPORT_MARKER);
    assert!(rest.iter().all(|f| f.path.starts_with("ultimate/mods/visionary_live_assets/")));
}

#[test]
fn a_complete_package_has_its_config_and_its_version() {
    let pool = pool();
    assert!(is_installed(true, Some("1"), &pool));
    assert!(!is_installed(false, Some("1"), &pool));
    assert!(!is_installed(true, Some("0"), &pool));
    assert!(!is_installed(true, Some("1\n"), &pool));
    assert!(!is_installed(true, None, &pool));
}
