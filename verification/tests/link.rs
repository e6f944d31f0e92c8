use serde_json::Value;
use visionary::events::Event;
use visionary::float::FloatBits;
use visionary::frames::extract_frames;
use visionary::link::{GameLink, LinkStatus};
use visionary::json::Form;
use visionary::link::reading::AssetBundleStatus;
use visionary::link::sending::ModifierTexts;
use visionary::wire::{
    AssetBundleFileWire, AssetBundleWire, CaptureDebugSnapshot, CaptureLine, Color, DonorBytesWire,
    DonorEffWire, EffectAliasWire, LuaArgWire, PinsWire, Point3D, RpmEffectData,
};

const NOW: u64 = 1_000_000_000;

fn bits(x: f32) -> FloatBits {
    FloatBits(x.to_bits())
}

fn float(bits: FloatBits) -> f32 {
    f32::from_bits(bits.0)
}

fn number(value: &Value) -> FloatBits {
    bits(value.as_f64().unwrap() as f32)
}

/// A frame as the plugin emits it: the body is a JSON text inside a JSON string.
fn plugin_frame(header: &str, body: &str) -> String {
    let body = serde_json::to_string(body).unwrap();
    format!("<TCP_MESSAGE>{{\"header\":\"{header}\",\"body\":{body}}}</TCP_MESSAGE>")
}

fn read_arg(value: &Value) -> LuaArgWire {
    let v = &value["v"];
    match value["t"].as_str().unwrap() {
        "h" => LuaArgWire::Hash(v.as_u64().unwrap()),
        "n" => LuaArgWire::Num(number(v)),
        "i" => LuaArgWire::Int(v.as_i64().unwrap()),
        "b" => LuaArgWire::Bool(v.as_bool().unwrap()),
        _ => LuaArgWire::Nil,
    }
}

fn read_line(text: &str) -> CaptureLine {
    let value: Value = serde_json::from_str(text).unwrap();
    CaptureLine {
        kind: value["kind"].as_i64().unwrap() as i32,
        motion: value["motion"].as_u64().unwrap(),
        frame: number(&value["frame"]),
        func: value["func"].as_str().unwrap().to_string(),
        args: value["args"].as_array().unwrap().iter().map(read_arg).collect(),
        run: value["run"].as_u64().unwrap_or(0) as u32,
        common: value["common"].as_bool().unwrap_or(false),
    }
}

fn read_row(text: &str) -> CaptureDebugSnapshot {
    let value: Value = serde_json::from_str(text).unwrap();
    let count = |name: &str| value[name].as_u64().unwrap_or(0);
    CaptureDebugSnapshot {
        kind: value["kind"].as_i64().unwrap() as i32,
        motion: value["motion"].as_u64().unwrap(),
        attempted: count("attempted"),
        succeeded: count("succeeded"),
        contention: count("contention"),
        claim_conflicts: count("claim_conflicts"),
        duplicates: count("duplicates"),
        last_frame: number(&value["last_frame"]),
    }
}

fn read_data(form: &Form) -> RpmEffectData {
    let text = match form {
        Form::Embedded(text) | Form::Nested(text) => text,
    };
    let value: Value = serde_json::from_str(text).unwrap();
    RpmEffectData {
        effect_name: value["effect_name"].as_str().unwrap().to_string(),
        scale: number(&value["scale"]),
        ..Default::default()
    }
}

fn feed(link: &mut GameLink, frames: &[String]) {
    for frame in frames {
        let mut buf = frame.clone();
        for payload in extract_frames(&mut buf) {
            match link.handle_frame(&payload, NOW) {
                Event::Capture { line } => link.on_capture(read_line(&line)),
                Event::CaptureDebug { row } => link.on_capture_debug(read_row(&row)),
                Event::Notify { id, name, value, .. } => {
                    link.on_notify(id, name, read_data(&value), None, NOW)
                }
                _ => {}
            }
        }
    }
}

const ATTACK_ARGS: &str = r#"[
    {"t":"i","v":0}, {"t":"i","v":0}, {"t":"h","v":13402447818},
    {"t":"n","v":8.0}, {"t":"i","v":361}, {"t":"i","v":100},
    {"t":"i","v":0}, {"t":"i","v":40}, {"t":"n","v":4.0},
    {"t":"n","v":0.0}, {"t":"n","v":8.0}, {"t":"n","v":6.0},
    {"t":"x","v":null}
]"#;

/// A capture line without a run, as older plugins send it.
fn capture_frame(kind: i32, motion: u64, frame: f32) -> String {
    plugin_frame(
        "AcmdCapture",
        &format!(
            "{{\"AcmdCapture\":{{\"kind\":{kind},\"motion\":{motion},\"frame\":{frame:?},\
             \"func\":\"ATTACK\",\"args\":{ATTACK_ARGS}}}}}"
        ),
    )
}

/// A capture line of one performance of a move.
fn capture_run(kind: i32, motion: u64, frame: f32, run: u32, effect: u64) -> String {
    plugin_frame(
        "AcmdCapture",
        &format!(
            "{{\"AcmdCapture\":{{\"kind\":{kind},\"motion\":{motion},\"frame\":{frame:?},\
             \"func\":\"EFFECT_FOLLOW\",\"run\":{run},\
             \"args\":[{{\"t\":\"h\",\"v\":{effect}}},{{\"t\":\"h\",\"v\":2}}]}}}}"
        ),
    )
}

fn capture_end(kind: i32, motion: u64, run: u32) -> String {
    plugin_frame(
        "AcmdCaptureEnd",
        &format!(
            "{{\"AcmdCaptureEnd\":{{\"kind\":{kind},\"motion\":{motion},\"run\":{run}}}}}"
        ),
    )
}

fn status_report(
    generation: u64,
    serving_generation: Option<u64>,
    target: &str,
    staged: usize,
    served: usize,
    activation: &str,
    phase: Option<(&str, bool)>,
) -> String {
    let mut fields = format!(
        "\"target\":\"{target}\",\"generation\":{generation},\"staged\":{staged},\
         \"served\":{served},\"activation\":\"{activation}\""
    );
    if let Some(serving) = serving_generation {
        fields.push_str(&format!(",\"serving_generation\":{serving}"));
    }
    if let Some((phase, ready)) = phase {
        fields.push_str(&format!(",\"phase\":\"{phase}\",\"ready\":{ready}"));
    }
    plugin_frame(
        "AssetBundleStatus",
        &format!("{{\"AssetBundleStatus\":{{{fields}}}}}"),
    )
}

/// The payload of a frame, read as JSON.
fn payload_of(frame: &str) -> Value {
    let inner = &frame["<TCP_MESSAGE>".len()..frame.len() - "</TCP_MESSAGE>".len()];
    serde_json::from_str(inner).unwrap()
}

fn texts(speed: &str, red: &str, scale: &str) -> ModifierTexts {
    ModifierTexts {
        speed: speed.to_string(),
        red: red.to_string(),
        green: "1.0".to_string(),
        blue: "1.0".to_string(),
        alpha: "1.0".to_string(),
        scale: scale.to_string(),
    }
}

#[test]
fn parses_notify_remove_and_torn_frames() {
    let mut link = GameLink::default();
    let value = serde_json::to_string(r#"{"effect_name":"sys_flyroll_smoke","scale":1.2}"#).unwrap();
    let notify = plugin_frame(
        "Notify",
        &format!(
            "{{\"Notify\":{{\"id\":{},\"name\":\"sys_flyroll_smoke\",\"value_in_json\":{value}}}}}",
            0x1154cb72bfu64
        ),
    );
    let handshake = "<TCP_MESSAGE>{\"header\":\"RemoveAll\",\"body\":\"{}\"}</TCP_MESSAGE>";

    // Feed the stream in torn chunks like a real socket would.
    let stream = format!("{handshake}{notify}");
    let (a, b) = stream.split_at(stream.len() / 2);
    let mut buf = String::new();
    for part in [a, b] {
        buf.push_str(part);
        for payload in extract_frames(&mut buf) {
            if let Event::Notify { id, name, value, pins } = link.handle_frame(&payload, NOW) {
                assert!(pins.is_none());
                link.on_notify(id, name, read_data(&value), None, NOW);
            }
        }
    }

    let kind = link.kind(0x1154cb72bf).expect("kind parsed");
    assert_eq!(kind.name, "sys_flyroll_smoke");
    assert!((float(kind.data.scale) - 1.2).abs() < 1e-6);
    assert_eq!(kind.first.scale, kind.data.scale);

    feed(
        &mut link,
        &[plugin_frame(
            "Remove",
            &format!("{{\"Remove\":{{\"id\":{}}}}}", 0x1154cb72bfu64),
        )],
    );
    assert!(link.kinds().is_empty());
}

#[test]
fn acmd_capture_parses_from_plugin_emit_form() {
    let mut link = GameLink::default();
    feed(&mut link, &[capture_frame(0, 0x1234, 3.0)]);
    let lines = link.all_captures();
    assert_eq!(lines.len(), 1);
    assert_eq!(lines[0].0, 0x1234);
    let line = &lines[0].1;
    assert_eq!(line.func, "ATTACK");
    assert_eq!(line.args[2].as_hash(), Some(0x031ed91fca));
    assert!(matches!(line.args[3], LuaArgWire::Num(n) if float(n) == 8.0));
    assert_eq!(line.args[12], LuaArgWire::Nil);
    assert_eq!(link.captures_seq(), 1);

    // Re-delivery (reconnect resend) must not duplicate.
    feed(&mut link, &[capture_frame(0, 0x1234, 3.0)]);
    assert_eq!(link.all_captures().len(), 1);
}

/// The same spawn seen on a second performance arrives with a slightly different frame. It is
/// still one spawn.
#[test]
fn a_replayed_capture_line_is_not_a_second_spawn() {
    let mut link = GameLink::default();
    let line = |frame: f64| {
        plugin_frame(
            "AcmdCapture",
            &format!(
                "{{\"AcmdCapture\":{{\"kind\":8,\"motion\":{},\"frame\":{frame:?},\
                 \"func\":\"EFFECT_FOLLOW\",\
                 \"args\":[{{\"t\":\"h\",\"v\":1}},{{\"t\":\"h\",\"v\":2}}]}}}}",
                0x1234
            ),
        )
    };
    for frame in [5.0, 5.000_002, 4.999_998] {
        feed(&mut link, &[line(frame)]);
    }
    assert_eq!(
        link.all_captures().len(),
        1,
        "one spawn observed three times is still one spawn"
    );

    // A genuinely different frame is still its own spawn — multi-hit moves depend on it.
    feed(&mut link, &[line(9.0)]);
    assert_eq!(link.all_captures().len(), 2);
}

#[test]
fn clearing_captures_empties_every_motion() {
    let mut link = GameLink::default();
    link.on_capture(CaptureLine {
        kind: 8,
        motion: 0x1234,
        frame: bits(1.0),
        func: "ATTACK".into(),
        args: Vec::new(),
        run: 1,
        common: false,
    });
    feed(&mut link, &[capture_end(8, 0x1234, 1)]);
    assert_eq!(link.capture_end_count(0x1234, Some(8)), 1);
    assert_eq!(link.latest_run_for(0x1234, None).len(), 1);
    link.clear_captures();
    assert!(link.latest_run_for(0x1234, None).is_empty());
    assert_eq!(link.capture_end_count(0x1234, Some(8)), 0);
    assert!(link
        .take_pending()
        .last()
        .is_some_and(|frame| frame.contains("\"command\":\"clear_acmd_captures\"")));

    // A line already in flight may arrive after the local clear. The plugin's game-thread
    // acknowledgement is the ordering barrier that removes it again.
    feed(&mut link, &[capture_frame(8, 0x1234, 9.0)]);
    assert_eq!(link.latest_run_for(0x1234, Some(8)).len(), 1);
    feed(
        &mut link,
        &[plugin_frame(
            "AcmdCaptureCleared",
            "{\"AcmdCaptureCleared\":true}",
        )],
    );
    assert!(link.latest_run_for(0x1234, Some(8)).is_empty());
}

#[test]
fn forgetting_one_capture_kind_does_not_clear_or_reaccept_other_kinds() {
    let mut link = GameLink::default();
    link.forget_captures_for_kind(8);
    feed(
        &mut link,
        &[capture_frame(8, 0x1234, 3.0), capture_frame(9, 0x1234, 3.0)],
    );
    assert!(link.latest_run_for(0x1234, Some(8)).is_empty());
    assert_eq!(link.latest_run_for(0x1234, Some(9)).len(), 1);
    assert!(
        link.take_pending().is_empty(),
        "fighter-scoped forgetting must not issue a global capture clear"
    );

    link.restore_captures_for_kind(8);
    feed(&mut link, &[capture_frame(8, 0x1234, 3.0)]);
    assert_eq!(link.latest_run_for(0x1234, Some(8)).len(), 1);
}

/// The first playback owns the snapshot. Later runs cannot merge into or replace it.
#[test]
fn only_the_first_performance_of_a_move_is_accepted() {
    let mut link = GameLink::default();
    // Run 7: two spawns. Run 9: a different second spawn (the other branch).
    feed(
        &mut link,
        &[
            capture_run(8, 0x1234, 3.0, 7, 0xAA),
            capture_run(8, 0x1234, 9.0, 7, 0xBB),
            capture_run(8, 0x1234, 3.0, 9, 0xAA),
            capture_run(8, 0x1234, 9.0, 9, 0xCC),
        ],
    );

    let loaded = link.latest_run_for(0x1234, Some(8));
    assert_eq!(loaded.len(), 2, "one performance, not the union of two");
    assert!(loaded.iter().all(|l| l.run == 7));
    let effects: Vec<u64> = loaded
        .iter()
        .filter_map(|l| l.args.first().and_then(|a| a.as_hash()))
        .collect();
    assert_eq!(
        effects,
        vec![0xAA, 0xBB],
        "later activity must not replace the locked branch"
    );

    // The settle window watches the claimed run only.
    assert_eq!(link.captures_count(0x1234, Some(8)), 2);
    assert_eq!(link.latest_run_id(0x1234, Some(8)), Some(7));
}

#[test]
fn a_newer_run_from_another_fighter_does_not_win() {
    let mut link = GameLink::default();
    feed(
        &mut link,
        &[
            capture_run(8, 0x1234, 3.0, 4, 0xAA),
            // Higher run id, different fighter kind.
            capture_run(9, 0x1234, 3.0, 12, 0xFF),
        ],
    );
    let loaded = link.latest_run_for(0x1234, Some(8));
    assert_eq!(loaded.len(), 1);
    assert_eq!(loaded[0].args[0].as_hash(), Some(0xAA));
}

/// Repeated later runs are rejected at ingestion rather than merely hidden at load time.
#[test]
fn later_runs_never_enter_the_capture_store() {
    let mut link = GameLink::default();
    for run in 1..=6u32 {
        feed(&mut link, &[capture_run(8, 0x1234, 3.0, run, 0xAA)]);
    }
    let runs: std::collections::BTreeSet<u32> =
        link.all_captures().iter().map(|(_, l)| l.run).collect();
    assert_eq!(
        runs.into_iter().collect::<Vec<_>>(),
        vec![1],
        "only the first claimed run is retained"
    );
}

/// A plugin build without run ids sends no `run` field at all. Everything then shares run 0.
#[test]
fn captures_without_run_ids_still_load() {
    let mut link = GameLink::default();
    feed(
        &mut link,
        &[capture_frame(8, 0x1234, 3.0), capture_frame(8, 0x1234, 9.0)],
    );
    assert_eq!(link.latest_run_for(0x1234, Some(8)).len(), 2);
}

#[test]
fn capture_debug_snapshots_replace_the_matching_character_motion_row() {
    let mut link = GameLink::default();
    let debug = |attempted: u64, succeeded: u64, contention: u64| {
        plugin_frame(
            "AcmdCaptureDebug",
            &format!(
                "{{\"AcmdCaptureDebug\":{{\"kind\":{},\"motion\":{},\"attempted\":{attempted},\
                 \"succeeded\":{succeeded},\"contention\":{contention},\"claim_conflicts\":1,\
                 \"duplicates\":2,\"last_frame\":14.0}}}}",
                0x18, 0x1234
            ),
        )
    };

    feed(&mut link, &[debug(4, 1, 0), debug(9, 3, 3)]);
    assert_eq!(
        link.capture_debug(),
        vec![CaptureDebugSnapshot {
            kind: 0x18,
            motion: 0x1234,
            attempted: 9,
            succeeded: 3,
            contention: 3,
            claim_conflicts: 1,
            duplicates: 2,
            last_frame: bits(14.0),
        }]
    );
    assert_eq!(link.capture_debug()[0].failed(), 4);

    link.clear_captures();
    assert!(link.capture_debug().is_empty());
}

/// The end of a move is counted per fighter kind and motion, and is no capture line.
#[test]
fn acmd_capture_end_counts_per_kind_and_motion() {
    let mut link = GameLink::default();
    assert_eq!(link.capture_end_count(0x1234, Some(8)), 0);
    feed(&mut link, &[capture_frame(8, 0x1234, 3.0)]);
    // An end marker from another playback cannot complete the claimed run.
    feed(&mut link, &[capture_end(8, 0x1234, 9)]);
    assert_eq!(link.capture_end_count(0x1234, Some(8)), 0);
    feed(&mut link, &[capture_end(8, 0x1234, 0)]);
    assert_eq!(link.capture_end_count(0x1234, Some(8)), 1);
    assert!(link.capture_run_complete(Some(8), 0x1234, 0));
    // The marker is not a capture line.
    assert_eq!(link.latest_run_for(0x1234, None).len(), 1);

    // An end from a different fighter cannot complete this fighter's snapshot.
    feed(&mut link, &[capture_end(9, 0x1234, 12)]);
    assert_eq!(link.capture_end_count(0x1234, Some(8)), 1);
    // No line claimed kind 9/run 12, so its unrelated end is ignored.
    assert_eq!(link.capture_end_count(0x1234, Some(9)), 0);
    assert_eq!(link.capture_end_count(0x1234, None), 1);

    // A duplicate end for the same run cannot complete the snapshot twice.
    feed(&mut link, &[capture_end(8, 0x1234, 0)]);
    assert_eq!(link.capture_end_count(0x1234, Some(8)), 1);
    // Unrelated motions stay at zero.
    assert_eq!(link.capture_end_count(0x5678, Some(8)), 0);
}

#[test]
fn captures_count_filters_by_kind_and_motion() {
    let mut link = GameLink::default();
    feed(
        &mut link,
        &[
            capture_frame(8, 0x1234, 3.0),
            capture_frame(8, 0x1234, 5.0),
            capture_frame(9, 0x1234, 3.0),
            capture_frame(8, 0x5678, 3.0),
        ],
    );
    assert_eq!(link.captures_count(0x1234, Some(8)), 2);
    assert_eq!(link.captures_count(0x1234, Some(9)), 1);
    assert_eq!(link.captures_count(0x1234, None), 3);
    assert_eq!(link.captures_count(0x5678, Some(8)), 1);
    assert_eq!(link.captures_count(0xdead, Some(8)), 0);
}

#[test]
fn outbound_effect_aliases_match_plugin_field_names() {
    let mut link = GameLink::default();
    link.send_effect_aliases(&vec![
        EffectAliasWire {
            from: 0x111,
            to: 0x222,
            slots: vec![],
        },
        EffectAliasWire {
            from: 0x333,
            to: 0x444,
            slots: vec![1, 3],
        },
    ]);
    let v = payload_of(&link.take_pending()[0]);
    let aliases = v.get("effect_aliases").and_then(|a| a.as_array()).unwrap();
    assert_eq!(aliases[0]["from"].as_u64(), Some(0x111));
    assert_eq!(aliases[0]["to"].as_u64(), Some(0x222));
    // Empty slots mean all costumes, and are left out.
    assert!(aliases[0].get("slots").is_none());
    assert_eq!(aliases[1]["slots"][0].as_u64(), Some(1));
    assert_eq!(aliases[1]["slots"][1].as_u64(), Some(3));
}

#[test]
fn outbound_live_tweak_omits_spawn_transform_fields() {
    let mut link = GameLink::default();
    link.send_modifier_edit(0x1311e844a4, &texts("1.25", "0.5", "0.7"), false);

    let outer = payload_of(&link.take_pending()[0]);
    assert_eq!(outer["id"].as_u64(), Some(0x1311e844a4));
    let edit: Value = serde_json::from_str(outer["newValue"].as_str().unwrap()).unwrap();
    assert_eq!(edit["speed"].as_f64(), Some(1.25));
    assert_eq!(edit["rainbow"]["color"]["red"].as_f64(), Some(0.5));
    assert!(edit.get("pos").is_none());
    assert!(edit.get("rot").is_none());
    assert!(edit.get("scale").is_none());
}

#[test]
fn outbound_authored_modifiers_only_add_scale() {
    let mut link = GameLink::default();
    link.send_modifier_edit(0x109297479a, &texts("1.0", "1.0", "1.75"), true);

    let outer = payload_of(&link.take_pending()[0]);
    let edit: Value = serde_json::from_str(outer["newValue"].as_str().unwrap()).unwrap();
    assert_eq!(edit["scale"].as_f64(), Some(1.75));
    assert!(edit.get("pos").is_none());
    assert!(edit.get("rot").is_none());
}

#[test]
fn repeated_spawn_rule_pushes_keep_only_the_latest_full_rule_list() {
    let rule_at = |frame: f32| {
        format!(
            "[{{\"eff_hash\":153,\"motion\":4660,\"frame_start\":{frame:?},\
             \"frame_end\":{frame:?}}}]"
        )
    };
    let mut link = GameLink::default();
    link.send_spawn_rules(&rule_at(3.0));
    link.send_spawn_rules(&rule_at(2.0));
    link.send_spawn_rules(&rule_at(1.0));

    let pending: Vec<String> = link
        .take_pending()
        .into_iter()
        .filter(|message| message.contains("\"spawn_rules\":"))
        .collect();
    assert_eq!(pending.len(), 1, "superseded drag states must not be sent");
    let value = payload_of(&pending[0]);
    assert_eq!(value["spawn_rules"][0]["frame_start"].as_f64(), Some(1.0));
    assert_eq!(value["spawn_rules"][0]["frame_end"].as_f64(), Some(1.0));
}

#[test]
fn project_rule_batches_publish_only_after_the_flattened_union_is_ready() {
    let mut link = GameLink::default();
    link.begin_rule_batch();
    link.send_spawn_rules("[]");
    link.send_effect_control_rules("[]");
    link.send_hitbox_rules("[]");
    assert!(
        link.take_pending().is_empty(),
        "intermediate materialization sends must stay local"
    );
    link.end_rule_batch();
    link.send_spawn_rules("[]");
    link.send_effect_control_rules("[]");
    link.send_hitbox_rules("[]");
    assert_eq!(
        link.take_pending().len(),
        3,
        "the completed project publishes one replacement per live rule family"
    );
}

fn send_every_family(link: &mut GameLink, bundle: &AssetBundleWire) {
    link.send_spawn_rules("[]");
    link.send_effect_control_rules("[]");
    link.send_hitbox_rules("[]");
    link.send_effect_aliases(&Vec::new());
    link.send_donor_effs(&Vec::new());
    link.send_donor_bytes(&Vec::new());
    link.send_asset_bundle(bundle);
    link.send_effect_names(&vec!["example".to_string()]);
    link.send_reset_pins();
    link.send_live_eff_reload();
    link.send_live_eff_probe();
    link.send_modifier_edit(0x1234, &texts("1.0", "1.0", "1.0"), false);
}

#[test]
fn project_batches_hold_every_live_family_until_the_replacement_is_ready() {
    let mut link = GameLink::default();
    let asset_bundle = AssetBundleWire {
        generation: 1,
        target: "mario".into(),
        files: vec![AssetBundleFileWire {
            path: "fighter/mario/motion/body/c00/wait1.nuanmb".into(),
            file: "effect_viewer/live_assets/files/fighter/mario/motion/body/c00/wait1.nuanmb"
                .into(),
            size: 123,
        }],
    };
    link.begin_project_batch();
    assert!(link.sends_suppressed());
    send_every_family(&mut link, &asset_bundle);
    assert!(
        link.take_pending().is_empty(),
        "project replacement must not expose clears or partial restores"
    );

    link.end_project_batch();
    assert!(!link.sends_suppressed());
    send_every_family(&mut link, &asset_bundle);
    assert_eq!(
        link.take_pending().len(),
        12,
        "the finished import can publish one message per protocol family"
    );
}

#[test]
fn asset_bundle_wire_and_carrier_status_round_trip() {
    let mut link = GameLink::default();
    let bundle = AssetBundleWire {
        generation: 1_725_000_000_123,
        target: "mario".into(),
        files: vec![AssetBundleFileWire {
            path: "fighter/mario/motion/body/c00/swing.prc".into(),
            file: "effect_viewer/live_assets/files/1725000000123/fighter/mario/motion/body/c00/swing.prc"
                .into(),
            size: 4096,
        }],
    };
    link.send_asset_bundle(&bundle);
    let sent = link.take_pending();
    assert_eq!(sent.len(), 1);
    let value = payload_of(&sent[0]);
    assert_eq!(value["asset_bundle"]["generation"], bundle.generation);
    assert_eq!(value["asset_bundle"]["target"], "mario");
    assert_eq!(value["asset_bundle"]["fighter_binding_version"], 1);
    assert_eq!(value["asset_bundle"]["files"][0]["size"], 4096);

    feed(
        &mut link,
        &[status_report(
            bundle.generation,
            Some(bundle.generation),
            "mario",
            3,
            2,
            "carrier_recreate",
            Some(("loading", false)),
        )],
    );
    assert_eq!(
        link.asset_bundle_status(),
        AssetBundleStatus {
            target: "mario".into(),
            generation: bundle.generation,
            staged: 3,
            served: 2,
            serving_generation: bundle.generation,
            phase: "loading".into(),
            ready: false,
            reports: 1,
        }
    );

    feed(
        &mut link,
        &[plugin_frame(
            "AssetBundleError",
            "{\"AssetBundleError\":{\"reason\":\"payload missing\"}}",
        )],
    );
    assert_eq!(
        link.take_asset_bundle_error().as_deref(),
        Some("payload missing")
    );
    assert!(link.take_asset_bundle_error().is_none());
}

#[test]
fn asset_bundle_status_ignores_stale_or_impossible_acknowledgements() {
    let mut link = GameLink::default();
    feed(
        &mut link,
        &[status_report(7, None, "mario", 2, 1, "carrier_recreate", None)],
    );
    assert_eq!(link.asset_bundle_status().reports, 1);
    for (generation, target, staged, served, activation) in [
        (6, "mario", 2, 2, "carrier_recreate"),
        (7, "mario", 1, 2, "carrier_recreate"),
        (8, "Mario", 2, 2, "carrier_recreate"),
        (8, "mario", 2, 2, "next_owner_load"),
        (8, "mario", 2, 2, "resident_buffer"),
    ] {
        feed(
            &mut link,
            &[status_report(
                generation, None, target, staged, served, activation, None,
            )],
        );
    }
    assert_eq!(
        link.asset_bundle_status(),
        AssetBundleStatus {
            target: "mario".into(),
            generation: 7,
            staged: 2,
            served: 1,
            serving_generation: 7,
            phase: "staged".into(),
            ready: false,
            reports: 1,
        }
    );
}

#[test]
fn asset_carrier_ready_requires_current_generation_and_clear_is_acknowledged() {
    let mut link = GameLink::default();
    let mut report = |generation, serving, target: &str, staged, phase: &str, ready| {
        feed(
            &mut link,
            &[status_report(
                generation,
                Some(serving),
                target,
                staged,
                staged,
                "carrier_recreate",
                Some((phase, ready)),
            )],
        );
        link.asset_bundle_status()
    };
    report(9, 8, "mario", 2, "ready", true);
    assert_eq!(report(9, 9, "mario", 2, "unknown", false).reports, 0);
    assert!(report(9, 9, "mario", 2, "ready", true).ready);
    let cleared = report(10, 10, "", 0, "idle", false);
    assert_eq!(cleared.generation, 10);
    assert!(cleared.target.is_empty());
    assert!(!cleared.ready);
    assert_eq!(cleared.reports, 2);
}

#[test]
fn repeated_plugin_ids_still_create_distinct_connection_epochs() {
    let mut link = GameLink::default();
    link.connected(NOW);
    assert_eq!(link.connection_epoch(), None);
    for expected_epoch in [1, 2] {
        feed(
            &mut link,
            &[plugin_frame(
                "GiveClientId",
                "{\"GiveClientId\":{\"client_id\":1}}",
            )],
        );
        assert_eq!(link.client_id(), Some(1));
        assert_eq!(link.connection_epoch(), Some(expected_epoch));
    }
}

#[test]
fn a_sound_hash_is_read_whether_it_arrives_as_a_hash_or_an_int() {
    let value = 0x10_556b_83ccu64;
    assert_eq!(LuaArgWire::Hash(value).as_hash(), Some(value));
    assert_eq!(LuaArgWire::Int(value as i64).as_hash(), Some(value));
}

#[test]
fn a_body_may_be_an_object_too_and_nonsense_is_ignored() {
    let mut link = GameLink::default();
    let _ = link.handle_frame("{\"header\":\"GiveClientId\",\"body\":{\"GiveClientId\":{\"client_id\":4}}}", NOW);
    link.connected(NOW);
    for payload in ["", "not json", "{}", "{\"header\":7}", "{\"header\":\"Unheard\"}", "[1,2]"] {
        assert!(matches!(link.handle_frame(payload, NOW), Event::Nothing));
    }
}

#[test]
fn the_status_follows_the_connection() {
    let mut link = GameLink::default();
    assert_eq!(link.status(), LinkStatus::Disconnected);
    assert!(!link.ensure_started());
    assert!(link.ensure_started());
    link.connecting();
    assert_eq!(link.status(), LinkStatus::Connecting);
    link.connected(NOW);
    assert_eq!(link.status(), LinkStatus::Connected);
    assert_eq!(link.last_error(), None);
    link.disconnected(Some("closed by plugin".to_string()));
    assert_eq!(link.status(), LinkStatus::Disconnected);
    assert_eq!(link.last_error().as_deref(), Some("closed by plugin"));
}

#[test]
fn carrier_reports_are_kept_until_they_are_read() {
    let mut link = GameLink::default();
    feed(
        &mut link,
        &[
            plugin_frame(
                "CarrierStatus",
                "{\"CarrierStatus\":{\"state\":2,\"spawned\":true,\"kinds\":5,\"gen\":9}}",
            ),
            plugin_frame("CarrierError", "{\"CarrierError\":{\"reason\":\"no slot\"}}"),
        ],
    );
    assert_eq!(link.carrier_status(), (2, 5, 1, true));
    assert_eq!(link.carrier_gen(), 9);
    assert_eq!(link.take_carrier_error().as_deref(), Some("no slot"));
    assert_eq!(link.take_carrier_error(), None);
}

#[test]
fn kinds_with_pins_are_listed_apart() {
    let mut link = GameLink::default();
    link.on_notify(3, "c".to_string(), RpmEffectData::default(), None, NOW);
    link.on_notify(
        1,
        "a".to_string(),
        RpmEffectData::default(),
        Some(PinsWire {
            color: Some(Color::default()),
            ..PinsWire::default()
        }),
        NOW,
    );
    link.on_notify(2, "b".to_string(), RpmEffectData::default(), Some(PinsWire::default()), NOW);
    let names: Vec<String> = link.kinds().into_iter().map(|(_, kind)| kind.name).collect();
    assert_eq!(names, vec!["a", "b", "c"]);
    let pinned: Vec<u64> = link.pinned_kinds().into_iter().map(|(id, _)| id).collect();
    assert_eq!(pinned, vec![1]);
    assert!(link.is_live(2));
    assert!(!link.is_live(4));
    feed(&mut link, &[plugin_frame("RemoveAll", "{}")]);
    assert!(!link.is_live(2));
}

#[test]
fn a_kind_keeps_what_it_was_first_seen_with() {
    let mut link = GameLink::default();
    let mut data = RpmEffectData::default();
    data.scale = bits(2.0);
    link.on_notify(7, "x".to_string(), data, None, NOW);
    let mut data = RpmEffectData::default();
    data.scale = bits(3.0);
    data.pos = Point3D { x: bits(1.0), y: bits(0.0), z: bits(0.0) };
    link.on_notify(7, "x".to_string(), data, None, NOW + 1);
    let kind = link.kind(7).unwrap();
    assert_eq!(float(kind.first.scale), 2.0);
    assert_eq!(float(kind.data.scale), 3.0);
    assert_eq!(kind.last_update, NOW + 1);
}

#[test]
fn frames_and_edits_are_counted() {
    let mut link = GameLink::default();
    feed(&mut link, &[plugin_frame("Pong", "{}"), plugin_frame("Pong", "{}")]);
    link.send_reset_pins();
    assert_eq!(link.stats(), (2, 1));
    assert!(link.can_count());
}

#[test]
fn a_name_in_a_message_is_escaped() {
    let mut link = GameLink::default();
    link.send_effect_names(&vec!["a\"b\\c\n\u{1}\u{fc}".to_string(), String::new()]);
    let sent = link.take_pending();
    assert_eq!(
        sent[0],
        "<TCP_MESSAGE>{\"effect_names\":[\"a\\\"b\\\\c\\n\\u0001\u{fc}\",\"\"]}</TCP_MESSAGE>"
    );
    assert_eq!(payload_of(&sent[0])["effect_names"][0], "a\"b\\c\n\u{1}\u{fc}");
}

#[test]
fn donors_are_sent_by_target_and_by_bytes() {
    let mut link = GameLink::default();
    link.send_donor_effs(&vec![DonorEffWire {
        target: "effect/fighter/mario/ef_mario.eff".to_string(),
        donors: vec!["effect/fighter/luigi/ef_luigi.eff".to_string()],
    }]);
    link.send_donor_bytes(&vec![DonorBytesWire {
        path: "effect/x.eff".to_string(),
        b64: "AAEC".to_string(),
        file: String::new(),
    }]);
    let sent = link.take_pending();
    let effs = payload_of(&sent[0]);
    assert_eq!(effs["donor_effs"][0]["target"], "effect/fighter/mario/ef_mario.eff");
    assert_eq!(effs["donor_effs"][0]["donors"][0], "effect/fighter/luigi/ef_luigi.eff");
    let bytes = payload_of(&sent[1]);
    assert_eq!(bytes["donor_bytes"][0]["path"], "effect/x.eff");
    assert_eq!(bytes["donor_bytes"][0]["b64"], "AAEC");
}

#[test]
fn a_playback_is_listed_in_script_time() {
    let mut link = GameLink::default();
    feed(
        &mut link,
        &[
            capture_run(8, 5, 9.0, 1, 3),
            capture_run(8, 5, 2.0, 1, 1),
            capture_run(8, 5, 4.5, 1, 2),
        ],
    );
    let order: Vec<f32> = link
        .latest_run_for(5, Some(8))
        .iter()
        .map(|l| float(l.frame))
        .collect();
    assert_eq!(order, vec![2.0, 4.5, 9.0]);
}

/// Compact, and the members of an object by name.
#[test]
fn messages_are_spelled_as_serde_json_spells_them() {
    let mut link = GameLink::default();
    let bundle = AssetBundleWire {
        generation: 3,
        target: "mario".into(),
        files: vec![
            AssetBundleFileWire { path: "a\"b".into(), file: "c\\d".into(), size: 1 },
            AssetBundleFileWire { path: "e".into(), file: "f".into(), size: u64::MAX },
        ],
    };
    send_every_family(&mut link, &bundle);
    link.send_effect_aliases(&vec![EffectAliasWire { from: 1, to: 2, slots: vec![0, 7] }]);
    link.send_donor_effs(&vec![DonorEffWire {
        target: "t".into(),
        donors: vec!["x".into(), "y\n".into()],
    }]);
    link.send_donor_bytes(&vec![
        DonorBytesWire { path: "p".into(), b64: "AA==".into(), file: String::new() },
        DonorBytesWire { path: "q".into(), b64: String::new(), file: "f".into() },
    ]);
    link.send_modifier_edit(9, &texts("0.5", "0.25", "2.0"), true);
    let sent = link.take_pending();
    assert!(sent.len() >= 13);
    for frame in &sent {
        let value = payload_of(frame);
        assert_eq!(format!("<TCP_MESSAGE>{value}</TCP_MESSAGE>"), *frame);
        if let Some(edit) = value["newValue"].as_str() {
            let inner: Value = serde_json::from_str(edit).unwrap();
            assert_eq!(inner.to_string(), edit);
        }
    }
    let donors = sent.iter().find(|frame| frame.contains("donor_bytes")).unwrap();
    let value = payload_of(donors);
    assert!(value["donor_bytes"][0].get("file").is_none());
    assert!(value["donor_bytes"][1].get("b64").is_none());
}

#[test]
fn a_fresh_link_has_the_default_asset_status() {
    let link = GameLink::default();
    assert_eq!(link.asset_bundle_status(), AssetBundleStatus::default());
    assert_eq!(AssetBundleStatus::default().reports, 0);
    assert_eq!(AssetBundleStatus::default().phase, "");
}

#[test]
fn repeated_reports_keep_the_first_values_and_count() {
    let report = |id: u64, scale: f32| {
        plugin_frame(
            "Notify",
            &format!("{{\"Notify\":{{\"id\":{id},\"name\":\"n{scale}\",\"value_in_json\":{{\"effect_name\":\"e\",\"scale\":{scale}}}}}}}"),
        )
    };
    let mut link = GameLink::default();
    feed(&mut link, &[report(7, 1.5), report(8, 9.0), report(7, 2.5), report(7, 3.5)]);
    let kind = link.kind(7).unwrap();
    assert_eq!(float(kind.first.scale), 1.5);
    assert_eq!(float(kind.data.scale), 3.5);
    assert_eq!(kind.updates, 3);
    assert_eq!(kind.name, "n3.5");
    assert_eq!(link.kind(8).unwrap().updates, 1);
    // Once the kind is gone, the count starts anew.
    feed(
        &mut link,
        &[plugin_frame("Remove", "{\"Remove\":{\"id\":7}}"), report(7, 4.5)],
    );
    let kind = link.kind(7).unwrap();
    assert_eq!(float(kind.first.scale), 4.5);
    assert_eq!(kind.updates, 1);
}
