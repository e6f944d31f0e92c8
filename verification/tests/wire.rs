use visionary::float::FloatBits;
use visionary::wire::{
    attack_mod_category, expression_key, integer_point_key, is_zero_u8, numeric_point_key,
    same_capture, wire_category, AttackModKind, CaptureDebugSnapshot, CaptureLine, Color,
    DisplayCategories, LuaArgWire, PinsWire, Point3D, Rainbow, RpmEffectData, CAT_ABS,
    CAT_ATK_POWER, CAT_ATK_SETOFF_MUL, CAT_ATTACK_FP, CAT_HURT, CAT_SEARCH,
    HURT_KEY_DAMAGE_REACTION, KINETIC_KEY_CLEAR_SPEED_ALL,
};

fn bits(x: f32) -> FloatBits {
    FloatBits(x.to_bits())
}

fn line(frame: f32, args: Vec<LuaArgWire>) -> CaptureLine {
    CaptureLine {
        kind: 8,
        motion: 0x1234,
        frame: bits(frame),
        func: "EFFECT".to_string(),
        args,
        run: 3,
        common: false,
    }
}

#[test]
fn an_argument_is_read_as_a_whole_number() {
    assert_eq!(LuaArgWire::Int(-5).as_i64(), Some(-5));
    assert_eq!(LuaArgWire::Num(bits(-2.75)).as_i64(), Some(-2));
    assert_eq!(LuaArgWire::Num(bits(f32::NAN)).as_i64(), Some(0));
    assert_eq!(LuaArgWire::Num(bits(f32::INFINITY)).as_i64(), Some(i64::MAX));
    assert_eq!(LuaArgWire::Num(bits(f32::NEG_INFINITY)).as_i64(), Some(i64::MIN));
    assert_eq!(LuaArgWire::Bool(true).as_i64(), Some(1));
    assert_eq!(LuaArgWire::Hash(1).as_i64(), None);
    assert_eq!(LuaArgWire::Nil.as_i64(), None);
}

#[test]
fn only_zero_and_one_are_truth_values() {
    assert_eq!(LuaArgWire::Bool(false).as_bool(), Some(false));
    assert_eq!(LuaArgWire::Int(1).as_bool(), Some(true));
    assert_eq!(LuaArgWire::Int(0).as_bool(), Some(false));
    assert_eq!(LuaArgWire::Int(2).as_bool(), None);
    assert_eq!(LuaArgWire::Num(bits(1.0)).as_bool(), None);
}

#[test]
fn a_hash_may_arrive_under_another_tag() {
    assert_eq!(LuaArgWire::Int(-1).as_hash(), Some(u64::MAX));
    assert_eq!(LuaArgWire::Num(bits(1.0)).as_hash(), None);
}

#[test]
fn arguments_have_source_texts() {
    let text = |arg: LuaArgWire| arg.to_source_arg("1.5");
    assert_eq!(text(LuaArgWire::Hash(0)).as_deref(), Some("Hash40::new_raw(0x0)"));
    assert_eq!(
        text(LuaArgWire::Hash(0x10556b83cc)).as_deref(),
        Some("Hash40::new_raw(0x10556b83cc)")
    );
    assert_eq!(text(LuaArgWire::Num(bits(1.5))).as_deref(), Some("1.5"));
    assert_eq!(text(LuaArgWire::Int(i64::MIN)).as_deref(), Some("-9223372036854775808"));
    assert_eq!(text(LuaArgWire::Bool(true)).as_deref(), Some("true"));
    assert_eq!(text(LuaArgWire::Bool(false)).as_deref(), Some("false"));
    assert_eq!(text(LuaArgWire::Nil), None);
}

#[test]
fn keys_are_stable() {
    assert_eq!(expression_key("", &[]), 0xcbf29ce484222325);
    assert_eq!(
        expression_key(
            "FT_MOTION_RATE",
            &[
                LuaArgWire::Hash(0x10556b83cc),
                LuaArgWire::Num(bits(1.5)),
                LuaArgWire::Int(-3),
                LuaArgWire::Bool(true),
                LuaArgWire::Nil,
            ],
        ),
        0xd592498fa0aba612
    );
    assert_eq!(numeric_point_key("SET_SPEED_EX", &[bits(1.5), bits(-2.0)]), 0x1719d895df91b598);
    assert_eq!(integer_point_key("WorkModule::set_int64", &[-7, 0x1234]), 0xa54beee9494b9f34);
}

#[test]
fn the_function_is_a_part_of_the_key() {
    assert_ne!(
        numeric_point_key("SET_SPEED", &[bits(1.0)]),
        numeric_point_key("ADD_SPEED", &[bits(1.0)])
    );
    assert_ne!(integer_point_key("f", &[1]), integer_point_key("f", &[2]));
}

#[test]
fn a_capture_is_the_same_where_it_shows_the_same_frame() {
    let args = vec![LuaArgWire::Hash(1)];
    assert!(same_capture(&line(5.0, args.clone()), &line(5.4, args.clone())));
    assert!(same_capture(&line(-3.0, args.clone()), &line(0.2, args.clone())));
    assert!(!same_capture(&line(5.4, args.clone()), &line(5.6, args.clone())));
    assert!(!same_capture(&line(5.0, args.clone()), &line(5.0, Vec::new())));
    let mut other = line(5.0, args.clone());
    other.run = 4;
    assert!(!same_capture(&line(5.0, args.clone()), &other));
    // An argument that is no number differs from itself.
    let odd = vec![LuaArgWire::Num(bits(f32::NAN))];
    assert!(!same_capture(&line(5.0, odd.clone()), &line(5.0, odd)));
    assert!(same_capture(
        &line(5.0, vec![LuaArgWire::Num(bits(0.0))]),
        &line(5.0, vec![LuaArgWire::Num(bits(-0.0))])
    ));
}

#[test]
fn failures_are_conflicts_and_contention() {
    let row = CaptureDebugSnapshot {
        kind: 1,
        motion: 2,
        attempted: 9,
        succeeded: 1,
        contention: 3,
        claim_conflicts: 4,
        duplicates: 5,
        last_frame: bits(0.0),
    };
    assert_eq!(row.failed(), 7);
}

#[test]
fn categories_of_the_editor_are_renumbered() {
    let editor = DisplayCategories { abs: 3, search: 4, attack_fp: 5 };
    assert_eq!(wire_category(3, &editor), CAT_ABS);
    assert_eq!(wire_category(4, &editor), CAT_SEARCH);
    assert_eq!(wire_category(5, &editor), CAT_ATTACK_FP);
    for display in 0..3 {
        assert_eq!(wire_category(display, &editor), display);
    }
    for display in 0..6 {
        assert_ne!(wire_category(display, &editor), CAT_HURT);
    }
    assert_eq!(attack_mod_category(AttackModKind::Power), CAT_ATK_POWER);
    assert_eq!(
        attack_mod_category(AttackModKind::ShieldSetoffMul),
        CAT_ATK_SETOFF_MUL
    );
    assert_eq!(HURT_KEY_DAMAGE_REACTION, KINETIC_KEY_CLEAR_SPEED_ALL);
}

#[test]
fn any_pin_counts() {
    assert!(!PinsWire::default().any());
    let none = PinsWire::default();
    let point = Point3D::default();
    for pins in [
        PinsWire { scale: Some(bits(1.0)), ..none },
        PinsWire { rate: Some(bits(1.0)), ..none },
        PinsWire { pos: Some(point), ..none },
        PinsWire { rot: Some(point), ..none },
        PinsWire { visible: Some(false), ..none },
        PinsWire { frame: Some(bits(0.0)), ..none },
        PinsWire { color: Some(Color::default()), ..none },
        PinsWire { movement_state: Some(bits(0.0)), ..none },
    ] {
        assert!(pins.any());
    }
    assert!(is_zero_u8(&0));
    assert!(!is_zero_u8(&1));
}

#[test]
fn an_untouched_form_changes_nothing() {
    let form = RpmEffectData::default();
    assert_eq!(form.effect_name, "0x0");
    assert_eq!(f32::from_bits(form.scale.0), 1.0);
    assert_eq!(f32::from_bits(form.speed.0), 1.0);
    assert_eq!(form.rainbow, Rainbow::default());
    assert_eq!(f32::from_bits(form.rainbow.color.alpha.0), 1.0);
    assert!(form.visible);
}

#[test]
fn every_byte_of_the_arguments_counts() {
    let key = integer_point_key("f", &[0x0102_0304_0506_0708, -1]);
    for byte in 0..8 {
        let other = 0x0102_0304_0506_0708 ^ (0x55i64 << (8 * byte));
        assert_ne!(integer_point_key("f", &[other, -1]), key);
        assert_ne!(integer_point_key("f", &[0x0102_0304_0506_0708, -1 ^ (0x55i64 << (8 * byte))]), key);
    }
}
