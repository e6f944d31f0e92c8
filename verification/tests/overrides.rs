use visionary::float::FloatBits;
use visionary::link::sending::ModifierTexts;
use visionary::link::GameLink;
use visionary::overrides::{LiveOverrides, OVERRIDE_DEBOUNCE_MS};
use visionary::wire::{Rainbow, RpmEffectData};

const MILLISECOND: u64 = 1_000_000;

fn bits(x: f32) -> FloatBits {
    FloatBits(x.to_bits())
}

fn form(name: &str, speed: f32) -> RpmEffectData {
    RpmEffectData {
        effect_name: name.to_string(),
        speed: bits(speed),
        ..Default::default()
    }
}

fn text(number: FloatBits) -> String {
    format!("{:?}", f32::from_bits(number.0))
}

fn send(link: &mut GameLink, forms: &[(u64, RpmEffectData)]) -> usize {
    for (hash, form) in forms {
        let texts = ModifierTexts {
            speed: text(form.speed),
            red: text(form.rainbow.color.red),
            green: text(form.rainbow.color.green),
            blue: text(form.rainbow.color.blue),
            alpha: text(form.rainbow.color.alpha),
            scale: text(form.scale),
        };
        link.send_modifier_edit(*hash, &texts, false);
    }
    forms.len()
}

#[test]
fn reconnect_replays_authoritative_user_tweaks() {
    let mut link = GameLink::default();
    let mut overrides = LiveOverrides::default();
    overrides.restore_tweak(0x1234, form("sys_test", 1.5), 0);
    assert_eq!(send(&mut link, &overrides.flush_all()), 1);
    link.take_pending();

    assert_eq!(send(&mut link, &overrides.resend_tweaks()), 1);
    let outbox = link.take_pending();
    assert_eq!(outbox.len(), 1);
    assert!(outbox[0].contains("\\\"speed\\\":1.5"));
}

#[test]
fn a_change_waits_for_the_next_one() {
    let mut overrides = LiveOverrides::default();
    overrides.set_form(7, form("a", 1.0));
    assert!(!overrides.any_dirty());
    overrides.mark_tweak(7, 1000);
    assert!(overrides.any_dirty());
    let wait = OVERRIDE_DEBOUNCE_MS * MILLISECOND;
    assert!(overrides.flush_due(1000 + wait).is_empty());
    let due = overrides.flush_due(1000 + wait + MILLISECOND);
    assert_eq!(due.len(), 1);
    assert_eq!(due[0].0, 7);
    assert!(!overrides.any_dirty());
    assert!(overrides.flush_due(u64::MAX).is_empty());
    assert_eq!(overrides.tweaked().len(), 1);
}

#[test]
fn a_reverted_tweak_is_sent_once_more_and_then_gone() {
    let mut overrides = LiveOverrides::default();
    let mut init = form("0x0", 2.0);
    init.rainbow.color.red = bits(0.5);
    overrides.restore_tweak(9, init, 5);
    overrides.clear_tweak(9, 6);
    assert!(overrides.tweaked().is_empty());
    assert!(overrides.resend_tweaks().is_empty());
    let sent = overrides.flush_all();
    assert_eq!(sent.len(), 1);
    assert_eq!(sent[0].1.speed, bits(1.0));
    assert_eq!(sent[0].1.rainbow, Rainbow::default());
    assert!(overrides.flush_all().is_empty());
}

#[test]
fn a_form_from_the_game_is_not_echoed() {
    let mut overrides = LiveOverrides::default();
    overrides.restore_tweak(1, form("sys", 2.0), 0);
    overrides.set_form(1, form("sys", 3.0));
    assert!(overrides.flush_all().is_empty());
    let kept = overrides.tweaked();
    assert_eq!(kept.len(), 1);
    assert_eq!(kept[0].1.speed, bits(3.0));
}

#[test]
fn a_restored_tweak_names_an_entry_without_a_name() {
    let mut overrides = LiveOverrides::default();
    overrides.set_form(1, form("0x0", 1.0));
    overrides.set_form(2, form("known", 1.0));
    overrides.restore_tweak(1, form("sys_a", 1.5), 0);
    overrides.restore_tweak(2, form("sys_b", 1.5), 0);
    let names: Vec<String> = overrides
        .tweaked()
        .into_iter()
        .map(|(_, form)| form.effect_name)
        .collect();
    assert_eq!(names, vec!["sys_a", "known"]);
    // Kinds that are not there are not marked.
    overrides.mark_tweak(3, 0);
    overrides.clear_tweak(3, 0);
    assert_eq!(overrides.tweaked().len(), 2);
}
