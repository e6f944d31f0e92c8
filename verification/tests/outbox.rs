use visionary::outbox::{
    full_replace_markers, idempotent_command_markers, push_outbox_capped,
    queue_latest_full_replace, retain_latest_for_marker, retain_latest_full_replace,
    retain_latest_idempotent_commands, trim_outbox, OUTBOX_CAP,
};

fn command(name: &str) -> String {
    format!("<TCP_MESSAGE>{{\"command\":\"{name}\"}}</TCP_MESSAGE>")
}

fn family(name: &str, value: u8) -> String {
    format!("<TCP_MESSAGE>{{\"{name}\":{value}}}</TCP_MESSAGE>")
}

#[test]
fn full_replace_outbox_coalesces_each_family_and_preserves_other_order() {
    let mut outbox = Vec::new();
    let spawn_old = family("spawn_rules", 1);
    let spawn_new = family("spawn_rules", 2);
    let hitbox_old = family("hitbox_rules", 3);
    let hitbox_new = family("hitbox_rules", 4);
    let alias_old = family("effect_aliases", 5);
    let alias_new = family("effect_aliases", 6);
    let before = command("before");
    let between = command("between");
    let after = command("after");

    for frame in [
        before.clone(),
        spawn_old,
        hitbox_old,
        between.clone(),
        spawn_new.clone(),
        alias_old,
        hitbox_new.clone(),
        alias_new.clone(),
        after.clone(),
    ] {
        queue_latest_full_replace(&mut outbox, frame);
    }

    assert_eq!(
        outbox,
        vec![before, between, spawn_new, hitbox_new, alias_new, after],
        "only superseded full replacements should disappear; command order must stay stable"
    );
}

#[test]
fn outbox_overflow_preserves_latest_critical_commands() {
    let mut outbox = vec![
        "<TCP_MESSAGE>{\"command\":\"reset_pins\"}</TCP_MESSAGE>".to_string(),
        "<TCP_MESSAGE>{\"command\":\"clear_acmd_captures\"}</TCP_MESSAGE>".to_string(),
    ];
    for id in 0..=OUTBOX_CAP {
        push_outbox_capped(
            &mut outbox,
            format!("<TCP_MESSAGE>{{\"id\":{id},\"newValue\":\"{{}}\"}}</TCP_MESSAGE>"),
        );
    }
    assert_eq!(outbox.len(), OUTBOX_CAP);
    assert!(outbox.iter().any(|message| message.contains("reset_pins")));
    assert!(outbox
        .iter()
        .any(|message| message.contains("clear_acmd_captures")));

    push_outbox_capped(
        &mut outbox,
        "<TCP_MESSAGE>{\"command\":\"reset_pins\"}</TCP_MESSAGE>".to_string(),
    );
    assert_eq!(
        outbox
            .iter()
            .filter(|message| message.contains("reset_pins"))
            .count(),
        1,
        "idempotent commands should coalesce instead of consuming the queue"
    );
}

#[test]
fn the_newest_of_a_family_stays_where_it_is() {
    let mut messages = vec![
        family("spawn_rules", 1),
        command("x"),
        family("spawn_rules", 2),
        command("y"),
    ];
    retain_latest_for_marker(&mut messages, "\"spawn_rules\":");
    assert_eq!(
        messages,
        vec![command("x"), family("spawn_rules", 2), command("y")]
    );
}

#[test]
fn coalescing_twice_changes_nothing() {
    let mut messages = Vec::new();
    for marker in full_replace_markers() {
        messages.push(format!("{{{marker}1}}"));
        messages.push(format!("{{{marker}2}}"));
    }
    retain_latest_full_replace(&mut messages);
    assert_eq!(messages.len(), full_replace_markers().len());
    assert!(messages.iter().all(|m| m.ends_with("2}")));
    let once = messages.clone();
    retain_latest_full_replace(&mut messages);
    assert_eq!(messages, once);
}

#[test]
fn commands_that_may_be_repeated_are_kept_once() {
    let mut messages = Vec::new();
    for marker in idempotent_command_markers() {
        messages.push(format!("{{{marker}}}"));
        messages.push("other".to_string());
        messages.push(format!("{{{marker}}}"));
    }
    let others = idempotent_command_markers().len();
    retain_latest_idempotent_commands(&mut messages);
    assert_eq!(messages.len(), 2 * others);
    assert_eq!(messages.iter().filter(|m| *m == "other").count(), others);
}

#[test]
fn a_queue_within_its_bound_is_left_alone() {
    let mut messages: Vec<String> = (0..OUTBOX_CAP).map(|i| i.to_string()).collect();
    let before = messages.clone();
    trim_outbox(&mut messages);
    assert_eq!(messages, before);
}

#[test]
fn a_long_queue_loses_its_oldest_plain_messages() {
    let mut messages: Vec<String> = (0..OUTBOX_CAP + 3).map(|i| i.to_string()).collect();
    messages[1] = command("reset_pins");
    trim_outbox(&mut messages);
    assert_eq!(messages.len(), OUTBOX_CAP);
    assert_eq!(messages[0], command("reset_pins"));
    assert_eq!(messages[1], "4");
    assert_eq!(messages.last().unwrap(), &(OUTBOX_CAP + 2).to_string());
}
