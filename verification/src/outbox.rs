//! The queue of messages that wait for the socket. A message that replaces a whole list
//! supersedes the earlier ones of its family, a repeated command counts once, and the queue
//! stays bounded.
use crate::text::holds;
use vstd::prelude::*;

verus! {

/// The longest queue that is kept.
pub const OUTBOX_CAP: usize = 8192;

/// The text that marks each family of messages which replace a whole list.
pub open spec fn full_replace_marks() -> Seq<Seq<char>> {
    seq![
        "\"spawn_rules\":"@,
        "\"hitbox_rules\":"@,
        "\"effect_control_rules\":"@,
        "\"effect_aliases\":"@,
        "\"donor_effs\":"@,
        "\"donor_bytes\":"@,
        "\"asset_bundle\":"@,
        "\"effect_names\":"@,
    ]
}

/// The text that marks each command which has the same effect once or often.
pub open spec fn command_marks() -> Seq<Seq<char>> {
    seq![
        "\"command\":\"reset_pins\""@,
        "\"command\":\"clear_acmd_captures\""@,
        "\"command\":\"live_eff_reload\""@,
        "\"command\":\"live_eff_probe\""@,
    ]
}

/// Some message holds `mark`.
pub open spec fn any_holds(messages: Seq<Seq<char>>, mark: Seq<char>) -> bool {
    exists|i: int| 0 <= i < messages.len() && crate::text::contains(#[trigger] messages[i], mark)
}

/// The messages without those that hold `mark` and are followed by another one that does.
pub open spec fn keep_latest(messages: Seq<Seq<char>>, mark: Seq<char>) -> Seq<Seq<char>>
    decreases messages.len(),
{
    if messages.len() == 0 {
        messages
    } else {
        let rest = messages.skip(1);
        if crate::text::contains(messages[0], mark) && any_holds(rest, mark) {
            keep_latest(rest, mark)
        } else {
            seq![messages[0]] + keep_latest(rest, mark)
        }
    }
}

/// `keep_latest` for each mark in turn.
pub open spec fn coalesce(messages: Seq<Seq<char>>, marks: Seq<Seq<char>>) -> Seq<Seq<char>>
    decreases marks.len(),
{
    if marks.len() == 0 {
        messages
    } else {
        coalesce(keep_latest(messages, marks[0]), marks.skip(1))
    }
}

/// The message is a command that an overflow must not drop.
pub open spec fn is_command(message: Seq<char>) -> bool {
    exists|k: int|
        0 <= k < command_marks().len() && crate::text::contains(
            message,
            #[trigger] command_marks()[k],
        )
}

/// The first message from `i` on that is no command.
pub open spec fn first_edit_from(messages: Seq<Seq<char>>, i: int) -> Option<int>
    decreases messages.len() - i,
{
    if i < 0 || i >= messages.len() {
        None
    } else if !is_command(messages[i]) {
        Some(i)
    } else {
        first_edit_from(messages, i + 1)
    }
}

/// The message that an overflow drops: the oldest that is no command, else the oldest.
pub open spec fn victim(messages: Seq<Seq<char>>) -> int {
    match first_edit_from(messages, 0) {
        Some(i) => i,
        None => 0,
    }
}

/// The queue once overflow has dropped what it must.
pub open spec fn bounded(messages: Seq<Seq<char>>) -> Seq<Seq<char>>
    decreases messages.len(),
{
    if messages.len() <= OUTBOX_CAP {
        messages
    } else {
        let at = victim(messages);
        if 0 <= at < messages.len() {
            bounded(messages.remove(at))
        } else {
            messages
        }
    }
}

/// The marks of `full_replace_marks`.
pub fn full_replace_markers() -> (marks: Vec<&'static str>)
    ensures
        crate::text::strs(marks@) == full_replace_marks(),
{
    let marks: Vec<&'static str> = vec![
        "\"spawn_rules\":",
        "\"hitbox_rules\":",
        "\"effect_control_rules\":",
        "\"effect_aliases\":",
        "\"donor_effs\":",
        "\"donor_bytes\":",
        "\"asset_bundle\":",
        "\"effect_names\":",
    ];
    assert(crate::text::strs(marks@) =~= full_replace_marks());
    marks
}

/// The marks of `command_marks`.
pub fn idempotent_command_markers() -> (marks: Vec<&'static str>)
    ensures
        crate::text::strs(marks@) == command_marks(),
{
    let marks: Vec<&'static str> = vec![
        "\"command\":\"reset_pins\"",
        "\"command\":\"clear_acmd_captures\"",
        "\"command\":\"live_eff_reload\"",
        "\"command\":\"live_eff_probe\"",
    ];
    assert(crate::text::strs(marks@) =~= command_marks());
    marks
}

/// Keeps of the messages that hold `marker` only the newest.
pub fn retain_latest_for_marker(messages: &mut Vec<String>, marker: &str)
    ensures
        crate::text::texts(final(messages)@) == keep_latest(
            crate::text::texts(old(messages)@),
            marker@,
        ),
{
    let ghost all = crate::text::texts(messages@);
    let mut i: usize = messages.len();
    let mut found: bool = false;
    proof {
        assert(all.take(i as int) + keep_latest(all.skip(i as int), marker@) =~= all);
    }
    while i > 0
        invariant
            i <= all.len(),
            i <= messages@.len(),
            crate::text::texts(messages@) == all.take(i as int) + keep_latest(
                all.skip(i as int),
                marker@,
            ),
            found == any_holds(all.skip(i as int), marker@),
        decreases i,
    {
        let ghost rest = all.skip(i as int);
        let ghost here = all.skip(i - 1);
        let ghost now = crate::text::texts(messages@);
        i -= 1;
        proof {
            assert(here.skip(1) =~= rest);
            assert(here[0] == all[i as int]);
            assert(now[i as int] == all.take(i + 1)[i as int]);
            assert(now[i as int] == messages@[i as int]@);
            assert(all.take(i + 1) =~= all.take(i as int).push(all[i as int]));
            assert forall|j: int| 0 <= j < rest.len() implies here[j + 1] == rest[j] by {}
            if any_holds(rest, marker@) {
                let j = choose|j: int|
                    0 <= j < rest.len() && crate::text::contains(#[trigger] rest[j], marker@);
                assert(crate::text::contains(here[j + 1], marker@));
            }
            if any_holds(here, marker@) && !crate::text::contains(here[0], marker@) {
                let j = choose|j: int|
                    0 <= j < here.len() && crate::text::contains(#[trigger] here[j], marker@);
                assert(crate::text::contains(rest[j - 1], marker@));
            }
        }
        if holds(messages[i].as_str(), marker) {
            if found {
                messages.remove(i);
                assert(crate::text::texts(messages@) =~= now.remove(i as int));
                assert(now.remove(i as int) =~= all.take(i as int) + keep_latest(rest, marker@));
            } else {
                found = true;
                assert(all.take(i + 1) + keep_latest(rest, marker@) =~= all.take(i as int) + (seq![
                    all[i as int],
                ] + keep_latest(rest, marker@)));
            }
        } else {
            assert(all.take(i + 1) + keep_latest(rest, marker@) =~= all.take(i as int) + (seq![
                all[i as int],
            ] + keep_latest(rest, marker@)));
        }
    }
    proof {
        assert(all.skip(0) =~= all);
        assert(all.take(0) + keep_latest(all, marker@) =~= keep_latest(all, marker@));
    }
}

/// `retain_latest_for_marker` for each of `markers` in turn.
fn retain_latest_for_each(messages: &mut Vec<String>, markers: &Vec<&'static str>)
    ensures
        crate::text::texts(final(messages)@) == coalesce(
            crate::text::texts(old(messages)@),
            crate::text::strs(markers@),
        ),
{
    let ghost marks = crate::text::strs(markers@);
    let mut k: usize = 0;
    assert(marks.skip(0) =~= marks);
    while k < markers.len()
        invariant
            k <= markers@.len(),
            marks == crate::text::strs(markers@),
            coalesce(crate::text::texts(messages@), marks.skip(k as int)) == coalesce(
                crate::text::texts(old(messages)@),
                marks,
            ),
        decreases markers@.len() - k,
    {
        proof {
            assert(marks.skip(k as int).skip(1) =~= marks.skip(k + 1));
            assert(marks.skip(k as int)[0] == markers@[k as int]@);
        }
        retain_latest_for_marker(messages, markers[k]);
        k += 1;
    }
}

/// Keeps only the newest message of each family that replaces a whole list.
pub fn retain_latest_full_replace(messages: &mut Vec<String>)
    ensures
        crate::text::texts(final(messages)@) == coalesce(
            crate::text::texts(old(messages)@),
            full_replace_marks(),
        ),
{
    let markers = full_replace_markers();
    retain_latest_for_each(messages, &markers);
}

/// Keeps only the newest of each repeated command.
pub fn retain_latest_idempotent_commands(messages: &mut Vec<String>)
    ensures
        crate::text::texts(final(messages)@) == coalesce(
            crate::text::texts(old(messages)@),
            command_marks(),
        ),
{
    let markers = idempotent_command_markers();
    retain_latest_for_each(messages, &markers);
}

/// Whether the message is a command that an overflow must not drop.
fn holds_command(message: &str, markers: &Vec<&'static str>) -> (b: bool)
    requires
        crate::text::strs(markers@) == command_marks(),
    ensures
        b == is_command(message@),
{
    let mut k: usize = 0;
    while k < markers.len()
        invariant
            k <= markers@.len(),
            crate::text::strs(markers@) == command_marks(),
            forall|j: int|
                0 <= j < k ==> !crate::text::contains(message@, #[trigger] command_marks()[j]),
        decreases markers@.len() - k,
    {
        assert(command_marks()[k as int] == crate::text::strs(markers@)[k as int]);
        if holds(message, markers[k]) {
            return true;
        }
        k += 1;
    }
    assert(markers@.len() == command_marks().len());
    false
}

/// Drops messages until the queue is within its bound.
pub fn trim_outbox(messages: &mut Vec<String>)
    ensures
        crate::text::texts(final(messages)@) == bounded(crate::text::texts(old(messages)@)),
{
    let markers = idempotent_command_markers();
    while messages.len() > OUTBOX_CAP
        invariant
            crate::text::strs(markers@) == command_marks(),
            bounded(crate::text::texts(messages@)) == bounded(crate::text::texts(old(messages)@)),
        decreases messages@.len(),
    {
        let ghost now = crate::text::texts(messages@);
        let mut at: usize = 0;
        let mut i: usize = 0;
        while i < messages.len()
            invariant_except_break
                at == 0,
                first_edit_from(now, 0) == first_edit_from(now, i as int),
            invariant
                i <= messages@.len(),
                now == crate::text::texts(messages@),
                crate::text::strs(markers@) == command_marks(),
            ensures
                at == victim(now),
                at <= i,
                at == 0 || at < messages@.len(),
            decreases messages@.len() - i,
        {
            if !holds_command(messages[i].as_str(), &markers) {
                at = i;
                break;
            }
            i += 1;
        }
        messages.remove(at);
        assert(crate::text::texts(messages@) =~= now.remove(at as int));
    }
}

/// Queues a message that replaces a whole list.
pub fn queue_latest_full_replace(outbox: &mut Vec<String>, frame: String)
    ensures
        crate::text::texts(final(outbox)@) == bounded(
            coalesce(crate::text::texts(old(outbox)@).push(frame@), full_replace_marks()),
        ),
{
    let ghost before = crate::text::texts(outbox@);
    outbox.push(frame);
    assert(crate::text::texts(outbox@) =~= before.push(frame@));
    retain_latest_full_replace(outbox);
    trim_outbox(outbox);
}

/// Queues a command or a single edit.
pub fn push_outbox_capped(outbox: &mut Vec<String>, frame: String)
    ensures
        crate::text::texts(final(outbox)@) == bounded(
            coalesce(crate::text::texts(old(outbox)@).push(frame@), command_marks()),
        ),
{
    let ghost before = crate::text::texts(outbox@);
    outbox.push(frame);
    assert(crate::text::texts(outbox@) =~= before.push(frame@));
    retain_latest_idempotent_commands(outbox);
    trim_outbox(outbox);
}

// ── Laws ─────────────────────────────────────────────────────────────────────

/// How many messages hold `mark`.
pub open spec fn count_holding(messages: Seq<Seq<char>>, mark: Seq<char>) -> nat
    decreases messages.len(),
{
    if messages.len() == 0 {
        0
    } else {
        count_holding(messages.skip(1), mark) + if crate::text::contains(messages[0], mark) {
            1nat
        } else {
            0nat
        }
    }
}

/// The messages that do not hold `mark`, in order.
pub open spec fn without(messages: Seq<Seq<char>>, mark: Seq<char>) -> Seq<Seq<char>>
    decreases messages.len(),
{
    if messages.len() == 0 {
        messages
    } else if crate::text::contains(messages[0], mark) {
        without(messages.skip(1), mark)
    } else {
        seq![messages[0]] + without(messages.skip(1), mark)
    }
}

/// The commands among the messages, in order.
pub open spec fn commands(messages: Seq<Seq<char>>) -> Seq<Seq<char>>
    decreases messages.len(),
{
    if messages.len() == 0 {
        messages
    } else if is_command(messages[0]) {
        seq![messages[0]] + commands(messages.skip(1))
    } else {
        commands(messages.skip(1))
    }
}

proof fn lemma_any_holds_count(messages: Seq<Seq<char>>, mark: Seq<char>)
    ensures
        any_holds(messages, mark) <==> count_holding(messages, mark) > 0,
    decreases messages.len(),
{
    if messages.len() > 0 {
        let rest = messages.skip(1);
        lemma_any_holds_count(rest, mark);
        if any_holds(rest, mark) {
            let j = choose|j: int|
                0 <= j < rest.len() && crate::text::contains(#[trigger] rest[j], mark);
            assert(messages[j + 1] == rest[j]);
        }
        if any_holds(messages, mark) && !crate::text::contains(messages[0], mark) {
            let j = choose|j: int|
                0 <= j < messages.len() && crate::text::contains(#[trigger] messages[j], mark);
            assert(rest[j - 1] == messages[j]);
        }
    }
}

/// Of a family at most one message stays, and one stays exactly where there was one.
pub proof fn law_one_message_per_family(messages: Seq<Seq<char>>, mark: Seq<char>)
    ensures
        count_holding(keep_latest(messages, mark), mark) == if any_holds(messages, mark) {
            1nat
        } else {
            0nat
        },
    decreases messages.len(),
{
    if messages.len() > 0 {
        let rest = messages.skip(1);
        let kept = keep_latest(rest, mark);
        law_one_message_per_family(rest, mark);
        lemma_any_holds_count(messages, mark);
        lemma_any_holds_count(rest, mark);
        assert((seq![messages[0]] + kept).skip(1) =~= kept);
    }
}

/// The message that stays of a family is its newest.
pub proof fn law_newest_of_family_stays(messages: Seq<Seq<char>>, mark: Seq<char>, at: int)
    requires
        0 <= at < messages.len(),
        crate::text::contains(messages[at], mark),
        forall|j: int|
            at < j < messages.len() ==> !crate::text::contains(#[trigger] messages[j], mark),
    ensures
        keep_latest(messages, mark).contains(messages[at]),
    decreases messages.len(),
{
    let rest = messages.skip(1);
    let kept = keep_latest(rest, mark);
    if at == 0 {
        assert forall|j: int| 0 <= j < rest.len() implies !crate::text::contains(
            #[trigger] rest[j],
            mark,
        ) by {
            assert(rest[j] == messages[j + 1]);
        }
        assert((seq![messages[0]] + kept)[0] == messages[0]);
    } else {
        assert forall|j: int| at - 1 < j < rest.len() implies !crate::text::contains(
            #[trigger] rest[j],
            mark,
        ) by {
            assert(rest[j] == messages[j + 1]);
        }
        assert(rest[at - 1] == messages[at]);
        law_newest_of_family_stays(rest, mark, at - 1);
        let k = choose|k: int| 0 <= k < kept.len() && kept[k] == messages[at];
        assert((seq![messages[0]] + kept)[k + 1] == messages[at]);
    }
}

/// Coalescing one family leaves every other message in place and in order.
pub proof fn law_other_messages_keep_their_order(messages: Seq<Seq<char>>, mark: Seq<char>)
    ensures
        without(keep_latest(messages, mark), mark) == without(messages, mark),
    decreases messages.len(),
{
    if messages.len() > 0 {
        let kept = keep_latest(messages.skip(1), mark);
        law_other_messages_keep_their_order(messages.skip(1), mark);
        assert((seq![messages[0]] + kept).skip(1) =~= kept);
    }
}

proof fn lemma_keep_latest_last(messages: Seq<Seq<char>>, mark: Seq<char>)
    requires
        messages.len() > 0,
    ensures
        0 < keep_latest(messages, mark).len() <= messages.len(),
        keep_latest(messages, mark).last() == messages.last(),
    decreases messages.len(),
{
    let rest = messages.skip(1);
    if rest.len() > 0 {
        lemma_keep_latest_last(rest, mark);
        assert(rest.last() == messages.last());
    } else {
        assert(!any_holds(rest, mark));
        assert(keep_latest(rest, mark).len() == 0);
    }
}

/// The newest message is never superseded: it stays at the end of the queue.
pub proof fn law_newest_message_stays(messages: Seq<Seq<char>>, marks: Seq<Seq<char>>)
    requires
        messages.len() > 0,
    ensures
        0 < coalesce(messages, marks).len() <= messages.len(),
        coalesce(messages, marks).last() == messages.last(),
    decreases marks.len(),
{
    if marks.len() > 0 {
        lemma_keep_latest_last(messages, marks[0]);
        law_newest_message_stays(keep_latest(messages, marks[0]), marks.skip(1));
    }
}

/// A message that no mark fits is not touched by coalescing, and neither is its place among those
/// like it.
pub proof fn law_unmarked_messages_stay(messages: Seq<Seq<char>>, marks: Seq<Seq<char>>)
    ensures
        unmarked(coalesce(messages, marks), marks) == unmarked(messages, marks),
    decreases marks.len(),
{
    assert(marks.skip(0) =~= marks);
    lemma_unmarked_stay(messages, marks, marks);
}

/// The message holds none of the marks.
pub open spec fn is_unmarked(message: Seq<char>, marks: Seq<Seq<char>>) -> bool {
    forall|k: int| 0 <= k < marks.len() ==> !crate::text::contains(message, #[trigger] marks[k])
}

/// The messages that hold none of the marks, in order.
pub open spec fn unmarked(messages: Seq<Seq<char>>, marks: Seq<Seq<char>>) -> Seq<Seq<char>> {
    messages.filter(|m: Seq<char>| is_unmarked(m, marks))
}

proof fn lemma_filter_first(first: Seq<char>, rest: Seq<Seq<char>>, marks: Seq<Seq<char>>)
    ensures
        unmarked(seq![first] + rest, marks) == if is_unmarked(first, marks) {
            seq![first] + unmarked(rest, marks)
        } else {
            unmarked(rest, marks)
        },
{
    let keep = |m: Seq<char>| is_unmarked(m, marks);
    let one = seq![first];
    Seq::filter_distributes_over_add(one, rest, keep);
    reveal(Seq::filter);
    assert(one.drop_last() =~= Seq::empty());
    assert(one.last() == first);
    assert(one.drop_last().filter(keep) =~= Seq::empty());
    assert(Seq::<Seq<char>>::empty().push(first) =~= seq![first]);
    assert(Seq::<Seq<char>>::empty() + rest.filter(keep) =~= rest.filter(keep));
}

proof fn lemma_unmarked_keep_latest(
    messages: Seq<Seq<char>>,
    mark: Seq<char>,
    marks: Seq<Seq<char>>,
    k: int,
)
    requires
        0 <= k < marks.len(),
        marks[k] == mark,
    ensures
        unmarked(keep_latest(messages, mark), marks) == unmarked(messages, marks),
    decreases messages.len(),
{
    if messages.len() > 0 {
        let rest = messages.skip(1);
        lemma_unmarked_keep_latest(rest, mark, marks, k);
        assert(messages =~= seq![messages[0]] + rest);
        lemma_filter_first(messages[0], rest, marks);
        lemma_filter_first(messages[0], keep_latest(rest, mark), marks);
    }
}

proof fn lemma_unmarked_stay(
    messages: Seq<Seq<char>>,
    some: Seq<Seq<char>>,
    marks: Seq<Seq<char>>,
)
    requires
        some.len() <= marks.len(),
        some == marks.skip(marks.len() - some.len()),
    ensures
        unmarked(coalesce(messages, some), marks) == unmarked(messages, marks),
    decreases some.len(),
{
    if some.len() > 0 {
        let k = marks.len() - some.len();
        assert(some[0] == marks[k]);
        lemma_unmarked_keep_latest(messages, some[0], marks, k);
        assert(some.skip(1) =~= marks.skip(k + 1));
        lemma_unmarked_stay(keep_latest(messages, some[0]), some.skip(1), marks);
    } else {
    }
}

proof fn lemma_keep_latest_counts(messages: Seq<Seq<char>>, mark: Seq<char>, other: Seq<char>)
    ensures
        count_holding(keep_latest(messages, mark), other) <= count_holding(messages, other),
    decreases messages.len(),
{
    if messages.len() > 0 {
        let kept = keep_latest(messages.skip(1), mark);
        lemma_keep_latest_counts(messages.skip(1), mark, other);
        assert((seq![messages[0]] + kept).skip(1) =~= kept);
    }
}

proof fn lemma_coalesce_counts(
    messages: Seq<Seq<char>>,
    marks: Seq<Seq<char>>,
    other: Seq<char>,
)
    ensures
        count_holding(coalesce(messages, marks), other) <= count_holding(messages, other),
    decreases marks.len(),
{
    if marks.len() > 0 {
        lemma_keep_latest_counts(messages, marks[0], other);
        lemma_coalesce_counts(keep_latest(messages, marks[0]), marks.skip(1), other);
    }
}

/// Once a queue is coalesced, no family occurs twice in it.
pub proof fn law_coalesced_families_occur_once(
    messages: Seq<Seq<char>>,
    marks: Seq<Seq<char>>,
    k: int,
)
    requires
        0 <= k < marks.len(),
    ensures
        count_holding(coalesce(messages, marks), marks[k]) <= 1,
    decreases marks.len(),
{
    let next = keep_latest(messages, marks[0]);
    if k == 0 {
        law_one_message_per_family(messages, marks[0]);
        lemma_coalesce_counts(next, marks.skip(1), marks[0]);
    } else {
        law_coalesced_families_occur_once(next, marks.skip(1), k - 1);
    }
}

proof fn lemma_first_edit(messages: Seq<Seq<char>>, i: int)
    requires
        0 <= i <= messages.len(),
    ensures
        match first_edit_from(messages, i) {
            Some(at) => i <= at < messages.len() && !is_command(messages[at]),
            None => forall|j: int| i <= j < messages.len() ==> is_command(#[trigger] messages[j]),
        },
    decreases messages.len() - i,
{
    if i < messages.len() && is_command(messages[i]) {
        lemma_first_edit(messages, i + 1);
    }
}

proof fn lemma_commands_remove(messages: Seq<Seq<char>>, at: int)
    requires
        0 <= at < messages.len(),
        !is_command(messages[at]),
    ensures
        commands(messages.remove(at)) == commands(messages),
    decreases messages.len(),
{
    let rest = messages.skip(1);
    if at == 0 {
        assert(messages.remove(0) =~= rest);
    } else {
        lemma_commands_remove(rest, at - 1);
        assert(messages.remove(at).skip(1) =~= rest.remove(at - 1));
    }
}

proof fn lemma_all_commands(messages: Seq<Seq<char>>)
    requires
        forall|j: int| 0 <= j < messages.len() ==> is_command(#[trigger] messages[j]),
    ensures
        commands(messages).len() == messages.len(),
    decreases messages.len(),
{
    if messages.len() > 0 {
        lemma_all_commands(messages.skip(1));
    }
}

/// The queue never exceeds its bound, and one within the bound loses nothing.
pub proof fn law_queue_is_bounded(messages: Seq<Seq<char>>)
    ensures
        bounded(messages).len() <= OUTBOX_CAP,
        messages.len() <= OUTBOX_CAP ==> bounded(messages) == messages,
        messages.len() > OUTBOX_CAP ==> bounded(messages).len() == OUTBOX_CAP,
    decreases messages.len(),
{
    if messages.len() > OUTBOX_CAP {
        lemma_first_edit(messages, 0);
        law_queue_is_bounded(messages.remove(victim(messages)));
    }
}

/// An overflow drops no command as long as the commands alone fit the bound.
pub proof fn law_overflow_keeps_commands(messages: Seq<Seq<char>>)
    requires
        commands(messages).len() <= OUTBOX_CAP,
    ensures
        commands(bounded(messages)) == commands(messages),
    decreases messages.len(),
{
    if messages.len() > OUTBOX_CAP {
        lemma_first_edit(messages, 0);
        if first_edit_from(messages, 0) is None {
            lemma_all_commands(messages);
        }
        lemma_commands_remove(messages, victim(messages));
        law_overflow_keeps_commands(messages.remove(victim(messages)));
    }
}

/// An overflow by one message drops one: the oldest that is no command, and nothing else.
pub proof fn law_overflow_drops_the_oldest_edit(messages: Seq<Seq<char>>, at: int)
    requires
        messages.len() == OUTBOX_CAP + 1,
        0 <= at < messages.len(),
        !is_command(messages[at]),
        forall|j: int| 0 <= j < at ==> is_command(#[trigger] messages[j]),
    ensures
        bounded(messages) == messages.remove(at),
{
    lemma_first_edit(messages, 0);
    let v = victim(messages);
    assert(v == at) by {
        if v < at {
            assert(is_command(messages[v]));
        }
        if v > at {
            lemma_first_edit_least(messages, 0, at);
        }
    }
    assert(bounded(messages.remove(v)) == messages.remove(v));
}

proof fn lemma_first_edit_least(messages: Seq<Seq<char>>, i: int, at: int)
    requires
        0 <= i <= at < messages.len(),
        !is_command(messages[at]),
    ensures
        first_edit_from(messages, i) is Some,
        first_edit_from(messages, i)->Some_0 <= at,
    decreases at - i,
{
    if is_command(messages[i]) {
        lemma_first_edit_least(messages, i + 1, at);
    }
}

} // verus!
