//! One connection to the game: what to do next, given what has just happened on the socket.
use crate::frames::{extract_frames, frame};
use crate::link::GameLink;
use crate::text::decimal_text;
use vstd::prelude::*;

verus! {

/// The time between two pings, in nanoseconds.
pub const PING_INTERVAL: u64 = 5_000_000_000;

/// The longest silence of a living connection, in nanoseconds.
pub const STALE_TIMEOUT: u64 = 20_000_000_000;

/// How long it is since `then`; no time where the clock has not moved on.
pub open spec fn elapsed(now: u64, then: u64) -> int {
    if now >= then {
        now - then
    } else {
        0
    }
}

/// Nothing has come for too long.
pub open spec fn is_stale(s: crate::link::LinkView, now: u64) -> bool {
    match s.last_rx {
        Some(then) => elapsed(now, then) > STALE_TIMEOUT,
        None => false,
    }
}

/// What has just happened.
#[derive(Debug)]
pub enum SocketEvent {
    /// The connection stands.
    Opened,
    /// Every frame that was due has been written.
    Written,
    /// Writing failed at the frame with this index.
    WriteFailed { index: usize, error: String },
    /// The ping has been written.
    PingWritten,
    /// The ping could not be written.
    PingFailed { error: String },
    /// The peer has closed the connection.
    Closed,
    /// This text has come.
    Received { text: String },
    /// Nothing has come within the time a read may take.
    Idle,
    /// Reading failed.
    ReadFailed { error: String },
    /// The payloads have been handed to the link.
    Delivered,
}

/// What to do next.
#[derive(Debug)]
pub enum SocketAction {
    /// Write the frames of `Session::frames`, in order.
    Write,
    /// Write this frame.
    Ping { frame: String },
    /// Read.
    Read,
    /// Hand these payloads to the link, in order.
    Deliver { payloads: Vec<String> },
    /// End the connection.
    Stop { reason: String },
}

#[verifier::ext_equal]
pub enum ActionView {
    Write,
    Ping { frame: Seq<char> },
    Read,
    Deliver { payloads: Seq<Seq<char>> },
    Stop { reason: Seq<char> },
}

impl View for SocketAction {
    type V = ActionView;

    open spec fn view(&self) -> ActionView {
        match *self {
            SocketAction::Write => ActionView::Write,
            SocketAction::Ping { frame } => ActionView::Ping { frame: frame@ },
            SocketAction::Read => ActionView::Read,
            SocketAction::Deliver { payloads } => ActionView::Deliver {
                payloads: crate::text::texts(payloads@),
            },
            SocketAction::Stop { reason } => ActionView::Stop { reason: reason@ },
        }
    }
}

/// The state of one connection.
pub struct Session {
    buffer: String,
    last_ping: u64,
    ping_seq: u64,
    frames: Vec<String>,
}

#[verifier::ext_equal]
pub struct SessionView {
    /// What has come and is no complete frame yet.
    pub buffer: Seq<char>,
    pub last_ping: u64,
    pub ping_seq: u64,
    /// The frames that are being written.
    pub frames: Seq<Seq<char>>,
}

impl View for Session {
    type V = SessionView;

    closed spec fn view(&self) -> SessionView {
        SessionView {
            buffer: self.buffer@,
            last_ping: self.last_ping,
            ping_seq: self.ping_seq,
            frames: crate::text::texts(self.frames@),
        }
    }
}

/// The queue once frames that were not sent are put back in front of it.
pub open spec fn requeued(
    unsent: Seq<Seq<char>>,
    outbox: Seq<Seq<char>>,
) -> Seq<Seq<char>> {
    if unsent.len() == 0 {
        outbox
    } else {
        crate::outbox::bounded(
            crate::outbox::coalesce(
                crate::outbox::coalesce(unsent + outbox, crate::outbox::full_replace_marks()),
                crate::outbox::command_marks(),
            ),
        )
    }
}

/// The ping with this number.
pub open spec fn ping_payload(seq: u64) -> Seq<char> {
    "{\"command\":\"ping\",\"echo\":"@ + crate::text::decimal(seq as nat) + "}"@
}

/// The number after `seq`.
pub open spec fn next_ping(seq: u64) -> u64 {
    if seq == u64::MAX {
        0
    } else {
        (seq + 1) as u64
    }
}

/// Takes everything out of the queue to be written, the newest of each family.
pub open spec fn flushed(
    t: SessionView,
    s: crate::link::LinkView,
) -> (SessionView, crate::link::LinkView, ActionView) {
    (
        SessionView {
            frames: crate::outbox::coalesce(s.outbox, crate::outbox::full_replace_marks()),
            ..t
        },
        crate::link::LinkView { outbox: Seq::empty(), ..s },
        ActionView::Write,
    )
}

/// After a read the connection goes on with what is to be written, unless it is stale.
pub open spec fn resumed(
    t: SessionView,
    s: crate::link::LinkView,
    now: u64,
) -> (SessionView, crate::link::LinkView, ActionView) {
    if is_stale(s, now) {
        (
            t,
            s,
            ActionView::Stop {
                reason:
                    "stale: no frames from the game for 20s (emulator stalled or connection half-open; reconnecting)"@,
            },
        )
    } else {
        flushed(t, s)
    }
}

/// What an event leads to: the next state of the connection and of the link, and what to do.
pub open spec fn stepped(
    t: SessionView,
    s: crate::link::LinkView,
    event: SocketEvent,
    now: u64,
) -> (SessionView, crate::link::LinkView, ActionView) {
    match event {
        SocketEvent::Opened => flushed(SessionView { last_ping: now, ..t }, s),
        SocketEvent::Written => if elapsed(now, t.last_ping) >= PING_INTERVAL {
            let seq = next_ping(t.ping_seq);
            (
                SessionView { ping_seq: seq, frames: Seq::empty(), ..t },
                s,
                ActionView::Ping { frame: crate::frames::framed(ping_payload(seq)) },
            )
        } else {
            (SessionView { frames: Seq::empty(), ..t }, s, ActionView::Read)
        },
        SocketEvent::WriteFailed { index, error } => (
            SessionView { frames: Seq::empty(), ..t },
            crate::link::LinkView {
                outbox: requeued(
                    if index <= t.frames.len() {
                        t.frames.skip(index as int)
                    } else {
                        Seq::empty()
                    },
                    s.outbox,
                ),
                ..s
            },
            ActionView::Stop { reason: "send: "@ + error@ },
        ),
        SocketEvent::PingWritten => (SessionView { last_ping: now, ..t }, s, ActionView::Read),
        SocketEvent::PingFailed { error } => (
            t,
            s,
            ActionView::Stop { reason: "send ping: "@ + error@ },
        ),
        SocketEvent::Closed => (t, s, ActionView::Stop { reason: "closed by plugin"@ }),
        SocketEvent::Received { text } => {
            let (payloads, tail) = crate::frames::split_frames(t.buffer + text@);
            (
                SessionView { buffer: crate::frames::capped(tail), ..t },
                s,
                ActionView::Deliver { payloads },
            )
        },
        SocketEvent::Idle => resumed(t, s, now),
        SocketEvent::ReadFailed { error } => (
            t,
            s,
            ActionView::Stop { reason: "recv: "@ + error@ },
        ),
        SocketEvent::Delivered => resumed(t, s, now),
    }
}

impl Session {
    /// A connection that has just been opened.
    pub fn new(now: u64) -> (session: Self)
        ensures
            session@ == (SessionView {
                buffer: Seq::empty(),
                last_ping: now,
                ping_seq: 0,
                frames: Seq::empty(),
            }),
    {
        let session = Session {
            buffer: String::new(),
            last_ping: now,
            ping_seq: 0,
            frames: Vec::new(),
        };
        assert(session@.frames =~= Seq::empty());
        session
    }

    /// The frames to write.
    pub fn frames(&self) -> (frames: &Vec<String>)
        ensures
            crate::text::texts(frames@) == self@.frames,
    {
        &self.frames
    }

    /// Says what to do after `event`, at time `now`.
    pub fn step(&mut self, link: &mut GameLink, event: SocketEvent, now: u64) -> (action:
        SocketAction)
        requires
            old(link).wf(),
        ensures
            final(link).wf(),
            (final(self)@, final(link)@, action@) == stepped(old(self)@, old(link)@, event, now),
    {
        let ghost t = self@;
        let ghost s = link@;
        match event {
            SocketEvent::Opened => {
                self.last_ping = now;
                self.frames = link.take_pending();
                assert(self@ =~= stepped(t, s, event, now).0);
                SocketAction::Write
            },
            SocketEvent::Written => {
                self.frames = Vec::new();
                assert(crate::text::texts(self.frames@) =~= Seq::empty());
                let since: u64 = if now >= self.last_ping {
                    now - self.last_ping
                } else {
                    0
                };
                if since >= PING_INTERVAL {
                    self.ping_seq = if self.ping_seq == u64::MAX {
                        0
                    } else {
                        self.ping_seq + 1
                    };
                    let mut payload = "{\"command\":\"ping\",\"echo\":".to_owned();
                    payload.append(decimal_text(self.ping_seq).as_str());
                    payload.append("}");
                    SocketAction::Ping { frame: frame(payload.as_str()) }
                } else {
                    SocketAction::Read
                }
            },
            SocketEvent::WriteFailed { index, error } => {
                let mut unsent: Vec<String> = Vec::new();
                std::mem::swap(&mut unsent, &mut self.frames);
                assert(crate::text::texts(self.frames@) =~= Seq::empty());
                let mut dropped: usize = 0;
                let ghost all = crate::text::texts(unsent@);
                assert(all == t.frames);
                assert(all.skip(0) =~= all);
                while dropped < index && unsent.len() > 0
                    invariant
                        dropped <= index,
                        dropped <= all.len(),
                        crate::text::texts(unsent@) == all.skip(dropped as int),
                    decreases index - dropped,
                {
                    unsent.remove(0);
                    assert(crate::text::texts(unsent@) =~= all.skip(dropped as int).remove(0));
                    assert(all.skip(dropped as int).remove(0) =~= all.skip(dropped + 1));
                    dropped += 1;
                }
                proof {
                    assert(crate::text::texts(unsent@).len() == unsent@.len());
                    if index > all.len() {
                        assert(crate::text::texts(unsent@) =~= Seq::empty());
                    } else {
                        assert(dropped == index || unsent@.len() == 0);
                        assert(crate::text::texts(unsent@) =~= all.skip(index as int));
                    }
                }
                link.requeue_front(unsent);
                let mut reason = "send: ".to_owned();
                reason.append(error.as_str());
                SocketAction::Stop { reason }
            },
            SocketEvent::PingWritten => {
                self.last_ping = now;
                SocketAction::Read
            },
            SocketEvent::PingFailed { error } => {
                let mut reason = "send ping: ".to_owned();
                reason.append(error.as_str());
                SocketAction::Stop { reason }
            },
            SocketEvent::Closed => SocketAction::Stop { reason: "closed by plugin".to_owned() },
            SocketEvent::Received { text } => {
                self.buffer.append(text.as_str());
                let payloads = extract_frames(&mut self.buffer);
                SocketAction::Deliver { payloads }
            },
            SocketEvent::Idle => self.resume(link, now),
            SocketEvent::ReadFailed { error } => {
                let mut reason = "recv: ".to_owned();
                reason.append(error.as_str());
                SocketAction::Stop { reason }
            },
            SocketEvent::Delivered => self.resume(link, now),
        }
    }

    fn resume(&mut self, link: &mut GameLink, now: u64) -> (action: SocketAction)
        requires
            old(link).wf(),
        ensures
            final(link).wf(),
            (final(self)@, final(link)@, action@) == resumed(old(self)@, old(link)@, now),
    {
        if link.silent_too_long(now) {
            return SocketAction::Stop {
                reason:
                    "stale: no frames from the game for 20s (emulator stalled or connection half-open; reconnecting)".to_owned(),
            };
        }
        self.frames = link.take_pending();
        SocketAction::Write
    }
}

// ── Failed attempts ──────────────────────────────────────────────────────────

/// Why a connection could not be opened.
#[derive(Clone, Copy, Debug, PartialEq, Eq, Structural)]
pub enum ConnectFailure {
    Refused,
    TimedOut,
    Other,
}

/// What the user can do about it.
pub open spec fn hint_for(failure: ConnectFailure) -> Seq<char> {
    match failure {
        ConnectFailure::Refused =>
            " — is the game running with the Visionary plugin? In Eden set Configure → System → Network → Network Interface to your active card, apply, then restart the game"@,
        ConnectFailure::TimedOut =>
            " — timed out; the emulator's virtual network may be stalled or the Network Interface may be unset (Eden Configure → System → Network)"@,
        ConnectFailure::Other => ""@,
    }
}

/// What the user can do about a failed attempt.
pub fn connect_hint(failure: ConnectFailure) -> (hint: &'static str)
    ensures
        hint@ == hint_for(failure),
{
    match failure {
        ConnectFailure::Refused =>
            " — is the game running with the Visionary plugin? In Eden set Configure → System → Network → Network Interface to your active card, apply, then restart the game",
        ConnectFailure::TimedOut =>
            " — timed out; the emulator's virtual network may be stalled or the Network Interface may be unset (Eden Configure → System → Network)",
        ConnectFailure::Other => "",
    }
}

/// The message about a failed attempt.
pub fn connect_error(address: &str, error: &str, failure: ConnectFailure) -> (message: String)
    ensures
        message@ == "connect to "@ + address@ + ": "@ + error@ + hint_for(failure),
{
    let mut message = "connect to ".to_owned();
    message.append(address);
    message.append(": ");
    message.append(error);
    message.append(connect_hint(failure));
    message
}

// ── Laws ─────────────────────────────────────────────────────────────────────

/// The message holds none of the marks.
pub open spec fn is_plain(message: Seq<char>, marks: Seq<Seq<char>>) -> bool {
    forall|k: int| 0 <= k < marks.len() ==> !crate::text::contains(message, #[trigger] marks[k])
}

/// The messages that hold none of the marks, in order.
pub open spec fn plain(messages: Seq<Seq<char>>, marks: Seq<Seq<char>>) -> Seq<Seq<char>>
    decreases messages.len(),
{
    if messages.len() == 0 {
        messages
    } else if is_plain(messages[0], marks) {
        seq![messages[0]] + plain(messages.skip(1), marks)
    } else {
        plain(messages.skip(1), marks)
    }
}

/// The marks of everything that is coalesced.
pub open spec fn all_marks() -> Seq<Seq<char>> {
    crate::outbox::full_replace_marks() + crate::outbox::command_marks()
}

proof fn lemma_plain_kept(messages: Seq<Seq<char>>, marks: Seq<Seq<char>>, mark: Seq<char>)
    requires
        marks.contains(mark),
    ensures
        plain(crate::outbox::keep_latest(messages, mark), marks) == plain(messages, marks),
    decreases messages.len(),
{
    if messages.len() > 0 {
        let kept = crate::outbox::keep_latest(messages.skip(1), mark);
        lemma_plain_kept(messages.skip(1), marks, mark);
        assert((seq![messages[0]] + kept).skip(1) =~= kept);
        let k = marks.index_of(mark);
        assert(marks[k] == mark);
    }
}

proof fn lemma_plain_coalesced(
    messages: Seq<Seq<char>>,
    marks: Seq<Seq<char>>,
    some: Seq<Seq<char>>,
)
    requires
        forall|k: int| 0 <= k < some.len() ==> marks.contains(#[trigger] some[k]),
    ensures
        plain(crate::outbox::coalesce(messages, some), marks) == plain(messages, marks),
    decreases some.len(),
{
    if some.len() > 0 {
        assert(marks.contains(some[0]));
        lemma_plain_kept(messages, marks, some[0]);
        assert forall|k: int| 0 <= k < some.skip(1).len() implies marks.contains(
            #[trigger] some.skip(1)[k],
        ) by {
            assert(some.skip(1)[k] == some[k + 1]);
        }
        lemma_plain_coalesced(
            crate::outbox::keep_latest(messages, some[0]),
            marks,
            some.skip(1),
        );
    }
}

/// Coalescing never makes a queue longer.
proof fn lemma_coalesced_len(messages: Seq<Seq<char>>, marks: Seq<Seq<char>>)
    ensures
        crate::outbox::coalesce(messages, marks).len() <= messages.len(),
    decreases marks.len(),
{
    if marks.len() > 0 {
        lemma_kept(messages, marks[0]);
        lemma_coalesced_len(crate::outbox::keep_latest(messages, marks[0]), marks.skip(1));
    }
}

proof fn lemma_kept(messages: Seq<Seq<char>>, mark: Seq<char>)
    ensures
        crate::outbox::keep_latest(messages, mark).len() <= messages.len(),
        forall|j: int|
            0 <= j < crate::outbox::keep_latest(messages, mark).len() ==> messages.contains(
                #[trigger] crate::outbox::keep_latest(messages, mark)[j],
            ),
    decreases messages.len(),
{
    if messages.len() > 0 {
        let rest = messages.skip(1);
        let kept = crate::outbox::keep_latest(rest, mark);
        let all = crate::outbox::keep_latest(messages, mark);
        lemma_kept(rest, mark);
        assert forall|j: int| 0 <= j < all.len() implies messages.contains(#[trigger] all[j]) by {
            if all.len() == kept.len() {
                assert(all[j] == kept[j]);
                let i = rest.index_of(kept[j]);
                assert(rest[i] == kept[j]);
                assert(messages[i + 1] == all[j]);
            } else if j == 0 {
                assert(messages[0] == all[0]);
            } else {
                assert(all[j] == kept[j - 1]);
                let i = rest.index_of(kept[j - 1]);
                assert(rest[i] == kept[j - 1]);
                assert(messages[i + 1] == all[j]);
            }
        }
    }
}

/// `message` holds `mark`, and stands at `at` with no other that does behind it.
pub open spec fn leads_at(
    messages: Seq<Seq<char>>,
    message: Seq<char>,
    mark: Seq<char>,
    at: int,
) -> bool {
    &&& 0 <= at < messages.len()
    &&& messages[at] == message
    &&& crate::text::contains(message, mark)
    &&& forall|j: int|
        at < j < messages.len() ==> !crate::text::contains(#[trigger] messages[j], mark)
}

/// `message` is the newest that holds `mark`.
pub open spec fn leads(messages: Seq<Seq<char>>, message: Seq<char>, mark: Seq<char>) -> bool {
    exists|at: int| leads_at(messages, message, mark, at)
}

proof fn lemma_leads_kept(
    messages: Seq<Seq<char>>,
    message: Seq<char>,
    mark: Seq<char>,
    other: Seq<char>,
    at: int,
)
    requires
        leads_at(messages, message, mark, at),
        other == mark || !crate::text::contains(message, other),
    ensures
        leads(crate::outbox::keep_latest(messages, other), message, mark),
    decreases messages.len(),
{
    let rest = messages.skip(1);
    let kept = crate::outbox::keep_latest(rest, other);
    let all = crate::outbox::keep_latest(messages, other);
    if at == 0 {
        assert forall|j: int| 0 <= j < rest.len() implies !crate::text::contains(
            #[trigger] rest[j],
            mark,
        ) by {
            assert(rest[j] == messages[j + 1]);
        }
        assert(all == seq![messages[0]] + kept);
        lemma_kept(rest, other);
        assert forall|j: int| 0 < j < all.len() implies !crate::text::contains(
            #[trigger] all[j],
            mark,
        ) by {
            assert(all[j] == kept[j - 1]);
            let i = rest.index_of(kept[j - 1]);
            assert(rest[i] == kept[j - 1]);
        }
        assert(leads_at(all, message, mark, 0));
    } else {
        assert forall|j: int| at - 1 < j < rest.len() implies !crate::text::contains(
            #[trigger] rest[j],
            mark,
        ) by {
            assert(rest[j] == messages[j + 1]);
        }
        assert(rest[at - 1] == messages[at]);
        assert(leads_at(rest, message, mark, at - 1));
        lemma_leads_kept(rest, message, mark, other, at - 1);
        let p = choose|p: int| leads_at(kept, message, mark, p);
        if all.len() == kept.len() {
            assert(leads_at(all, message, mark, p));
        } else {
            assert(all == seq![messages[0]] + kept);
            assert forall|j: int| p + 1 < j < all.len() implies !crate::text::contains(
                #[trigger] all[j],
                mark,
            ) by {
                assert(all[j] == kept[j - 1]);
            }
            assert(leads_at(all, message, mark, p + 1));
        }
    }
}

proof fn lemma_leads_coalesced(
    messages: Seq<Seq<char>>,
    message: Seq<char>,
    mark: Seq<char>,
    marks: Seq<Seq<char>>,
)
    requires
        leads(messages, message, mark),
        forall|k: int|
            0 <= k < marks.len() ==> #[trigger] marks[k] == mark || !crate::text::contains(
                message,
                marks[k],
            ),
    ensures
        leads(crate::outbox::coalesce(messages, marks), message, mark),
    decreases marks.len(),
{
    if marks.len() > 0 {
        let at = choose|at: int| leads_at(messages, message, mark, at);
        lemma_leads_kept(messages, message, mark, marks[0], at);
        assert forall|k: int| 0 <= k < marks.skip(1).len() implies #[trigger] marks.skip(1)[k]
            == mark || !crate::text::contains(message, marks.skip(1)[k]) by {
            assert(marks.skip(1)[k] == marks[k + 1]);
        }
        lemma_leads_coalesced(
            crate::outbox::keep_latest(messages, marks[0]),
            message,
            mark,
            marks.skip(1),
        );
    }
}

proof fn lemma_requeued(unsent: Seq<Seq<char>>, outbox: Seq<Seq<char>>)
    requires
        unsent.len() + outbox.len() <= crate::outbox::OUTBOX_CAP,
    ensures
        requeued(unsent, outbox) == if unsent.len() == 0 {
            unsent + outbox
        } else {
            crate::outbox::coalesce(
                crate::outbox::coalesce(unsent + outbox, crate::outbox::full_replace_marks()),
                crate::outbox::command_marks(),
            )
        },
{
    if unsent.len() == 0 {
        assert(unsent + outbox =~= outbox);
    } else {
        let once = crate::outbox::coalesce(
            unsent + outbox,
            crate::outbox::full_replace_marks(),
        );
        lemma_coalesced_len(unsent + outbox, crate::outbox::full_replace_marks());
        lemma_coalesced_len(once, crate::outbox::command_marks());
    }
}

/// A failed flush loses no edit: what was not sent comes first again, in its order, before what
/// was queued meanwhile.
pub proof fn law_failed_flush_loses_nothing(unsent: Seq<Seq<char>>, outbox: Seq<Seq<char>>)
    requires
        unsent.len() + outbox.len() <= crate::outbox::OUTBOX_CAP,
    ensures
        plain(requeued(unsent, outbox), all_marks()) == plain(unsent + outbox, all_marks()),
{
    let full = crate::outbox::full_replace_marks();
    let small = crate::outbox::command_marks();
    lemma_requeued(unsent, outbox);
    assert forall|k: int| 0 <= k < full.len() implies all_marks().contains(#[trigger] full[k]) by {
        assert(all_marks()[k] == full[k]);
    }
    assert forall|k: int| 0 <= k < small.len() implies all_marks().contains(
        #[trigger] small[k],
    ) by {
        assert(all_marks()[full.len() + k] == small[k]);
    }
    lemma_plain_coalesced(unsent + outbox, all_marks(), full);
    lemma_plain_coalesced(
        crate::outbox::coalesce(unsent + outbox, full),
        all_marks(),
        small,
    );
}

/// Nor does it lose the state of a family or a command: the newest message with a mark is still
/// queued. It holds no other mark: one that did could go with another family.
pub proof fn law_failed_flush_keeps_the_newest(
    unsent: Seq<Seq<char>>,
    outbox: Seq<Seq<char>>,
    message: Seq<char>,
    mark: Seq<char>,
)
    requires
        unsent.len() + outbox.len() <= crate::outbox::OUTBOX_CAP,
        leads(unsent + outbox, message, mark),
        forall|k: int|
            0 <= k < all_marks().len() ==> #[trigger] all_marks()[k] == mark
                || !crate::text::contains(message, all_marks()[k]),
    ensures
        leads(requeued(unsent, outbox), message, mark),
{
    let full = crate::outbox::full_replace_marks();
    let small = crate::outbox::command_marks();
    lemma_requeued(unsent, outbox);
    if unsent.len() > 0 {
        assert forall|k: int| 0 <= k < full.len() implies #[trigger] full[k] == mark
            || !crate::text::contains(message, full[k]) by {
            assert(all_marks()[k] == full[k]);
        }
        assert forall|k: int| 0 <= k < small.len() implies #[trigger] small[k] == mark
            || !crate::text::contains(message, small[k]) by {
            assert(all_marks()[full.len() + k] == small[k]);
        }
        lemma_leads_coalesced(unsent + outbox, message, mark, full);
        lemma_leads_coalesced(
            crate::outbox::coalesce(unsent + outbox, full),
            message,
            mark,
            small,
        );
    }
}

/// A connection that is silent for too long is given up, whatever else is going on.
pub proof fn law_silence_ends_the_connection(
    t: SessionView,
    s: crate::link::LinkView,
    now: u64,
)
    requires
        is_stale(s, now),
    ensures
        stepped(t, s, SocketEvent::Idle, now).2 is Stop,
        stepped(t, s, SocketEvent::Delivered, now).2 is Stop,
        stepped(t, s, SocketEvent::Idle, now).1 == s,
{
}

/// Any frame proves that the peer lives: right after one, the connection is not stale.
pub proof fn law_a_frame_proves_liveness(s: crate::link::LinkView, now: u64)
    ensures
        !is_stale(crate::link::received(s, now), now),
{
}

/// A ping is due five seconds after the last one, and not before; it asks for an echo of a number
/// that the last one did not have.
pub proof fn law_pings_are_regular(t: SessionView, s: crate::link::LinkView, now: u64)
    ensures
        ({
            let (u, r, action) = stepped(t, s, SocketEvent::Written, now);
            &&& r == s
            &&& u.frames.len() == 0
            &&& u.buffer == t.buffer
            &&& u.last_ping == t.last_ping
            &&& if now - t.last_ping >= 5_000_000_000 {
                &&& u.ping_seq != t.ping_seq
                &&& action == (ActionView::Ping {
                    frame: crate::frames::framed(ping_payload(u.ping_seq)),
                })
            } else {
                action == ActionView::Read && u.ping_seq == t.ping_seq
            }
            &&& stepped(t, s, SocketEvent::PingWritten, now).0.last_ping == now
            &&& stepped(t, s, SocketEvent::PingWritten, now).2 == ActionView::Read
        }),
{
    let (u, r, action) = stepped(t, s, SocketEvent::Written, now);
    assert(u.frames.len() == 0);
}

/// A ping is read as what it is: a command, and the number to send back.
pub proof fn law_pings_read_back(seq: u64)
    ensures
        ({
            let said = crate::reader::read(ping_payload(seq));
            &&& crate::reader::text_in(crate::reader::at(said, "command"@)) == Some("ping"@)
            &&& crate::reader::number_in(crate::reader::at(said, "echo"@)) == Some(seq as int)
        }),
{
    let number = crate::text::decimal(seq as nat);
    crate::reader::lemma_decimal_reads(seq as nat);
    crate::reader::lemma_quoted_reads("ping"@);
    let ping = crate::json::quoted("ping"@);
    reveal_strlit("command");
    reveal_strlit("echo");
    reveal_strlit("ping");
    assert("command"@[0] != "echo"@[0]);
    crate::reader::lemma_object_two(
        "command"@,
        ping,
        crate::reader::Tree::Text("ping"@),
        "echo"@,
        number,
        crate::reader::Tree::Word(number),
    );
    let written = seq!['{'] + crate::reader::field("command"@, ping) + seq![',']
        + crate::reader::field("echo"@, number) + seq!['}'];
    assert(ping =~= seq!['"', 'p', 'i', 'n', 'g', '"']) by {
        reveal_strlit("\"");
        let text = "ping"@;
        assert(text =~= seq!['p', 'i', 'n', 'g']);
        lemma_plain_escape(text);
    }
    reveal_strlit("{\"command\":\"ping\",\"echo\":");
    reveal_strlit("}");
    let start = "{\"command\":\"ping\",\"echo\":"@;
    let opened = seq!['{'] + crate::reader::field("command"@, ping) + (seq![',', '"'] + "echo"@ + seq![
        '"',
        ':',
    ]);
    assert(start =~= opened);
    assert(ping_payload(seq) =~= written);
    crate::reader::lemma_read(
        ping_payload(seq),
        crate::reader::Tree::Object(
            seq![
                ("command"@, crate::reader::Tree::Text("ping"@)),
                ("echo"@, crate::reader::Tree::Word(number)),
            ],
        ),
    );
}

/// Small letters and `_` stand for themselves inside a JSON string.
pub proof fn lemma_plain_escape(text: Seq<char>)
    requires
        forall|i: int| 0 <= i < text.len() ==> '_' <= #[trigger] text[i] <= 'z',
    ensures
        crate::json::escaped_text(text) == text,
    decreases text.len(),
{
    if text.len() > 0 {
        let rest = text.drop_last();
        assert forall|i: int| 0 <= i < rest.len() implies '_' <= #[trigger] rest[i] <= 'z' by {
            assert(rest[i] == text[i]);
        }
        lemma_plain_escape(rest);
        assert('_' <= text[text.len() - 1] <= 'z');
        assert(crate::json::escaped(text.last()) =~= seq![text.last()]);
        assert(crate::json::escaped_text(text) =~= text);
    } else {
        assert(crate::json::escaped_text(text) =~= text);
    }
}

/// Everything that waits is written as soon as the connection stands, and again after every read:
/// nothing stays behind, messages of no family are all written in their order, the newest message
/// is the last, and of each family the newest is written.
pub proof fn law_everything_that_waits_is_written(
    t: SessionView,
    s: crate::link::LinkView,
    event: SocketEvent,
    now: u64,
)
    requires
        event is Opened || ((event is Idle || event is Delivered) && !(s.last_rx is Some && now
            - s.last_rx->Some_0 > 20_000_000_000)),
    ensures
        ({
            let (u, r, action) = stepped(t, s, event, now);
            let marks = crate::outbox::full_replace_marks();
            &&& action == ActionView::Write
            &&& r == (crate::link::LinkView { outbox: Seq::empty(), ..s })
            &&& crate::outbox::unmarked(u.frames, marks) == crate::outbox::unmarked(s.outbox, marks)
            &&& s.outbox.len() > 0 ==> u.frames.len() > 0 && u.frames.last() == s.outbox.last()
            &&& u.buffer == t.buffer
            &&& u.ping_seq == t.ping_seq
            &&& event is Opened ==> u.last_ping == now
        }),
{
    let marks = crate::outbox::full_replace_marks();
    crate::outbox::law_unmarked_messages_stay(s.outbox, marks);
    if s.outbox.len() > 0 {
        crate::outbox::law_newest_message_stays(s.outbox, marks);
    }
}

/// A write that fails puts back every frame from the failed one on: none of them is lost, and none
/// that was written is sent again.
pub proof fn law_failed_writes_come_back(
    t: SessionView,
    s: crate::link::LinkView,
    index: usize,
    error: String,
    now: u64,
)
    requires
        index <= t.frames.len(),
        t.frames.len() + s.outbox.len() <= crate::outbox::OUTBOX_CAP,
    ensures
        ({
            let (u, r, action) = stepped(t, s, SocketEvent::WriteFailed { index, error }, now);
            &&& plain(r.outbox, all_marks()) == plain(
                t.frames.subrange(index as int, t.frames.len() as int) + s.outbox,
                all_marks(),
            )
            &&& action == (ActionView::Stop { reason: "send: "@ + error@ })
        }),
{
    let unsent = t.frames.skip(index as int);
    assert(unsent =~= t.frames.subrange(index as int, t.frames.len() as int));
    law_failed_flush_loses_nothing(unsent, s.outbox);
}

/// What comes in pieces is delivered as if it had come at once, as long as what is unfinished stays
/// short.
pub proof fn law_pieces_are_delivered_in_order(
    t: SessionView,
    s: crate::link::LinkView,
    first: String,
    second: String,
    now: u64,
    later: u64,
)
    requires
        crate::frames::byte_len(crate::frames::split_frames(t.buffer + first@).1) <= 1_048_576,
    ensures
        ({
            let (u, r, one) = stepped(t, s, SocketEvent::Received { text: first }, now);
            let (_, _, two) = stepped(u, r, SocketEvent::Received { text: second }, later);
            &&& r == s
            &&& one is Deliver
            &&& two is Deliver
            &&& one->Deliver_payloads + two->Deliver_payloads == crate::frames::split_frames(
                t.buffer + first@ + second@,
            ).0
        }),
{
    crate::frames::law_fragmented_stream(t.buffer + first@, second@);
}

/// A connection ends for a reason only: something failed, the game closed it, or nothing has come
/// for longer than the limit. Every reason says which of these it was.
pub proof fn law_connections_end_for_a_reason(
    t: SessionView,
    s: crate::link::LinkView,
    event: SocketEvent,
    now: u64,
)
    ensures
        ({
            let silent = s.last_rx matches Some(then) && now - then > 20_000_000_000;
            let (_, _, action) = stepped(t, s, event, now);
            &&& action is Stop <==> match event {
                SocketEvent::WriteFailed { .. } => true,
                SocketEvent::PingFailed { .. } => true,
                SocketEvent::ReadFailed { .. } => true,
                SocketEvent::Closed => true,
                SocketEvent::Idle => silent,
                SocketEvent::Delivered => silent,
                _ => false,
            }
            &&& action matches ActionView::Stop { reason } ==> match event {
                SocketEvent::WriteFailed { index, error } => crate::text::ends_with(reason, error@),
                SocketEvent::PingFailed { error } => crate::text::ends_with(reason, error@),
                SocketEvent::ReadFailed { error } => crate::text::ends_with(reason, error@),
                _ => true,
            }
        }),
{
    let (_, _, action) = stepped(t, s, event, now);
    if action is Stop {
        let reason = action->reason;
        match event {
            SocketEvent::WriteFailed { index, error } => {
                assert(reason.skip(reason.len() - error@.len()) =~= error@);
            },
            SocketEvent::PingFailed { error } => {
                assert(reason.skip(reason.len() - error@.len()) =~= error@);
            },
            SocketEvent::ReadFailed { error } => {
                assert(reason.skip(reason.len() - error@.len()) =~= error@);
            },
            _ => {},
        }
    }
}

/// A step of a connection changes nothing of the link but the messages that wait.
pub proof fn law_steps_change_the_waiting_messages_only(
    t: SessionView,
    s: crate::link::LinkView,
    event: SocketEvent,
    now: u64,
)
    ensures
        ({
            let (_, after, _) = stepped(t, s, event, now);
            &&& after == (crate::link::LinkView { outbox: after.outbox, ..s })
            &&& (event is PingWritten || event is Written || event is Received || event is Closed
                || event is PingFailed || event is ReadFailed) ==> after.outbox == s.outbox
        }),
{
}

} // verus!
