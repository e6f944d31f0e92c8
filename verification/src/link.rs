//! The state of the link to the game: what the game has reported, and what waits to be sent.
use crate::events::{read_event, AssetReport, Event};
use crate::json::open_frame;
use crate::sorted::SortedMap;
use crate::text::same_text;
use crate::wire::{same_capture, CaptureDebugSnapshot, CaptureLine, LiveKind, PinsWire, RpmEffectData};
use vstd::prelude::*;

pub mod captures;
pub mod history;
pub mod messages;
pub mod playback;
pub mod reading;
pub mod sending;
pub mod status;

verus! {

#[derive(Clone, Copy, Debug, PartialEq, Eq, Structural)]
pub enum LinkStatus {
    Disconnected,
    Connecting,
    Connected,
}

/// The link. A caller that shares it between threads holds it under one lock.
pub struct GameLink {
    status: LinkStatus,
    client_id: Option<u64>,
    connection_epoch: u64,
    kinds: SortedMap<u64, LiveKind>,
    /// The captured lines by motion.
    captures: SortedMap<u64, Vec<CaptureLine>>,
    /// The run that each fighter kind and motion was first seen with; no other run is accepted.
    claimed: SortedMap<(i32, u64), u32>,
    captures_seq: u64,
    debug: SortedMap<(i32, u64), CaptureDebugSnapshot>,
    carrier_state: u8,
    carrier_spawned: bool,
    carrier_kinds: usize,
    carrier_seq: u64,
    carrier_gen: u64,
    carrier_error: Option<String>,
    asset: AssetReport,
    asset_seq: u64,
    asset_error: Option<String>,
    /// How many playbacks of each fighter kind and motion have ended.
    ends: SortedMap<(i32, u64), u64>,
    completed: SortedMap<(i32, u64, u32), ()>,
    /// The fighter kinds whose captures are ignored.
    ignored: SortedMap<i32, ()>,
    outbox: Vec<String>,
    last_error: Option<String>,
    frames_rx: u64,
    edits_tx: u64,
    /// When the last frame came, in nanoseconds of the caller's clock.
    last_rx: Option<u64>,
    started: bool,
    rule_send_suppressed: bool,
    project_send_suppressed: bool,
}

/// What the link knows and holds.
#[verifier::ext_equal]
pub struct LinkView {
    pub status: LinkStatus,
    pub client_id: Option<u64>,
    pub connection_epoch: u64,
    pub kinds: Map<u64, LiveKind>,
    pub captures: Map<u64, Seq<crate::wire::CaptureView>>,
    pub claimed: Map<(i32, u64), u32>,
    pub captures_seq: u64,
    pub debug: Map<(i32, u64), CaptureDebugSnapshot>,
    pub carrier_state: u8,
    pub carrier_spawned: bool,
    pub carrier_kinds: usize,
    pub carrier_seq: u64,
    pub carrier_gen: u64,
    pub carrier_error: Option<Seq<char>>,
    pub asset: crate::events::AssetReportView,
    pub asset_seq: u64,
    pub asset_error: Option<Seq<char>>,
    pub ends: Map<(i32, u64), u64>,
    pub completed: Set<(i32, u64, u32)>,
    pub ignored: Set<i32>,
    pub outbox: Seq<Seq<char>>,
    pub last_error: Option<Seq<char>>,
    pub frames_rx: u64,
    pub edits_tx: u64,
    pub last_rx: Option<u64>,
    pub started: bool,
    pub rule_send_suppressed: bool,
    pub project_send_suppressed: bool,
}

/// The views of a list of captured lines.
pub open spec fn line_views(lines: Seq<CaptureLine>) -> Seq<crate::wire::CaptureView> {
    Seq::new(lines.len(), |i: int| lines[i]@)
}

/// The views of the captured lines of every motion.
pub open spec fn capture_views(
    captures: Map<u64, Vec<CaptureLine>>,
) -> Map<u64, Seq<crate::wire::CaptureView>> {
    Map::new(|m: u64| captures.contains_key(m), |m: u64| line_views(captures[m]@))
}

impl View for GameLink {
    type V = LinkView;

    closed spec fn view(&self) -> LinkView {
        LinkView {
            status: self.status,
            client_id: self.client_id,
            connection_epoch: self.connection_epoch,
            kinds: self.kinds@,
            captures: capture_views(self.captures@),
            claimed: self.claimed@,
            captures_seq: self.captures_seq,
            debug: self.debug@,
            carrier_state: self.carrier_state,
            carrier_spawned: self.carrier_spawned,
            carrier_kinds: self.carrier_kinds,
            carrier_seq: self.carrier_seq,
            carrier_gen: self.carrier_gen,
            carrier_error: crate::events::optional_text(self.carrier_error),
            asset: self.asset@,
            asset_seq: self.asset_seq,
            asset_error: crate::events::optional_text(self.asset_error),
            ends: self.ends@,
            completed: self.completed@.dom(),
            ignored: self.ignored@.dom(),
            outbox: crate::text::texts(self.outbox@),
            last_error: crate::events::optional_text(self.last_error),
            frames_rx: self.frames_rx,
            edits_tx: self.edits_tx,
            last_rx: self.last_rx,
            started: self.started,
            rule_send_suppressed: self.rule_send_suppressed,
            project_send_suppressed: self.project_send_suppressed,
        }
    }
}

// ── What holds of every link ─────────────────────────────────────────────────

/// Every captured line stands under its motion, belongs to the run that was claimed for its
/// fighter kind and motion, and occurs once.
pub open spec fn captures_consistent(s: LinkView) -> bool {
    &&& forall|m: u64| #[trigger] s.captures.contains_key(m) ==> s.captures[m].len() > 0
    &&& forall|m: u64, i: int|
        s.captures.contains_key(m) && 0 <= i < s.captures[m].len() ==> {
            let line = #[trigger] s.captures[m][i];
            &&& line.motion == m
            &&& s.claimed.contains_key((line.kind, m))
            &&& s.claimed[(line.kind, m)] == line.run
            &&& !line.frame.is_nan()
        }
    &&& forall|m: u64, i: int, j: int|
        s.captures.contains_key(m) && 0 <= i < j < s.captures[m].len()
            ==> !crate::wire::same_line(#[trigger] s.captures[m][i], #[trigger] s.captures[m][j])
}

/// Nothing is kept of a fighter kind whose captures are ignored.
pub open spec fn ignored_consistent(s: LinkView) -> bool {
    &&& forall|k: (i32, u64)| #[trigger] s.claimed.contains_key(k) ==> !s.ignored.contains(k.0)
    &&& forall|k: (i32, u64)| #[trigger]
        s.debug.contains_key(k) ==> !s.ignored.contains(k.0) && s.debug[k].kind == k.0
            && s.debug[k].motion == k.1
}

/// Only a claimed run is counted as ended, and once.
pub open spec fn ends_consistent(s: LinkView) -> bool {
    &&& forall|r: (i32, u64, u32)| #[trigger]
        s.completed.contains(r) ==> s.claimed.contains_key((r.0, r.1)) && s.claimed[(r.0, r.1)]
            == r.2 && s.ends.contains_key((r.0, r.1))
    &&& forall|k: (i32, u64)| #[trigger]
        s.ends.contains_key(k) ==> s.ends[k] == 1 && s.claimed.contains_key(k)
            && s.completed.contains((k.0, k.1, s.claimed[k]))
}

/// The asset carrier serves no more than what is staged and no generation ahead of the staged
/// one, and is ready only with all of the current one.
pub open spec fn asset_consistent(a: crate::events::AssetReportView) -> bool {
    &&& a.served <= a.staged
    &&& a.serving_generation <= a.generation
    &&& a.ready ==> a.phase == "ready"@ && a.served == a.staged && a.serving_generation
        == a.generation
}

/// The counts of carrier reports do not exceed the count of frames.
pub open spec fn counts_consistent(s: LinkView) -> bool {
    &&& s.carrier_seq <= s.frames_rx
    &&& s.asset_seq <= s.frames_rx
}

/// What holds of every link.
pub open spec fn consistent(s: LinkView) -> bool {
    &&& captures_consistent(s)
    &&& ignored_consistent(s)
    &&& ends_consistent(s)
    &&& asset_consistent(s.asset)
    &&& counts_consistent(s)
    &&& s.client_id is Some ==> s.connection_epoch >= 1
    &&& s.outbox.len() <= crate::outbox::OUTBOX_CAP
}

/// The counters can still count.
pub open spec fn has_room(s: LinkView) -> bool {
    s.frames_rx < u64::MAX && s.edits_tx < u64::MAX && s.captures_seq < u64::MAX
}

// ── What each report does ────────────────────────────────────────────────────

/// A frame has come.
pub open spec fn received(s: LinkView, now: u64) -> LinkView {
    LinkView { frames_rx: (s.frames_rx + 1) as u64, last_rx: Some(now), ..s }
}

/// An effect kind is live: its latest values are replaced, its first values stay.
pub open spec fn noticed(
    s: LinkView,
    id: u64,
    name: String,
    data: RpmEffectData,
    pins: Option<PinsWire>,
    now: u64,
) -> LinkView {
    let kind = if s.kinds.contains_key(id) {
        LiveKind {
            name,
            data,
            pins,
            updates: (s.kinds[id].updates + 1) as u64,
            last_update: now,
            first: s.kinds[id].first,
        }
    } else {
        LiveKind { name, data, first: data, pins, updates: 1, last_update: now }
    };
    LinkView { kinds: s.kinds.insert(id, kind), ..s }
}

/// The lines of a motion.
pub open spec fn lines_of(s: LinkView, motion: u64) -> Seq<crate::wire::CaptureView> {
    if s.captures.contains_key(motion) {
        s.captures[motion]
    } else {
        Seq::empty()
    }
}

/// Some line of the list is the same script line.
pub open spec fn already_captured(
    lines: Seq<crate::wire::CaptureView>,
    line: crate::wire::CaptureView,
) -> bool {
    exists|i: int| 0 <= i < lines.len() && crate::wire::same_line(#[trigger] lines[i], line)
}

/// A line was captured: it is kept unless its fighter kind is ignored, another run owns the
/// motion, or it is there already. The first line of a motion claims it for its run.
pub open spec fn captured(s: LinkView, line: crate::wire::CaptureView) -> LinkView {
    let key = (line.kind, line.motion);
    if s.ignored.contains(line.kind) {
        s
    } else if s.claimed.contains_key(key) && s.claimed[key] != line.run {
        s
    } else {
        let claimed = s.claimed.insert(key, line.run);
        let lines = lines_of(s, line.motion);
        if already_captured(lines, line) {
            LinkView { claimed, ..s }
        } else {
            LinkView {
                claimed,
                captures: s.captures.insert(line.motion, lines.push(line)),
                captures_seq: (s.captures_seq + 1) as u64,
                ..s
            }
        }
    }
}

/// A playback ended: the claimed run of a motion is counted once.
pub open spec fn capture_ended(s: LinkView, kind: i32, motion: u64, run: u32) -> LinkView {
    let key = (kind, motion);
    if s.ignored.contains(kind) || !(s.claimed.contains_key(key) && s.claimed[key] == run)
        || s.completed.contains((kind, motion, run)) {
        s
    } else {
        LinkView {
            completed: s.completed.insert((kind, motion, run)),
            ends: s.ends.insert(
                key,
                (if s.ends.contains_key(key) { s.ends[key] + 1 } else { 1 }) as u64,
            ),
            ..s
        }
    }
}

/// How captures are going: the row replaces the one of the same fighter kind and motion.
pub open spec fn debugged(s: LinkView, row: CaptureDebugSnapshot) -> LinkView {
    if s.ignored.contains(row.kind) {
        s
    } else {
        LinkView { debug: s.debug.insert((row.kind, row.motion), row), ..s }
    }
}

/// All captures are dropped.
pub open spec fn captures_dropped(s: LinkView) -> LinkView {
    LinkView {
        captures: Map::empty(),
        claimed: Map::empty(),
        debug: Map::empty(),
        ends: Map::empty(),
        completed: Set::empty(),
        captures_seq: (s.captures_seq + 1) as u64,
        ..s
    }
}

/// The names of the phases an asset carrier goes through.
pub open spec fn is_phase(phase: Seq<char>) -> bool {
    phase == "idle"@ || phase == "staged"@ || phase == "retiring"@ || phase == "loading"@ || phase
        == "ready"@ || phase == "failed"@
}

/// A character of a fighter's internal name.
pub open spec fn is_target_char(c: char) -> bool {
    'a' <= c <= 'z' || '0' <= c <= '9' || c == '_'
}

/// A report on the asset carrier that can be true: it serves only what is staged, never goes back
/// to an earlier generation, and names a target wherever it stages something.
pub open spec fn asset_report_counts(
    generation: u64,
    r: crate::events::AssetReportView,
) -> bool {
    &&& r.served <= r.staged
    &&& generation <= r.generation
    &&& r.serving_generation <= r.generation
    &&& is_phase(r.phase)
    &&& r.ready ==> r.phase == "ready"@ && r.served == r.staged && r.serving_generation
        == r.generation
    &&& r.target.len() <= 64
    &&& forall|i: int| 0 <= i < r.target.len() ==> is_target_char(#[trigger] r.target[i])
    &&& r.generation == 0 ==> r.target.len() == 0
    &&& r.target.len() == 0 ==> r.staged == 0 && r.served == 0
}

/// A report on the asset carrier: one that cannot be true changes nothing.
pub open spec fn asset_reported(s: LinkView, r: crate::events::AssetReportView) -> LinkView {
    if asset_report_counts(s.asset.generation, r) {
        LinkView { asset: r, asset_seq: (s.asset_seq + 1) as u64, ..s }
    } else {
        s
    }
}

/// The epoch after `epoch`: never 0.
pub open spec fn next_epoch(epoch: u64) -> u64 {
    if epoch == u64::MAX {
        1
    } else {
        (epoch + 1) as u64
    }
}

/// What an event does. An event that carries a form as JSON text does nothing until the form is
/// read.
pub open spec fn applied(s: LinkView, event: crate::events::EventView) -> LinkView {
    match event {
        crate::events::EventView::CaptureEnd { kind, motion, run } => capture_ended(
            s,
            kind,
            motion,
            run,
        ),
        crate::events::EventView::CapturesCleared => captures_dropped(s),
        crate::events::EventView::CarrierStatus {
            state,
            spawned,
            kinds,
            generation,
        } => LinkView {
            carrier_state: state,
            carrier_spawned: spawned,
            carrier_kinds: kinds,
            carrier_gen: generation,
            carrier_seq: (s.carrier_seq + 1) as u64,
            ..s
        },
        crate::events::EventView::CarrierError { reason } => LinkView { carrier_error: reason, ..s
        },
        crate::events::EventView::AssetStatus { report } => asset_reported(s, report),
        crate::events::EventView::AssetError { reason } => LinkView { asset_error: reason, ..s },
        crate::events::EventView::Remove { id } => LinkView { kinds: s.kinds.remove(id), ..s },
        crate::events::EventView::RemoveAll => LinkView { kinds: Map::empty(), ..s },
        crate::events::EventView::ClientId { client_id } => LinkView {
            client_id,
            connection_epoch: if client_id is Some {
                next_epoch(s.connection_epoch)
            } else {
                s.connection_epoch
            },
            ..s
        },
        _ => s,
    }
}

/// What is left to do after an event: to read the form that it carries.
pub open spec fn pending(event: crate::events::EventView) -> crate::events::EventView {
    match event {
        crate::events::EventView::Notify { .. } => event,
        crate::events::EventView::Capture { .. } => event,
        crate::events::EventView::CaptureDebug { .. } => event,
        _ => crate::events::EventView::Nothing,
    }
}

// ── Every report keeps the link consistent ───────────────────────────────────

/// No event breaks what holds of every link.
pub proof fn law_events_keep_consistency(
    s: LinkView,
    event: crate::events::EventView,
    now: u64,
)
    requires
        consistent(s),
        has_room(s),
    ensures
        consistent(applied(received(s, now), event)),
{
}

/// Nor does a captured line with a frame number.
pub proof fn law_captures_keep_consistency(s: LinkView, line: crate::wire::CaptureView)
    requires
        consistent(s),
        !line.frame.is_nan(),
    ensures
        consistent(captured(s, line)),
{
}

// ── The link itself ──────────────────────────────────────────────────────────

impl GameLink {
    /// The maps are in order.
    pub closed spec fn maps_wf(&self) -> bool {
        &&& self.kinds.wf()
        &&& self.captures.wf()
        &&& self.claimed.wf()
        &&& self.debug.wf()
        &&& self.ends.wf()
        &&& self.completed.wf()
        &&& self.ignored.wf()
    }

    /// What holds of every link.
    pub open spec fn wf(&self) -> bool {
        self.maps_wf() && consistent(self@)
    }
}

/// A link that nothing has happened to.
pub open spec fn fresh() -> LinkView {
    LinkView {
        status: LinkStatus::Disconnected,
        client_id: None,
        connection_epoch: 0,
        kinds: Map::empty(),
        captures: Map::empty(),
        claimed: Map::empty(),
        captures_seq: 0,
        debug: Map::empty(),
        carrier_state: 0,
        carrier_spawned: false,
        carrier_kinds: 0,
        carrier_seq: 0,
        carrier_gen: 0,
        carrier_error: None,
        asset: crate::events::AssetReportView {
            target: Seq::empty(),
            generation: 0,
            staged: 0,
            served: 0,
            serving_generation: 0,
            phase: Seq::empty(),
            ready: false,
        },
        asset_seq: 0,
        asset_error: None,
        ends: Map::empty(),
        completed: Set::empty(),
        ignored: Set::empty(),
        outbox: Seq::empty(),
        last_error: None,
        frames_rx: 0,
        edits_tx: 0,
        last_rx: None,
        started: false,
        rule_send_suppressed: false,
        project_send_suppressed: false,
    }
}

impl Default for GameLink {
    fn default() -> (link: Self)
        ensures
            link.wf(),
            link@ == fresh(),
    {
        let link = GameLink {
            status: LinkStatus::Disconnected,
            client_id: None,
            connection_epoch: 0,
            kinds: SortedMap::new(),
            captures: SortedMap::new(),
            claimed: SortedMap::new(),
            captures_seq: 0,
            debug: SortedMap::new(),
            carrier_state: 0,
            carrier_spawned: false,
            carrier_kinds: 0,
            carrier_seq: 0,
            carrier_gen: 0,
            carrier_error: None,
            asset: AssetReport {
                target: String::new(),
                generation: 0,
                staged: 0,
                served: 0,
                serving_generation: 0,
                phase: String::new(),
                ready: false,
            },
            asset_seq: 0,
            asset_error: None,
            ends: SortedMap::new(),
            completed: SortedMap::new(),
            ignored: SortedMap::new(),
            outbox: Vec::new(),
            last_error: None,
            frames_rx: 0,
            edits_tx: 0,
            last_rx: None,
            started: false,
            rule_send_suppressed: false,
            project_send_suppressed: false,
        };
        assert(link@ =~= fresh());
        link
    }
}

/// Whether `line` is in the list already.
fn holds_line(lines: &Vec<CaptureLine>, line: &CaptureLine) -> (b: bool)
    ensures
        b == already_captured(line_views(lines@), line@),
{
    let mut i: usize = 0;
    while i < lines.len()
        invariant
            i <= lines@.len(),
            forall|j: int|
                0 <= j < i ==> !crate::wire::same_line(#[trigger] line_views(lines@)[j], line@),
        decreases lines@.len() - i,
    {
        assert(line_views(lines@)[i as int] == lines@[i as int]@);
        if same_capture(&lines[i], line) {
            return true;
        }
        i += 1;
    }
    false
}

/// Whether a report on the asset carrier can be true.
fn report_counts(generation: u64, report: &AssetReport) -> (b: bool)
    ensures
        b == asset_report_counts(generation, report@),
{
    let phase = report.phase.as_str();
    let known = same_text(phase, "idle") || same_text(phase, "staged") || same_text(
        phase,
        "retiring",
    ) || same_text(phase, "loading") || same_text(phase, "ready") || same_text(phase, "failed");
    if report.served > report.staged || report.generation < generation
        || report.serving_generation > report.generation || !known {
        return false;
    }
    if report.ready && (!same_text(phase, "ready") || report.served != report.staged
        || report.serving_generation != report.generation) {
        return false;
    }
    let target = crate::text::chars_of(report.target.as_str());
    if target.len() > 64 || (report.generation == 0 && target.len() != 0) || (target.len() == 0 && (
    report.staged != 0 || report.served != 0)) {
        return false;
    }
    let mut i: usize = 0;
    while i < target.len()
        invariant
            i <= target@.len(),
            target@ == report@.target,
            forall|j: int| 0 <= j < i ==> is_target_char(#[trigger] report@.target[j]),
        decreases target@.len() - i,
    {
        let c = target[i];
        if !(('a' <= c && c <= 'z') || ('0' <= c && c <= '9') || c == '_') {
            assert(!is_target_char(report@.target[i as int]));
            return false;
        }
        i += 1;
    }
    true
}

impl GameLink {
    /// Takes in a payload from the game at time `now`. What comes back is a form that is still to
    /// be read: it goes to `on_notify`, `on_capture` or `on_capture_debug`.
    pub fn handle_frame(&mut self, payload: &str, now: u64) -> (left: Event)
        requires
            old(self).wf(),
            has_room(old(self)@),
        ensures
            final(self).wf(),
            match crate::json::frame_of(payload@) {
                Some((header, section)) => {
                    &&& final(self)@ == applied(
                        received(old(self)@, now),
                        crate::events::event_of(header, section),
                    )
                    &&& left@ == pending(crate::events::event_of(header, section))
                },
                None => final(self)@ == old(self)@ && left@ == crate::events::EventView::Nothing,
            },
    {
        match open_frame(payload) {
            Some(frame) => {
                let event = read_event(frame.header.as_str(), &frame.section);
                self.handle_event(event, now)
            },
            None => Event::Nothing,
        }
    }

    /// Takes in an event at time `now`.
    pub fn handle_event(&mut self, event: Event, now: u64) -> (left: Event)
        requires
            old(self).wf(),
            has_room(old(self)@),
        ensures
            final(self).wf(),
            final(self)@ == applied(received(old(self)@, now), event@),
            left@ == pending(event@),
    {
        let ghost before = self@;
        let ghost what = event@;
        proof {
            law_events_keep_consistency(before, what, now);
        }
        self.frames_rx = self.frames_rx + 1;
        self.last_rx = Some(now);
        let left = match event {
            Event::CaptureEnd { kind, motion, run } => {
                self.end_capture(kind, motion, run);
                Event::Nothing
            },
            Event::CapturesCleared => {
                self.drop_captures();
                Event::Nothing
            },
            Event::CarrierStatus { state, spawned, kinds, generation } => {
                self.carrier_state = state;
                self.carrier_spawned = spawned;
                self.carrier_kinds = kinds;
                self.carrier_gen = generation;
                self.carrier_seq = self.carrier_seq + 1;
                Event::Nothing
            },
            Event::CarrierError { reason } => {
                self.carrier_error = reason;
                Event::Nothing
            },
            Event::AssetStatus { report } => {
                if report_counts(self.asset.generation, &report) {
                    self.asset = report;
                    self.asset_seq = self.asset_seq + 1;
                }
                Event::Nothing
            },
            Event::AssetError { reason } => {
                self.asset_error = reason;
                Event::Nothing
            },
            Event::Remove { id } => {
                self.kinds.remove(&id);
                Event::Nothing
            },
            Event::RemoveAll => {
                self.kinds = SortedMap::new();
                Event::Nothing
            },
            Event::ClientId { client_id } => {
                if client_id.is_some() {
                    self.connection_epoch = if self.connection_epoch == u64::MAX {
                        1
                    } else {
                        self.connection_epoch + 1
                    };
                }
                self.client_id = client_id;
                Event::Nothing
            },
            Event::Nothing => Event::Nothing,
            other => other,
        };
        assert(self@ =~= applied(received(before, now), what));
        left
    }

    fn end_capture(&mut self, kind: i32, motion: u64, run: u32)
        requires
            old(self).maps_wf(),
            ends_consistent(old(self)@),
        ensures
            final(self).maps_wf(),
            final(self)@ == capture_ended(old(self)@, kind, motion, run),
    {
        let ghost before = self@;
        if self.ignored.contains_key(&kind) {
            return ;
        }
        match self.claimed.get(&(kind, motion)) {
            Some(claim) => {
                if *claim != run {
                    return ;
                }
            },
            None => {
                return ;
            },
        }
        if self.completed.contains_key(&(kind, motion, run)) {
            return ;
        }
        self.completed.insert((kind, motion, run), ());
        let count: u64 = match self.ends.get(&(kind, motion)) {
            Some(n) => *n + 1,
            None => 1,
        };
        self.ends.insert((kind, motion), count);
        assert(self@ =~= capture_ended(before, kind, motion, run));
    }

    fn drop_captures(&mut self)
        requires
            old(self).maps_wf(),
            old(self)@.captures_seq < u64::MAX,
        ensures
            final(self).maps_wf(),
            final(self)@ == captures_dropped(old(self)@),
    {
        let ghost before = self@;
        self.captures = SortedMap::new();
        self.claimed = SortedMap::new();
        self.debug = SortedMap::new();
        self.ends = SortedMap::new();
        self.completed = SortedMap::new();
        self.captures_seq = self.captures_seq + 1;
        assert(self@ =~= captures_dropped(before));
    }

    /// Takes in the values of an effect kind, which arrived in a frame at time `now`.
    pub fn on_notify(
        &mut self,
        id: u64,
        name: String,
        data: RpmEffectData,
        pins: Option<PinsWire>,
        now: u64,
    )
        requires
            old(self).wf(),
            old(self)@.kinds.contains_key(id) ==> old(self)@.kinds[id].updates < u64::MAX,
        ensures
            final(self).wf(),
            final(self)@ == noticed(old(self)@, id, name, data, pins, now),
    {
        let ghost before = self@;
        let kind = match self.kinds.get(&id) {
            Some(known) => LiveKind {
                name,
                data,
                first: known.first.clone(),
                pins,
                updates: known.updates + 1,
                last_update: now,
            },
            None => LiveKind {
                name,
                first: data.clone(),
                data,
                pins,
                updates: 1,
                last_update: now,
            },
        };
        self.kinds.insert(id, kind);
        assert(self@ =~= noticed(before, id, name, data, pins, now));
    }

    /// Takes in a captured line.
    pub fn on_capture(&mut self, line: CaptureLine)
        requires
            old(self).wf(),
            old(self)@.captures_seq < u64::MAX,
            !line.frame.is_nan(),
        ensures
            final(self).wf(),
            final(self)@ == captured(old(self)@, line@),
    {
        let ghost before = self@;
        proof {
            law_captures_keep_consistency(before, line@);
        }
        if self.ignored.contains_key(&line.kind) {
            return ;
        }
        match self.claimed.get(&(line.kind, line.motion)) {
            Some(claim) => {
                if *claim != line.run {
                    return ;
                }
            },
            None => {},
        }
        let motion: u64 = line.motion;
        self.claimed.insert((line.kind, line.motion), line.run);
        let mut lines: Vec<CaptureLine> = match self.captures.remove(&motion) {
            Some(lines) => lines,
            None => Vec::new(),
        };
        let ghost old_lines = line_views(lines@);
        assert(old_lines =~= lines_of(before, motion));
        if holds_line(&lines, &line) {
            self.captures.insert(motion, lines);
            assert(self@ =~= captured(before, line@));
        } else {
            let ghost said = line@;
            lines.push(line);
            assert(line_views(lines@) =~= old_lines.push(said));
            self.captures.insert(motion, lines);
            self.captures_seq = self.captures_seq + 1;
            assert(self@ =~= captured(before, said));
        }
    }

    /// Takes in a row on how captures are going.
    pub fn on_capture_debug(&mut self, row: CaptureDebugSnapshot)
        requires
            old(self).wf(),
        ensures
            final(self).wf(),
            final(self)@ == debugged(old(self)@, row),
    {
        let ghost before = self@;
        if !self.ignored.contains_key(&row.kind) {
            self.debug.insert((row.kind, row.motion), row);
        }
        assert(self@ =~= debugged(before, row));
    }
}

// ── What reports do ──────────────────────────────────────────────────────────

/// A report on the asset carrier that can be true is taken as it is, and counted; one that cannot
/// be leaves the last one.
pub proof fn law_true_reports_are_taken(s: LinkView, r: crate::events::AssetReportView, now: u64)
    requires
        s.asset_seq < u64::MAX,
    ensures
        ({
            let t = applied(received(s, now), crate::events::EventView::AssetStatus { report: r });
            let is_possible = r.served <= r.staged && r.generation >= s.asset.generation
                && r.serving_generation <= r.generation && is_phase(r.phase) && (r.ready ==> r.phase
                == "ready"@ && r.served == r.staged && r.serving_generation == r.generation)
                && r.target.len() <= 64 && (forall|i: int|
                0 <= i < r.target.len() ==> is_target_char(#[trigger] r.target[i])) && (
            r.generation == 0 ==> r.target.len() == 0) && (r.target.len() == 0 ==> r.staged == 0
                && r.served == 0);
            &&& is_possible ==> t.asset == r && t.asset_seq == s.asset_seq + 1
            &&& !is_possible ==> t.asset == s.asset && t.asset_seq == s.asset_seq
            &&& t.captures == s.captures && t.kinds == s.kinds && t.outbox == s.outbox
        }),
{
}

/// A report on the effect carrier is taken as it is, and counted.
pub proof fn law_carrier_reports_are_taken(
    s: LinkView,
    state: u8,
    spawned: bool,
    kinds: usize,
    generation: u64,
    now: u64,
)
    requires
        s.carrier_seq < u64::MAX,
    ensures
        ({
            let t = applied(
                received(s, now),
                crate::events::EventView::CarrierStatus { state, spawned, kinds, generation },
            );
            &&& t.carrier_state == state
            &&& t.carrier_spawned == spawned
            &&& t.carrier_kinds == kinds
            &&& t.carrier_gen == generation
            &&& t.carrier_seq == s.carrier_seq + 1
            &&& t.asset == s.asset
            &&& t.kinds == s.kinds
        }),
{
}

/// Taking one effect kind away leaves every other, and taking all away leaves none.
pub proof fn law_removals_take_what_they_name(s: LinkView, id: u64, other: u64, now: u64)
    ensures
        ({
            let t = applied(received(s, now), crate::events::EventView::Remove { id });
            let u = applied(received(s, now), crate::events::EventView::RemoveAll);
            &&& !t.kinds.contains_key(id)
            &&& other != id ==> t.kinds.contains_key(other) == s.kinds.contains_key(other)
            &&& other != id && s.kinds.contains_key(other) ==> t.kinds[other] == s.kinds[other]
            &&& !u.kinds.contains_key(other)
            &&& t.captures == s.captures && u.captures == s.captures
        }),
{
}

/// Every frame is counted and proves that the game is alive.
pub proof fn law_frames_are_counted(s: LinkView, event: crate::events::EventView, now: u64)
    requires
        s.frames_rx < u64::MAX,
    ensures
        applied(received(s, now), event).frames_rx == s.frames_rx + 1,
        applied(received(s, now), event).last_rx == Some(now),
        applied(received(s, now), event).outbox == s.outbox,
{
}

/// A line that is new is stored behind the others of its motion; lines of other motions, and those
/// that were there, stay as they are.
pub proof fn law_new_lines_are_stored(s: LinkView, line: crate::wire::CaptureView)
    requires
        !s.ignored.contains(line.kind),
        s.claimed.contains_key((line.kind, line.motion)) ==> s.claimed[(line.kind, line.motion)]
            == line.run,
        s.captures_seq < u64::MAX,
        forall|i: int|
            s.captures.contains_key(line.motion) && 0 <= i < s.captures[line.motion].len()
                ==> !crate::wire::same_line(#[trigger] s.captures[line.motion][i], line),
    ensures
        ({
            let t = captured(s, line);
            &&& t.captures.contains_key(line.motion)
            &&& t.captures[line.motion] == (if s.captures.contains_key(line.motion) {
                s.captures[line.motion]
            } else {
                Seq::empty()
            }).push(line)
            &&& t.captures_seq == s.captures_seq + 1
            &&& forall|m: u64|
                m != line.motion ==> #[trigger] t.captures.contains_key(m)
                    == s.captures.contains_key(m) && (s.captures.contains_key(m) ==> t.captures[m]
                    == s.captures[m])
        }),
{
}

/// Two lines are one script line just where the same call was made with the same arguments, within
/// one run of one motion by one fighter kind, and the editor shows the same frame for both.
pub proof fn law_script_lines_are_told_apart(
    a: crate::wire::CaptureView,
    b: crate::wire::CaptureView,
)
    ensures
        crate::wire::same_line(a, b) <==> {
            &&& a.run == b.run && a.kind == b.kind && a.motion == b.motion && a.func == b.func
            &&& a.frame.shown_frame() == b.frame.shown_frame()
            &&& a.args.len() == b.args.len()
            &&& forall|i: int|
                0 <= i < a.args.len() ==> crate::wire::same_arg(#[trigger] a.args[i], b.args[i])
        },
{
}

/// How captures are going is kept for each fighter kind and motion: the newest row replaces the
/// one before, and no other.
pub proof fn law_newest_rows_are_kept(s: LinkView, row: CaptureDebugSnapshot, other: (i32, u64))
    requires
        !s.ignored.contains(row.kind),
    ensures
        debugged(s, row).debug.contains_key((row.kind, row.motion)),
        debugged(s, row).debug[(row.kind, row.motion)] == row,
        other != (row.kind, row.motion) ==> debugged(s, row).debug.contains_key(other)
            == s.debug.contains_key(other) && (s.debug.contains_key(other) ==> debugged(
            s,
            row,
        ).debug[other] == s.debug[other]),
        debugged(s, row).captures == s.captures,
{
}

/// The end of the claimed run is counted, once; that of another run is not.
pub proof fn law_ends_are_counted_once(s: LinkView, kind: i32, motion: u64, run: u32)
    requires
        !s.ignored.contains(kind),
        !s.ends.contains_key((kind, motion)),
        !s.completed.contains((kind, motion, run)),
    ensures
        ({
            let t = capture_ended(s, kind, motion, run);
            let is_claimed = s.claimed.contains_key((kind, motion)) && s.claimed[(kind, motion)]
                == run;
            &&& is_claimed ==> t.ends.contains_key((kind, motion)) && t.ends[(kind, motion)] == 1
                && t.completed.contains((kind, motion, run))
            &&& !is_claimed ==> t == s
            &&& capture_ended(t, kind, motion, run) == t
        }),
{
}

/// Clearing drops everything that was captured, and what was claimed with it.
pub proof fn law_clearing_drops_all_captures(s: LinkView)
    requires
        s.captures_seq < u64::MAX,
    ensures
        ({
            let t = captures_dropped(s);
            &&& forall|m: u64| !#[trigger] t.captures.contains_key(m)
            &&& forall|k: (i32, u64)|
                !#[trigger] t.claimed.contains_key(k) && !t.debug.contains_key(k)
                    && !t.ends.contains_key(k)
            &&& forall|r: (i32, u64, u32)| !#[trigger] t.completed.contains(r)
            &&& t.captures_seq == s.captures_seq + 1
            &&& t.kinds == s.kinds && t.ignored == s.ignored && t.outbox == s.outbox
        }),
{
}

/// A report names a phase that there is, and a target spelled with small letters, digits and `_`.
pub proof fn law_reports_are_well_spelled(
    generation: u64,
    r: crate::events::AssetReportView,
    i: int,
)
    requires
        asset_report_counts(generation, r),
        0 <= i < r.target.len(),
    ensures
        ({
            let code = r.target[i] as u32;
            48 <= code <= 57 || 97 <= code <= 122 || code == 95
        }),
        seq!["idle"@, "staged"@, "retiring"@, "loading"@, "ready"@, "failed"@].contains(r.phase),
        r.target.len() <= 64,
        r.generation > 0,
{
    let phases = seq!["idle"@, "staged"@, "retiring"@, "loading"@, "ready"@, "failed"@];
    assert(phases[0] == "idle"@ && phases[1] == "staged"@ && phases[2] == "retiring"@);
    assert(phases[3] == "loading"@ && phases[4] == "ready"@ && phases[5] == "failed"@);
}

} // verus!
