//! What a frame from the game means.
use crate::json::{Form, Section};
use crate::text::same_text;
use vstd::prelude::*;

verus! {

/// A report on the asset carrier.
#[derive(Debug)]
pub struct AssetReport {
    pub target: String,
    pub generation: u64,
    pub staged: usize,
    pub served: usize,
    pub serving_generation: u64,
    pub phase: String,
    pub ready: bool,
}

#[verifier::ext_equal]
pub struct AssetReportView {
    pub target: Seq<char>,
    pub generation: u64,
    pub staged: usize,
    pub served: usize,
    pub serving_generation: u64,
    pub phase: Seq<char>,
    pub ready: bool,
}

impl View for AssetReport {
    type V = AssetReportView;

    open spec fn view(&self) -> AssetReportView {
        AssetReportView {
            target: self.target@,
            generation: self.generation,
            staged: self.staged,
            served: self.served,
            serving_generation: self.serving_generation,
            phase: self.phase@,
            ready: self.ready,
        }
    }
}

/// What a frame means. Forms with numbers in them (`value`, `pins`, `line`, `row`) are carried
/// as JSON text.
#[derive(Debug)]
pub enum Event {
    /// Nothing beyond the fact that a frame came.
    Nothing,
    /// An effect kind is live with these values.
    Notify { id: u64, name: String, value: Form, pins: Option<Form> },
    /// A script call was captured.
    Capture { line: String },
    /// A playback ended, and all its lines have been sent.
    CaptureEnd { kind: i32, motion: u64, run: u32 },
    /// How captures are going.
    CaptureDebug { row: String },
    /// The game has dropped its captures.
    CapturesCleared,
    /// How far the effect carrier is.
    CarrierStatus { state: u8, spawned: bool, kinds: usize, generation: u64 },
    /// The effect carrier was refused.
    CarrierError { reason: Option<String> },
    /// How far the asset carrier is.
    AssetStatus { report: AssetReport },
    /// The asset bundle was refused.
    AssetError { reason: Option<String> },
    /// An effect kind is gone.
    Remove { id: u64 },
    /// Every effect kind is gone.
    RemoveAll,
    /// The game has given the connection a name.
    ClientId { client_id: Option<u64> },
}

#[verifier::ext_equal]
pub enum EventView {
    Nothing,
    Notify {
        id: u64,
        name: Seq<char>,
        value: crate::json::FormView,
        pins: Option<crate::json::FormView>,
    },
    Capture { line: Seq<char> },
    CaptureEnd { kind: i32, motion: u64, run: u32 },
    CaptureDebug { row: Seq<char> },
    CapturesCleared,
    CarrierStatus { state: u8, spawned: bool, kinds: usize, generation: u64 },
    CarrierError { reason: Option<Seq<char>> },
    AssetStatus { report: AssetReportView },
    AssetError { reason: Option<Seq<char>> },
    Remove { id: u64 },
    RemoveAll,
    ClientId { client_id: Option<u64> },
}

/// The view of a text that may be missing.
pub open spec fn optional_text(text: Option<String>) -> Option<Seq<char>> {
    match text {
        Some(t) => Some(t@),
        None => None,
    }
}

impl View for Event {
    type V = EventView;

    open spec fn view(&self) -> EventView {
        match *self {
            Event::Nothing => EventView::Nothing,
            Event::Notify { id, name, value, pins } => EventView::Notify {
                id,
                name: name@,
                value: value@,
                pins: crate::json::optional_form(pins),
            },
            Event::Capture { line } => EventView::Capture { line: line@ },
            Event::CaptureEnd { kind, motion, run } => EventView::CaptureEnd { kind, motion, run },
            Event::CaptureDebug { row } => EventView::CaptureDebug { row: row@ },
            Event::CapturesCleared => EventView::CapturesCleared,
            Event::CarrierStatus { state, spawned, kinds, generation } => EventView::CarrierStatus {
                state,
                spawned,
                kinds,
                generation,
            },
            Event::CarrierError { reason } => EventView::CarrierError {
                reason: optional_text(reason),
            },
            Event::AssetStatus { report } => EventView::AssetStatus { report: report@ },
            Event::AssetError { reason } => EventView::AssetError {
                reason: optional_text(reason),
            },
            Event::Remove { id } => EventView::Remove { id },
            Event::RemoveAll => EventView::RemoveAll,
            Event::ClientId { client_id } => EventView::ClientId { client_id },
        }
    }
}

/// The value, or `default` where there is none.
pub open spec fn or<T>(value: Option<T>, default: T) -> T {
    match value {
        Some(v) => v,
        None => default,
    }
}

/// An effect kind is reported with an id and with values; its name defaults to `?`.
pub open spec fn notify_event(section: crate::json::SectionView) -> EventView {
    match (section.unsigned("id"@), section.form("value_in_json"@)) {
        (Some(id), Some(value)) => EventView::Notify {
            id,
            name: or(section.words("name"@), "?"@),
            value,
            pins: if section.value("pinned_in_json"@) == Some(crate::json::JsonView::Null) {
                None
            } else {
                section.form("pinned_in_json"@)
            },
        },
        _ => EventView::Nothing,
    }
}

/// An end of playback names its fighter kind and motion; its run defaults to 0.
pub open spec fn capture_end_event(section: crate::json::SectionView) -> EventView {
    match (section.signed("kind"@), section.unsigned("motion"@)) {
        (Some(kind), Some(motion)) => EventView::CaptureEnd {
            kind: kind as i32,
            motion,
            run: or(section.unsigned("run"@), 0) as u32,
        },
        _ => EventView::Nothing,
    }
}

/// What the effect carrier leaves out counts as 0 or false.
pub open spec fn carrier_status_event(section: crate::json::SectionView) -> EventView {
    EventView::CarrierStatus {
        state: or(section.unsigned("state"@), 0) as u8,
        spawned: or(section.truth("spawned"@), false),
        kinds: or(section.unsigned("kinds"@), 0) as usize,
        generation: or(section.unsigned("gen"@), 0),
    }
}

/// Only a report of the carrier that is recreated on activation counts, and it has to be complete.
pub open spec fn asset_status_event(section: crate::json::SectionView) -> EventView {
    if section.words("activation"@) != Some("carrier_recreate"@) {
        EventView::Nothing
    } else {
        match (
            section.words("target"@),
            section.unsigned("generation"@),
            section.unsigned("staged"@),
            section.unsigned("served"@),
        ) {
            (Some(target), Some(generation), Some(staged), Some(served)) => if staged <= usize::MAX
                && served <= usize::MAX {
                EventView::AssetStatus {
                    report: AssetReportView {
                        target,
                        generation,
                        staged: staged as usize,
                        served: served as usize,
                        serving_generation: or(
                            section.unsigned("serving_generation"@),
                            generation,
                        ),
                        phase: or(section.words("phase"@), "staged"@),
                        ready: or(section.truth("ready"@), false),
                    },
                }
            } else {
                EventView::Nothing
            },
            _ => EventView::Nothing,
        }
    }
}

/// The reason a section gives.
pub open spec fn reason_of(section: Option<crate::json::SectionView>) -> Option<Seq<char>> {
    match section {
        Some(s) => s.words("reason"@),
        None => None,
    }
}

/// What a frame means, by its header and the part of its body under the header's name.
pub open spec fn event_of(
    header: Seq<char>,
    section: Option<crate::json::SectionView>,
) -> EventView {
    if header == "AcmdCaptureCleared"@ {
        EventView::CapturesCleared
    } else if header == "CarrierError"@ {
        EventView::CarrierError { reason: reason_of(section) }
    } else if header == "AssetBundleError"@ {
        EventView::AssetError { reason: reason_of(section) }
    } else if header == "RemoveAll"@ {
        EventView::RemoveAll
    } else if header == "GiveClientId"@ {
        EventView::ClientId {
            client_id: match section {
                Some(s) => s.unsigned("client_id"@),
                None => None,
            },
        }
    } else {
        match section {
            None => EventView::Nothing,
            Some(s) => if header == "Notify"@ {
                notify_event(s)
            } else if header == "AcmdCapture"@ {
                EventView::Capture { line: s.text }
            } else if header == "AcmdCaptureEnd"@ {
                capture_end_event(s)
            } else if header == "AcmdCaptureDebug"@ {
                EventView::CaptureDebug { row: s.text }
            } else if header == "CarrierStatus"@ {
                carrier_status_event(s)
            } else if header == "AssetBundleStatus"@ {
                asset_status_event(s)
            } else if header == "Remove"@ {
                match s.unsigned("id"@) {
                    Some(id) => EventView::Remove { id },
                    None => EventView::Nothing,
                }
            } else {
                EventView::Nothing
            },
        }
    }
}

fn read_notify(section: &Section) -> (event: Event)
    ensures
        event@ == notify_event(section@),
{
    match (section.as_u64("id"), section.form("value_in_json")) {
        (Some(id), Some(value)) => {
            let name = match section.as_str("name") {
                Some(name) => name,
                None => "?".to_owned(),
            };
            let pins = match section.value("pinned_in_json") {
                Some(crate::json::Json::Null) => None,
                _ => section.form("pinned_in_json"),
            };
            Event::Notify { id, name, value, pins }
        },
        _ => Event::Nothing,
    }
}

fn read_capture_end(section: &Section) -> (event: Event)
    ensures
        event@ == capture_end_event(section@),
{
    match (section.as_i64("kind"), section.as_u64("motion")) {
        (Some(kind), Some(motion)) => {
            let run: u64 = match section.as_u64("run") {
                Some(run) => run,
                None => 0,
            };
            Event::CaptureEnd { kind: kind as i32, motion, run: run as u32 }
        },
        _ => Event::Nothing,
    }
}

fn read_carrier_status(section: &Section) -> (event: Event)
    ensures
        event@ == carrier_status_event(section@),
{
    let state: u64 = section.as_u64("state").unwrap_or(0);
    let spawned = section.as_bool("spawned").unwrap_or(false);
    let kinds: u64 = section.as_u64("kinds").unwrap_or(0);
    let generation: u64 = section.as_u64("gen").unwrap_or(0);
    Event::CarrierStatus { state: state as u8, spawned, kinds: kinds as usize, generation }
}

fn read_asset_status(section: &Section) -> (event: Event)
    ensures
        event@ == asset_status_event(section@),
{
    match section.as_str("activation") {
        Some(activation) => {
            if !same_text(activation.as_str(), "carrier_recreate") {
                return Event::Nothing;
            }
        },
        None => {
            return Event::Nothing;
        },
    }
    match (
        section.as_str("target"),
        section.as_u64("generation"),
        section.as_u64("staged"),
        section.as_u64("served"),
    ) {
        (Some(target), Some(generation), Some(staged), Some(served)) => {
            if staged > usize::MAX as u64 || served > usize::MAX as u64 {
                return Event::Nothing;
            }
            let serving_generation: u64 = section.as_u64("serving_generation").unwrap_or(
                generation,
            );
            let phase = match section.as_str("phase") {
                Some(phase) => phase,
                None => "staged".to_owned(),
            };
            let ready = section.as_bool("ready").unwrap_or(false);
            Event::AssetStatus {
                report: AssetReport {
                    target,
                    generation,
                    staged: staged as usize,
                    served: served as usize,
                    serving_generation,
                    phase,
                    ready,
                },
            }
        },
        _ => Event::Nothing,
    }
}

fn read_reason(section: &Option<Section>) -> (reason: Option<String>)
    ensures
        optional_text(reason) == reason_of(crate::json::optional_section(*section)),
{
    match section {
        Some(s) => s.as_str("reason"),
        None => None,
    }
}

/// Reads what a frame means.
pub fn read_event(header: &str, section: &Option<Section>) -> (event: Event)
    ensures
        event@ == event_of(header@, crate::json::optional_section(*section)),
{
    if same_text(header, "AcmdCaptureCleared") {
        return Event::CapturesCleared;
    }
    if same_text(header, "CarrierError") {
        return Event::CarrierError { reason: read_reason(section) };
    }
    if same_text(header, "AssetBundleError") {
        return Event::AssetError { reason: read_reason(section) };
    }
    if same_text(header, "RemoveAll") {
        return Event::RemoveAll;
    }
    if same_text(header, "GiveClientId") {
        let client_id: Option<u64> = match section {
            Some(s) => s.as_u64("client_id"),
            None => None,
        };
        return Event::ClientId { client_id };
    }
    match section {
        None => Event::Nothing,
        Some(s) => {
            if same_text(header, "Notify") {
                read_notify(s)
            } else if same_text(header, "AcmdCapture") {
                Event::Capture { line: s.text.clone() }
            } else if same_text(header, "AcmdCaptureEnd") {
                read_capture_end(s)
            } else if same_text(header, "AcmdCaptureDebug") {
                Event::CaptureDebug { row: s.text.clone() }
            } else if same_text(header, "CarrierStatus") {
                read_carrier_status(s)
            } else if same_text(header, "AssetBundleStatus") {
                read_asset_status(s)
            } else if same_text(header, "Remove") {
                match s.as_u64("id") {
                    Some(id) => Event::Remove { id },
                    None => Event::Nothing,
                }
            } else {
                Event::Nothing
            }
        },
    }
}

// ── Laws ─────────────────────────────────────────────────────────────────────

/// No two headers are the same.
proof fn lemma_headers()
    ensures
        "AcmdCaptureCleared"@.len() == 18,
        "CarrierError"@.len() == 12,
        "AssetBundleError"@.len() == 16,
        "RemoveAll"@.len() == 9,
        "GiveClientId"@.len() == 12,
        "Notify"@.len() == 6,
        "AcmdCapture"@.len() == 11,
        "AcmdCaptureEnd"@.len() == 14,
        "AcmdCaptureDebug"@.len() == 16,
        "CarrierStatus"@.len() == 13,
        "AssetBundleStatus"@.len() == 17,
        "Remove"@.len() == 6,
        "CarrierError"@ != "GiveClientId"@,
        "AssetBundleError"@ != "AcmdCaptureDebug"@,
        "Notify"@ != "Remove"@,
{
    reveal_strlit("AcmdCaptureCleared");
    reveal_strlit("CarrierError");
    reveal_strlit("AssetBundleError");
    reveal_strlit("RemoveAll");
    reveal_strlit("GiveClientId");
    reveal_strlit("Notify");
    reveal_strlit("AcmdCapture");
    reveal_strlit("AcmdCaptureEnd");
    reveal_strlit("AcmdCaptureDebug");
    reveal_strlit("CarrierStatus");
    reveal_strlit("AssetBundleStatus");
    reveal_strlit("Remove");
    assert("CarrierError"@[0] != "GiveClientId"@[0]);
    assert("AssetBundleError"@[1] != "AcmdCaptureDebug"@[1]);
    assert("Notify"@[0] != "Remove"@[0]);
}

/// A report on an effect kind carries the id, the name and the values that stand under their names
/// in it. It counts if it has an id and values.
pub proof fn law_notify_says_what_is_reported(section: crate::json::SectionView)
    ensures
        match event_of("Notify"@, Some(section)) {
            EventView::Notify { id, name, value, pins } => {
                &&& section.unsigned("id"@) == Some(id)
                &&& section.form("value_in_json"@) == Some(value)
                &&& section.words("name"@) is Some ==> section.words("name"@) == Some(name)
                &&& section.words("name"@) is None ==> name == "?"@
                &&& pins is Some ==> section.form("pinned_in_json"@) == pins
                &&& pins is None ==> section.form("pinned_in_json"@) is None || section.value(
                    "pinned_in_json"@,
                ) == Some(crate::json::JsonView::Null)
            },
            EventView::Nothing => section.unsigned("id"@) is None || section.form(
                "value_in_json"@,
            ) is None,
            _ => false,
        },
{
    lemma_headers();
}

/// A report on the asset carrier carries each of its numbers from under its own name. It counts
/// if it is of the carrier that is recreated on activation and has its target, its generation and
/// both counts.
pub proof fn law_asset_status_says_what_is_reported(section: crate::json::SectionView)
    ensures
        match event_of("AssetBundleStatus"@, Some(section)) {
            EventView::AssetStatus { report } => {
                &&& section.words("activation"@) == Some("carrier_recreate"@)
                &&& section.words("target"@) == Some(report.target)
                &&& section.unsigned("generation"@) == Some(report.generation)
                &&& section.unsigned("staged"@) is Some
                &&& section.unsigned("staged"@)->Some_0 == report.staged
                &&& section.unsigned("served"@) is Some
                &&& section.unsigned("served"@)->Some_0 == report.served
                &&& section.unsigned("serving_generation"@) is Some ==> section.unsigned(
                    "serving_generation"@,
                ) == Some(report.serving_generation)
                &&& section.unsigned("serving_generation"@) is None ==> report.serving_generation
                    == report.generation
                &&& section.words("phase"@) is Some ==> section.words("phase"@) == Some(
                    report.phase,
                )
                &&& section.words("phase"@) is None ==> report.phase == "staged"@
                &&& report.ready == (section.truth("ready"@) == Some(true))
            },
            EventView::Nothing => {
                ||| section.words("activation"@) != Some("carrier_recreate"@)
                ||| section.words("target"@) is None
                ||| section.unsigned("generation"@) is None
                ||| section.unsigned("staged"@) is None
                ||| section.unsigned("served"@) is None
                ||| section.unsigned("staged"@)->Some_0 > usize::MAX
                ||| section.unsigned("served"@)->Some_0 > usize::MAX
            },
            _ => false,
        },
{
    lemma_headers();
}

/// A report on the effect carrier carries each of its values from under its own name, and 0 or
/// false for what it leaves out.
pub proof fn law_carrier_status_says_what_is_reported(section: crate::json::SectionView)
    ensures
        event_of("CarrierStatus"@, Some(section)) matches EventView::CarrierStatus {
            state,
            spawned,
            kinds,
            generation,
        } && {
            &&& spawned == (section.truth("spawned"@) == Some(true))
            &&& section.unsigned("state"@) is None ==> state == 0
            &&& section.unsigned("state"@) is Some && section.unsigned("state"@)->Some_0 <= 255
                ==> state == section.unsigned("state"@)->Some_0
            &&& section.unsigned("kinds"@) is None ==> kinds == 0
            &&& section.unsigned("kinds"@) is Some && section.unsigned("kinds"@)->Some_0
                <= usize::MAX ==> kinds == section.unsigned("kinds"@)->Some_0
            &&& section.unsigned("gen"@) is None ==> generation == 0
            &&& section.unsigned("gen"@) is Some ==> section.unsigned("gen"@) == Some(generation)
        },
{
    lemma_headers();
}

/// The end of a playback names the fighter kind, the motion and the run that stand under their
/// names in it.
pub proof fn law_capture_end_says_what_has_ended(section: crate::json::SectionView)
    ensures
        match event_of("AcmdCaptureEnd"@, Some(section)) {
            EventView::CaptureEnd { kind, motion, run } => {
                &&& section.signed("kind"@) is Some
                &&& i32::MIN <= section.signed("kind"@)->Some_0 <= i32::MAX ==> kind
                    == section.signed("kind"@)->Some_0
                &&& section.unsigned("motion"@) == Some(motion)
                &&& section.unsigned("run"@) is None ==> run == 0
                &&& section.unsigned("run"@) is Some && section.unsigned("run"@)->Some_0 <= u32::MAX
                    ==> run == section.unsigned("run"@)->Some_0
            },
            EventView::Nothing => section.signed("kind"@) is None || section.unsigned(
                "motion"@,
            ) is None,
            _ => false,
        },
{
    lemma_headers();
}

/// Every other frame means what its header says, with what stands in it under its name.
pub proof fn law_headers_say_what_a_frame_means(section: crate::json::SectionView)
    ensures
        event_of("AcmdCapture"@, Some(section)) == (EventView::Capture { line: section.text }),
        event_of("AcmdCaptureDebug"@, Some(section)) == (EventView::CaptureDebug {
            row: section.text,
        }),
        event_of("AcmdCaptureCleared"@, None) == EventView::CapturesCleared,
        event_of("RemoveAll"@, None) == EventView::RemoveAll,
        event_of("CarrierError"@, Some(section)) == (EventView::CarrierError {
            reason: section.words("reason"@),
        }),
        event_of("AssetBundleError"@, Some(section)) == (EventView::AssetError {
            reason: section.words("reason"@),
        }),
        event_of("GiveClientId"@, Some(section)) == (EventView::ClientId {
            client_id: section.unsigned("client_id"@),
        }),
        section.unsigned("id"@) is Some ==> event_of("Remove"@, Some(section)) == (
        EventView::Remove { id: section.unsigned("id"@)->Some_0 }),
{
    lemma_headers();
}

} // verus!
