//! What the editor sends to the game. A message of a family replaces the game's whole list of
//! that family; while a project is being rebuilt, nothing is sent.
use crate::frames::frame;
use crate::json::{quote, write_strings};
use crate::link::GameLink;
use crate::outbox::{push_outbox_capped, queue_latest_full_replace};
use crate::text::{decimal_text, join};
use crate::wire::{
    AssetBundleFileWire, AssetBundleWire, DonorBytesWire, DonorEffWire, EffectAliasWire,
};
use vstd::prelude::*;

verus! {

/// Sends are held back.
pub open spec fn suppressed(s: crate::link::LinkView) -> bool {
    s.project_send_suppressed || s.rule_send_suppressed
}

/// The queue with one more message that replaces a whole list.
pub open spec fn with_replacement(outbox: Seq<Seq<char>>, payload: Seq<char>) -> Seq<Seq<char>> {
    crate::outbox::bounded(
        crate::outbox::coalesce(
            outbox.push(crate::frames::framed(payload)),
            crate::outbox::full_replace_marks(),
        ),
    )
}

/// A message that replaces a whole list is sent, unless sends are held back.
pub open spec fn replaced(s: crate::link::LinkView, payload: Seq<char>) -> crate::link::LinkView {
    if suppressed(s) {
        s
    } else {
        crate::link::LinkView {
            outbox: with_replacement(s.outbox, payload),
            edits_tx: (s.edits_tx + 1) as u64,
            ..s
        }
    }
}

/// A command or a single edit is sent, unless sends are held back.
pub open spec fn commanded(s: crate::link::LinkView, payload: Seq<char>) -> crate::link::LinkView {
    if suppressed(s) {
        s
    } else {
        crate::link::LinkView {
            outbox: crate::link::captures::with_command(s.outbox, payload),
            edits_tx: (s.edits_tx + 1) as u64,
            ..s
        }
    }
}

/// The game is asked to clear all its pins.
pub open spec fn pins_reset(s: crate::link::LinkView) -> crate::link::LinkView {
    commanded(s, "{\"command\":\"reset_pins\"}"@)
}

/// The game is told that the live effect files have changed.
pub open spec fn reload_asked(s: crate::link::LinkView) -> crate::link::LinkView {
    commanded(s, "{\"command\":\"live_eff_reload\"}"@)
}

/// The game is asked for a diagnosis of how live effects are served.
pub open spec fn probe_asked(s: crate::link::LinkView) -> crate::link::LinkView {
    commanded(s, "{\"command\":\"live_eff_probe\"}"@)
}

/// Either of the two holds is enough to keep everything back.
pub proof fn law_either_hold_is_enough(s: crate::link::LinkView, payload: Seq<char>)
    requires
        s.project_send_suppressed || s.rule_send_suppressed,
    ensures
        replaced(s, payload) == s,
        commanded(s, payload) == s,
        pins_reset(s) == s,
        reload_asked(s) == s,
        probe_asked(s) == s,
{
}

/// While sends are held back, nothing is queued.
pub proof fn law_batches_hold_sends(s: crate::link::LinkView, payload: Seq<char>)
    requires
        suppressed(s),
    ensures
        replaced(s, payload) == s,
        commanded(s, payload) == s,
{
}

/// A send keeps the link consistent.
pub proof fn law_sends_keep_consistency(s: crate::link::LinkView, payload: Seq<char>)
    requires
        crate::link::consistent(s),
    ensures
        crate::link::consistent(replaced(s, payload)),
        crate::link::consistent(commanded(s, payload)),
{
    let message = crate::frames::framed(payload);
    crate::outbox::law_queue_is_bounded(
        crate::outbox::coalesce(s.outbox.push(message), crate::outbox::full_replace_marks()),
    );
    crate::outbox::law_queue_is_bounded(
        crate::outbox::coalesce(s.outbox.push(message), crate::outbox::command_marks()),
    );
}

/// What is sent waits at the end of a queue with room for it, and nothing else of the link changes
/// but the count of sends.
pub proof fn law_sent_messages_wait(s: crate::link::LinkView, payload: Seq<char>)
    requires
        !s.project_send_suppressed,
        !s.rule_send_suppressed,
        s.outbox.len() < crate::outbox::OUTBOX_CAP,
        s.edits_tx < u64::MAX,
    ensures
        replaced(s, payload).outbox.len() > 0,
        replaced(s, payload).outbox.last() == crate::frames::framed(payload),
        replaced(s, payload).edits_tx == s.edits_tx + 1,
        (crate::link::LinkView {
            outbox: s.outbox,
            edits_tx: s.edits_tx,
            ..replaced(s, payload)
        }) == s,
        commanded(s, payload).outbox.len() > 0,
        commanded(s, payload).outbox.last() == crate::frames::framed(payload),
        commanded(s, payload).edits_tx == s.edits_tx + 1,
        (crate::link::LinkView {
            outbox: s.outbox,
            edits_tx: s.edits_tx,
            ..commanded(s, payload)
        }) == s,
{
    let all = s.outbox.push(crate::frames::framed(payload));
    crate::outbox::law_newest_message_stays(all, crate::outbox::full_replace_marks());
    crate::outbox::law_newest_message_stays(all, crate::outbox::command_marks());
}

// ── Payloads ─────────────────────────────────────────────────────────────────

/// `{"name":value}`.
pub open spec fn object_of(name: Seq<char>, value: Seq<char>) -> Seq<char> {
    "{\""@ + name + "\":"@ + value + "}"@
}

/// The parts as a JSON list.
pub open spec fn list_of(parts: Seq<Seq<char>>) -> Seq<char> {
    "["@ + crate::text::joined(parts) + "]"@
}

/// The costume slots as a JSON list.
pub open spec fn slots_json(slots: Seq<u8>) -> Seq<char> {
    list_of(Seq::new(slots.len(), |i: int| crate::text::decimal(slots[i] as nat)))
}

/// An alias, without its slots where it applies to all.
pub open spec fn alias_json(alias: EffectAliasWire) -> Seq<char> {
    let from = "{\"from\":"@ + crate::text::decimal(alias.from as nat);
    let slots = if alias.slots@.len() > 0 {
        from + ",\"slots\":"@ + slots_json(alias.slots@)
    } else {
        from
    };
    slots + ",\"to\":"@ + crate::text::decimal(alias.to as nat) + "}"@
}

/// A target with its donors.
pub open spec fn donor_json(spec: DonorEffWire) -> Seq<char> {
    "{\"donors\":"@ + crate::json::quoted_list(crate::text::texts(spec.donors@)) + ",\"target\":"@
        + crate::json::quoted(spec.target@) + "}"@
}

/// A donor payload, with the parts that are empty left out.
pub open spec fn donor_bytes_json(donor: DonorBytesWire) -> Seq<char> {
    let b64 = if donor.b64@.len() > 0 {
        "{"@ + "\"b64\":"@ + crate::json::quoted(donor.b64@) + ","@
    } else {
        "{"@
    };
    let file = if donor.file@.len() > 0 {
        b64 + "\"file\":"@ + crate::json::quoted(donor.file@) + ","@
    } else {
        b64
    };
    file + "\"path\":"@ + crate::json::quoted(donor.path@) + "}"@
}

/// One file of a bundle.
pub open spec fn bundle_file_json(file: AssetBundleFileWire) -> Seq<char> {
    "{\"file\":"@ + crate::json::quoted(file.file@) + ",\"path\":"@ + crate::json::quoted(
        file.path@,
    ) + ",\"size\":"@ + crate::text::decimal(file.size as nat) + "}"@
}

/// A bundle, with the version of the fighter binding it is made for.
pub open spec fn bundle_json(bundle: AssetBundleWire) -> Seq<char> {
    "{\"fighter_binding_version\":1,\"files\":"@ + list_of(
        Seq::new(bundle.files@.len(), |i: int| bundle_file_json(bundle.files@[i])),
    ) + ",\"generation\":"@ + crate::text::decimal(bundle.generation as nat) + ",\"target\":"@
        + crate::json::quoted(bundle.target@) + "}"@
}

/// The numbers of a kind-level edit, each as its JSON text.
#[derive(Debug)]
pub struct ModifierTexts {
    pub speed: String,
    pub red: String,
    pub green: String,
    pub blue: String,
    pub alpha: String,
    pub scale: String,
}

/// What a kind-level edit changes: the tint and the speed, and the scale where it is asked for.
/// Position and rotation belong to single spawns and are never part of it.
pub open spec fn modifier_json(form: ModifierTexts, include_scale: bool) -> Seq<char> {
    let color = "{\"rainbow\":{\"color\":{\"alpha\":"@ + form.alpha@ + ",\"blue\":"@ + form.blue@
        + ",\"green\":"@ + form.green@ + ",\"red\":"@ + form.red@ + "}}"@;
    let scale = if include_scale {
        color + ",\"scale\":"@ + form.scale@
    } else {
        color
    };
    scale + ",\"speed\":"@ + form.speed@ + "}"@
}

/// A kind-level edit: the kind, and the changes as a text that holds JSON.
pub open spec fn modifier_edit_json(
    id: u64,
    form: ModifierTexts,
    include_scale: bool,
) -> Seq<char> {
    "{\"id\":"@ + crate::text::decimal(id as nat) + ",\"newValue\":"@ + crate::json::quoted(
        modifier_json(form, include_scale),
    ) + "}"@
}

fn write_object(name: &str, value: &str) -> (json: String)
    ensures
        json@ == object_of(name@, value@),
{
    let mut json = "{\"".to_owned();
    json.append(name);
    json.append("\":");
    json.append(value);
    json.append("}");
    json
}

fn write_list(parts: &Vec<String>) -> (json: String)
    ensures
        json@ == list_of(crate::text::texts(parts@)),
{
    let mut json = "[".to_owned();
    json.append(join(parts).as_str());
    json.append("]");
    json
}

fn write_slots(slots: &Vec<u8>) -> (json: String)
    ensures
        json@ == slots_json(slots@),
{
    let mut parts: Vec<String> = Vec::new();
    let mut i: usize = 0;
    while i < slots.len()
        invariant
            i <= slots@.len(),
            parts@.len() == i,
            forall|j: int|
                0 <= j < i ==> (#[trigger] parts@[j])@ == crate::text::decimal(slots@[j] as nat),
        decreases slots@.len() - i,
    {
        parts.push(decimal_text(slots[i] as u64));
        i += 1;
    }
    assert(crate::text::texts(parts@) =~= Seq::new(
        slots@.len(),
        |j: int| crate::text::decimal(slots@[j] as nat),
    ));
    write_list(&parts)
}

fn write_alias(alias: &EffectAliasWire) -> (json: String)
    ensures
        json@ == alias_json(*alias),
{
    let mut json = "{\"from\":".to_owned();
    json.append(decimal_text(alias.from).as_str());
    if alias.slots.len() > 0 {
        json.append(",\"slots\":");
        json.append(write_slots(&alias.slots).as_str());
    }
    json.append(",\"to\":");
    json.append(decimal_text(alias.to).as_str());
    json.append("}");
    json
}

fn write_donor(spec: &DonorEffWire) -> (json: String)
    ensures
        json@ == donor_json(*spec),
{
    let mut json = "{\"donors\":".to_owned();
    json.append(write_strings(&spec.donors).as_str());
    json.append(",\"target\":");
    json.append(quote(spec.target.as_str()).as_str());
    json.append("}");
    json
}

fn write_donor_bytes(donor: &DonorBytesWire) -> (json: String)
    ensures
        json@ == donor_bytes_json(*donor),
{
    let mut json = "{".to_owned();
    if !donor.b64.as_str().is_empty() {
        json.append("\"b64\":");
        json.append(quote(donor.b64.as_str()).as_str());
        json.append(",");
    }
    if !donor.file.as_str().is_empty() {
        json.append("\"file\":");
        json.append(quote(donor.file.as_str()).as_str());
        json.append(",");
    }
    json.append("\"path\":");
    json.append(quote(donor.path.as_str()).as_str());
    json.append("}");
    json
}

fn write_bundle_file(file: &AssetBundleFileWire) -> (json: String)
    ensures
        json@ == bundle_file_json(*file),
{
    let mut json = "{\"file\":".to_owned();
    json.append(quote(file.file.as_str()).as_str());
    json.append(",\"path\":");
    json.append(quote(file.path.as_str()).as_str());
    json.append(",\"size\":");
    json.append(decimal_text(file.size).as_str());
    json.append("}");
    json
}

fn write_bundle(bundle: &AssetBundleWire) -> (json: String)
    ensures
        json@ == bundle_json(*bundle),
{
    let mut parts: Vec<String> = Vec::new();
    let mut i: usize = 0;
    while i < bundle.files.len()
        invariant
            i <= bundle.files@.len(),
            parts@.len() == i,
            forall|j: int|
                0 <= j < i ==> (#[trigger] parts@[j])@ == bundle_file_json(bundle.files@[j]),
        decreases bundle.files@.len() - i,
    {
        parts.push(write_bundle_file(&bundle.files[i]));
        i += 1;
    }
    assert(crate::text::texts(parts@) =~= Seq::new(
        bundle.files@.len(),
        |j: int| bundle_file_json(bundle.files@[j]),
    ));
    let mut json = "{\"fighter_binding_version\":1,\"files\":".to_owned();
    json.append(write_list(&parts).as_str());
    json.append(",\"generation\":");
    json.append(decimal_text(bundle.generation).as_str());
    json.append(",\"target\":");
    json.append(quote(bundle.target.as_str()).as_str());
    json.append("}");
    json
}

fn write_modifier(form: &ModifierTexts, include_scale: bool) -> (json: String)
    ensures
        json@ == modifier_json(*form, include_scale),
{
    let mut json = "{\"rainbow\":{\"color\":{\"alpha\":".to_owned();
    json.append(form.alpha.as_str());
    json.append(",\"blue\":");
    json.append(form.blue.as_str());
    json.append(",\"green\":");
    json.append(form.green.as_str());
    json.append(",\"red\":");
    json.append(form.red.as_str());
    json.append("}}");
    if include_scale {
        json.append(",\"scale\":");
        json.append(form.scale.as_str());
    }
    json.append(",\"speed\":");
    json.append(form.speed.as_str());
    json.append("}");
    json
}

// ── Sends ────────────────────────────────────────────────────────────────────

impl GameLink {
    /// Holds rule replacements back while a project is built up.
    pub fn begin_rule_batch(&mut self)
        requires
            old(self).wf(),
        ensures
            final(self).wf(),
            final(self)@ == (crate::link::LinkView { rule_send_suppressed: true, ..old(self)@ }),
    {
        self.rule_send_suppressed = true;
    }

    /// Lets rule replacements through again.
    pub fn end_rule_batch(&mut self)
        requires
            old(self).wf(),
        ensures
            final(self).wf(),
            final(self)@ == (crate::link::LinkView { rule_send_suppressed: false, ..old(self)@ }),
    {
        self.rule_send_suppressed = false;
    }

    /// Holds every edit back while a project is being replaced.
    pub fn begin_project_batch(&mut self)
        requires
            old(self).wf(),
        ensures
            final(self).wf(),
            final(self)@ == (crate::link::LinkView { project_send_suppressed: true, ..old(self)@ }),
    {
        self.project_send_suppressed = true;
    }

    /// Lets edits through again.
    pub fn end_project_batch(&mut self)
        requires
            old(self).wf(),
        ensures
            final(self).wf(),
            final(self)@ == (crate::link::LinkView { project_send_suppressed: false, ..old(self)@
            }),
    {
        self.project_send_suppressed = false;
    }

    /// Whether sends are held back.
    pub fn sends_suppressed(&self) -> (b: bool)
        ensures
            b == suppressed(self@),
    {
        self.project_send_suppressed || self.rule_send_suppressed
    }

    fn send_replacement(&mut self, name: &str, value: &str)
        requires
            old(self).wf(),
            old(self)@.edits_tx < u64::MAX,
        ensures
            final(self).wf(),
            final(self)@ == replaced(old(self)@, object_of(name@, value@)),
    {
        let ghost before = self@;
        proof {
            law_sends_keep_consistency(before, object_of(name@, value@));
        }
        if self.sends_suppressed() {
            return ;
        }
        let payload = write_object(name, value);
        queue_latest_full_replace(&mut self.outbox, frame(payload.as_str()));
        self.edits_tx = self.edits_tx + 1;
        assert(self@ =~= replaced(before, object_of(name@, value@)));
    }

    fn send_command(&mut self, payload: &str)
        requires
            old(self).wf(),
            old(self)@.edits_tx < u64::MAX,
        ensures
            final(self).wf(),
            final(self)@ == commanded(old(self)@, payload@),
    {
        let ghost before = self@;
        proof {
            law_sends_keep_consistency(before, payload@);
        }
        if self.sends_suppressed() {
            return ;
        }
        push_outbox_capped(&mut self.outbox, frame(payload));
        self.edits_tx = self.edits_tx + 1;
        assert(self@ =~= commanded(before, payload@));
    }

    /// Replaces the game's spawn rules. `rules` is the JSON list of all of them.
    pub fn send_spawn_rules(&mut self, rules: &str)
        requires
            old(self).wf(),
            old(self)@.edits_tx < u64::MAX,
        ensures
            final(self).wf(),
            final(self)@ == replaced(old(self)@, object_of("spawn_rules"@, rules@)),
    {
        self.send_replacement("spawn_rules", rules);
    }

    /// Replaces the game's effect control rules. `rules` is the JSON list of all of them.
    pub fn send_effect_control_rules(&mut self, rules: &str)
        requires
            old(self).wf(),
            old(self)@.edits_tx < u64::MAX,
        ensures
            final(self).wf(),
            final(self)@ == replaced(old(self)@, object_of("effect_control_rules"@, rules@)),
    {
        self.send_replacement("effect_control_rules", rules);
    }

    /// Replaces the game's hitbox rules. `rules` is the JSON list of all of them.
    pub fn send_hitbox_rules(&mut self, rules: &str)
        requires
            old(self).wf(),
            old(self)@.edits_tx < u64::MAX,
        ensures
            final(self).wf(),
            final(self)@ == replaced(old(self)@, object_of("hitbox_rules"@, rules@)),
    {
        self.send_replacement("hitbox_rules", rules);
    }

    /// Replaces the game's effect aliases.
    pub fn send_effect_aliases(&mut self, aliases: &Vec<EffectAliasWire>)
        requires
            old(self).wf(),
            old(self)@.edits_tx < u64::MAX,
        ensures
            final(self).wf(),
            final(self)@ == replaced(
                old(self)@,
                object_of(
                    "effect_aliases"@,
                    list_of(Seq::new(aliases@.len(), |i: int| alias_json(aliases@[i]))),
                ),
            ),
    {
        let mut parts: Vec<String> = Vec::new();
        let mut i: usize = 0;
        while i < aliases.len()
            invariant
                i <= aliases@.len(),
                parts@.len() == i,
                forall|j: int| 0 <= j < i ==> (#[trigger] parts@[j])@ == alias_json(aliases@[j]),
            decreases aliases@.len() - i,
        {
            parts.push(write_alias(&aliases[i]));
            i += 1;
        }
        assert(crate::text::texts(parts@) =~= Seq::new(
            aliases@.len(),
            |j: int| alias_json(aliases@[j]),
        ));
        self.send_replacement("effect_aliases", write_list(&parts).as_str());
    }

    /// Replaces the list of donor effect files that the game loads along with each target.
    pub fn send_donor_effs(&mut self, specs: &Vec<DonorEffWire>)
        requires
            old(self).wf(),
            old(self)@.edits_tx < u64::MAX,
        ensures
            final(self).wf(),
            final(self)@ == replaced(
                old(self)@,
                object_of(
                    "donor_effs"@,
                    list_of(Seq::new(specs@.len(), |i: int| donor_json(specs@[i]))),
                ),
            ),
    {
        let mut parts: Vec<String> = Vec::new();
        let mut i: usize = 0;
        while i < specs.len()
            invariant
                i <= specs@.len(),
                parts@.len() == i,
                forall|j: int| 0 <= j < i ==> (#[trigger] parts@[j])@ == donor_json(specs@[j]),
            decreases specs@.len() - i,
        {
            parts.push(write_donor(&specs[i]));
            i += 1;
        }
        assert(crate::text::texts(parts@) =~= Seq::new(
            specs@.len(),
            |j: int| donor_json(specs@[j]),
        ));
        self.send_replacement("donor_effs", write_list(&parts).as_str());
    }

    /// Replaces the donor payloads that the game holds ready.
    pub fn send_donor_bytes(&mut self, donors: &Vec<DonorBytesWire>)
        requires
            old(self).wf(),
            old(self)@.edits_tx < u64::MAX,
        ensures
            final(self).wf(),
            final(self)@ == replaced(
                old(self)@,
                object_of(
                    "donor_bytes"@,
                    list_of(Seq::new(donors@.len(), |i: int| donor_bytes_json(donors@[i]))),
                ),
            ),
    {
        let mut parts: Vec<String> = Vec::new();
        let mut i: usize = 0;
        while i < donors.len()
            invariant
                i <= donors@.len(),
                parts@.len() == i,
                forall|j: int|
                    0 <= j < i ==> (#[trigger] parts@[j])@ == donor_bytes_json(donors@[j]),
            decreases donors@.len() - i,
        {
            parts.push(write_donor_bytes(&donors[i]));
            i += 1;
        }
        assert(crate::text::texts(parts@) =~= Seq::new(
            donors@.len(),
            |j: int| donor_bytes_json(donors@[j]),
        ));
        self.send_replacement("donor_bytes", write_list(&parts).as_str());
    }

    /// Replaces the files that the asset carrier serves.
    pub fn send_asset_bundle(&mut self, bundle: &AssetBundleWire)
        requires
            old(self).wf(),
            old(self)@.edits_tx < u64::MAX,
        ensures
            final(self).wf(),
            final(self)@ == replaced(
                old(self)@,
                object_of("asset_bundle"@, bundle_json(*bundle)),
            ),
    {
        self.send_replacement("asset_bundle", write_bundle(bundle).as_str());
    }

    /// Tells the game the names of custom effects. Without names nothing is sent.
    pub fn send_effect_names(&mut self, names: &Vec<String>)
        requires
            old(self).wf(),
            old(self)@.edits_tx < u64::MAX,
        ensures
            final(self).wf(),
            final(self)@ == if names@.len() == 0 {
                old(self)@
            } else {
                replaced(
                    old(self)@,
                    object_of(
                        "effect_names"@,
                        crate::json::quoted_list(crate::text::texts(names@)),
                    ),
                )
            },
    {
        if names.len() == 0 {
            return ;
        }
        self.send_replacement("effect_names", write_strings(names).as_str());
    }

    /// Asks the game to clear all its pins.
    pub fn send_reset_pins(&mut self)
        requires
            old(self).wf(),
            old(self)@.edits_tx < u64::MAX,
        ensures
            final(self).wf(),
            final(self)@ == pins_reset(old(self)@),
    {
        self.send_command("{\"command\":\"reset_pins\"}");
    }

    /// Tells the game that the live effect files have changed.
    pub fn send_live_eff_reload(&mut self)
        requires
            old(self).wf(),
            old(self)@.edits_tx < u64::MAX,
        ensures
            final(self).wf(),
            final(self)@ == reload_asked(old(self)@),
    {
        self.send_command("{\"command\":\"live_eff_reload\"}");
    }

    /// Asks the game to write a diagnosis of how live effects are served.
    pub fn send_live_eff_probe(&mut self)
        requires
            old(self).wf(),
            old(self)@.edits_tx < u64::MAX,
        ensures
            final(self).wf(),
            final(self)@ == probe_asked(old(self)@),
    {
        self.send_command("{\"command\":\"live_eff_probe\"}");
    }

    /// Edits one effect kind.
    pub fn send_modifier_edit(&mut self, id: u64, form: &ModifierTexts, include_scale: bool)
        requires
            old(self).wf(),
            old(self)@.edits_tx < u64::MAX,
        ensures
            final(self).wf(),
            final(self)@ == commanded(
                old(self)@,
                modifier_edit_json(id, *form, include_scale),
            ),
    {
        let mut payload = "{\"id\":".to_owned();
        payload.append(decimal_text(id).as_str());
        payload.append(",\"newValue\":");
        payload.append(quote(write_modifier(form, include_scale).as_str()).as_str());
        payload.append("}");
        self.send_command(payload.as_str());
    }
}

} // verus!
