//! The kind-level tints and speeds that the user has set. They are sent with a delay while the
//! user drags, at once when a project is loaded, and again after every reconnect.
use crate::float::{FloatBits, ONE_BITS};
use crate::sorted::SortedMap;
use crate::text::same_text;
use crate::wire::{Rainbow, RpmEffectData};
use vstd::prelude::*;

verus! {

/// How long an edit waits for the next one, in milliseconds.
pub const OVERRIDE_DEBOUNCE_MS: u64 = 200;

/// The form of one effect kind.
#[derive(Debug)]
pub struct LiveOverride {
    pub form: RpmEffectData,
    /// When the form was changed, if it has not been sent since.
    pub dirty_at: Option<u64>,
    /// The user has set the tint or the speed.
    pub user_tweaked: bool,
}

impl Clone for LiveOverride {
    fn clone(&self) -> (copy: Self)
        ensures
            copy == *self,
    {
        LiveOverride {
            form: self.form.clone(),
            dirty_at: self.dirty_at,
            user_tweaked: self.user_tweaked,
        }
    }
}

/// The forms by effect kind.
pub struct LiveOverrides {
    entries: SortedMap<u64, LiveOverride>,
}

impl View for LiveOverrides {
    type V = Map<u64, LiveOverride>;

    closed spec fn view(&self) -> Map<u64, LiveOverride> {
        self.entries@
    }
}

/// The change has waited long enough.
pub open spec fn is_due(entry: LiveOverride, now: u64) -> bool {
    match entry.dirty_at {
        Some(then) => crate::session::elapsed(now, then) / 1_000_000 > OVERRIDE_DEBOUNCE_MS,
        None => false,
    }
}

/// There is a change that has not been sent.
pub open spec fn is_dirty(entry: LiveOverride) -> bool {
    entry.dirty_at is Some
}

/// The entry once its change is sent.
pub open spec fn sent(entry: LiveOverride) -> LiveOverride {
    LiveOverride { dirty_at: None, ..entry }
}

/// The entries with those that satisfy `chosen` sent.
pub open spec fn all_sent(
    entries: Map<u64, LiveOverride>,
    chosen: spec_fn(LiveOverride) -> bool,
) -> Map<u64, LiveOverride> {
    entries.map_values(
        |e: LiveOverride|
            if chosen(e) {
                sent(e)
            } else {
                e
            },
    )
}

/// `list` holds the forms of the entries that satisfy `chosen`, by ascending kind.
pub open spec fn lists_forms(
    list: Seq<(u64, RpmEffectData)>,
    entries: Map<u64, LiveOverride>,
    chosen: spec_fn(LiveOverride) -> bool,
) -> bool {
    &&& forall|i: int|
        #![trigger list[i]]
        0 <= i < list.len() ==> entries.contains_key(list[i].0) && entries[list[i].0].form
            == list[i].1 && chosen(entries[list[i].0])
    &&& forall|i: int, j: int|
        0 <= i < j < list.len() ==> (#[trigger] list[i]).0 < (#[trigger] list[j]).0
    &&& forall|hash: u64| #[trigger]
        entries.contains_key(hash) && chosen(entries[hash]) ==> exists|i: int|
            0 <= i < list.len() && (#[trigger] list[i]).0 == hash
}

/// A form reported by the game is adopted: nothing is left to send.
pub open spec fn adopted(
    entries: Map<u64, LiveOverride>,
    hash: u64,
    form: RpmEffectData,
) -> Map<u64, LiveOverride> {
    entries.insert(
        hash,
        LiveOverride {
            form,
            dirty_at: None,
            user_tweaked: entries.contains_key(hash) && entries[hash].user_tweaked,
        },
    )
}

/// The form with the tint and the speed of `init`, and with its name where it had none.
pub open spec fn retinted(form: RpmEffectData, init: RpmEffectData) -> RpmEffectData {
    RpmEffectData {
        rainbow: init.rainbow,
        speed: init.speed,
        effect_name: if form.effect_name@ == "0x0"@ {
            init.effect_name
        } else {
            form.effect_name
        },
        ..form
    }
}

/// A tint and speed are restored: they count as the user's, and wait to be sent.
pub open spec fn restored(
    entries: Map<u64, LiveOverride>,
    hash: u64,
    init: RpmEffectData,
    now: u64,
) -> Map<u64, LiveOverride> {
    let form = if entries.contains_key(hash) {
        entries[hash].form
    } else {
        init
    };
    entries.insert(
        hash,
        LiveOverride {
            form: retinted(form, init),
            dirty_at: Some(now),
            user_tweaked: true,
        },
    )
}

/// The tint and speed of a kind are taken back: they change nothing any more, which is still to
/// be sent.
pub open spec fn reverted(
    entries: Map<u64, LiveOverride>,
    hash: u64,
    now: u64,
) -> Map<u64, LiveOverride> {
    if entries.contains_key(hash) {
        entries.insert(
            hash,
            LiveOverride {
                form: RpmEffectData {
                    rainbow: crate::wire::no_tint(),
                    speed: FloatBits(ONE_BITS),
                    ..entries[hash].form
                },
                dirty_at: Some(now),
                user_tweaked: false,
            },
        )
    } else {
        entries
    }
}

/// The tint and speed of a kind count as the user's, and wait to be sent.
pub open spec fn marked(
    entries: Map<u64, LiveOverride>,
    hash: u64,
    now: u64,
) -> Map<u64, LiveOverride> {
    if entries.contains_key(hash) {
        entries.insert(
            hash,
            LiveOverride { dirty_at: Some(now), user_tweaked: true, ..entries[hash] },
        )
    } else {
        entries
    }
}

/// Which entries an operation is about.
#[derive(Clone, Copy, PartialEq, Eq, Structural)]
enum Choice {
    Due(u64),
    Dirty,
    Tweaked,
}

spec fn chooses(choice: Choice, entry: LiveOverride) -> bool {
    match choice {
        Choice::Due(now) => is_due(entry, now),
        Choice::Dirty => is_dirty(entry),
        Choice::Tweaked => entry.user_tweaked,
    }
}

fn chosen(choice: Choice, entry: &LiveOverride) -> (b: bool)
    ensures
        b == chooses(choice, *entry),
{
    match choice {
        Choice::Due(now) => match entry.dirty_at {
            Some(then) => now >= then && (now - then) / 1_000_000 > OVERRIDE_DEBOUNCE_MS,
            None => false,
        },
        Choice::Dirty => entry.dirty_at.is_some(),
        Choice::Tweaked => entry.user_tweaked,
    }
}

impl Default for LiveOverrides {
    fn default() -> (overrides: Self)
        ensures
            overrides.wf(),
            overrides@ == Map::<u64, LiveOverride>::empty(),
    {
        LiveOverrides { entries: SortedMap::new() }
    }
}

impl LiveOverrides {
    /// The entries are in order.
    pub closed spec fn wf(&self) -> bool {
        self.entries.wf()
    }

    /// Adopts a form that the game has reported.
    pub fn set_form(&mut self, hash: u64, form: RpmEffectData)
        requires
            old(self).wf(),
        ensures
            final(self).wf(),
            final(self)@ == adopted(old(self)@, hash, form),
    {
        let user_tweaked = match self.entries.get(&hash) {
            Some(entry) => entry.user_tweaked,
            None => false,
        };
        self.entries.insert(hash, LiveOverride { form, dirty_at: None, user_tweaked });
    }

    /// The forms of the chosen entries, by ascending kind.
    fn list(&self, choice: Choice) -> (list: Vec<(u64, RpmEffectData)>)
        requires
            self.wf(),
        ensures
            lists_forms(list@, self@, |e: LiveOverride| chooses(choice, e)),
    {
        let mut list: Vec<(u64, RpmEffectData)> = Vec::new();
        let ghost keys = self.entries.key_list();
        let ghost entries = self@;
        let mut i: usize = 0;
        while i < self.entries.len()
            invariant
                self.wf(),
                entries == self@,
                keys == self.entries.key_list(),
                i <= keys.len(),
                forall|j: int|
                    #![trigger list@[j]]
                    0 <= j < list@.len() ==> entries.contains_key(list@[j].0)
                        && entries[list@[j].0].form == list@[j].1 && chooses(
                        choice,
                        entries[list@[j].0],
                    ) && exists|k: int| 0 <= k < i && #[trigger] keys[k] == list@[j].0,
                forall|j: int, k: int|
                    0 <= j < k < list@.len() ==> (#[trigger] list@[j]).0 < (#[trigger] list@[k]).0,
                forall|k: int|
                    0 <= k < i && chooses(choice, entries[#[trigger] keys[k]]) ==> exists|j: int|
                        0 <= j < list@.len() && (#[trigger] list@[j]).0 == keys[k],
            decreases keys.len() - i,
        {
            let ghost before = list@;
            proof {
                self.entries.lemma_entry(i as int);
            }
            let entry = self.entries.value_at(i);
            let hash: u64 = *self.entries.key_at(i);
            if chosen(choice, entry) {
                list.push((hash, entry.form.clone()));
                proof {
                    assert(keys[i as int] == hash);
                    assert(list@[list@.len() - 1].0 == hash);
                    assert forall|j: int, k: int| 0 <= j < k < list@.len() implies (
                    #[trigger] list@[j]).0 < (#[trigger] list@[k]).0 by {
                        assert(list@[j] == before[j]);
                        if k < before.len() {
                            assert(list@[k] == before[k]);
                        } else {
                            let a = choose|a: int| 0 <= a < i && #[trigger] keys[a] == list@[j].0;
                            assert(keys[a] < keys[i as int]);
                        }
                    }
                }
            }
            proof {
                assert forall|k: int|
                    0 <= k < i + 1 && chooses(choice, entries[#[trigger] keys[k]]) implies exists|
                    j: int,
                | 0 <= j < list@.len() && (#[trigger] list@[j]).0 == keys[k] by {
                    if k < i {
                        let j = choose|j: int|
                            0 <= j < before.len() && (#[trigger] before[j]).0 == keys[k];
                        assert(list@[j].0 == keys[k]);
                    }
                }
            }
            i += 1;
        }
        proof {
            assert forall|hash: u64| #[trigger]
                entries.contains_key(hash) && chooses(choice, entries[hash]) implies exists|j: int|
                0 <= j < list@.len() && (#[trigger] list@[j]).0 == hash by {
                let k = self.entries.lemma_key(hash);
                assert(keys[k] == hash);
            }
        }
        list
    }

    /// Marks the chosen entries as sent.
    fn mark_sent(&mut self, choice: Choice)
        requires
            old(self).wf(),
        ensures
            final(self).wf(),
            final(self)@ == all_sent(old(self)@, |e: LiveOverride| chooses(choice, e)),
    {
        let ghost before = self@;
        let ghost keys = self.entries.key_list();
        let ghost picks = |e: LiveOverride| chooses(choice, e);
        let mut i: usize = 0;
        while i < self.entries.len()
            invariant
                self.wf(),
                keys == self.entries.key_list(),
                i <= keys.len(),
                picks == (|e: LiveOverride| chooses(choice, e)),
                self@.dom() == before.dom(),
                forall|k: int|
                    0 <= k < i ==> self@[#[trigger] keys[k]] == all_sent(before, picks)[keys[k]],
                forall|k: int| i <= k < keys.len() ==> self@[#[trigger] keys[k]] == before[keys[k]],
            decreases keys.len() - i,
        {
            proof {
                self.entries.lemma_entry(i as int);
            }
            let entry = self.entries.value_at(i).clone();
            let ghost now = self@;
            if chosen(choice, &entry) {
                self.entries.update_at(
                    i,
                    LiveOverride {
                        form: entry.form,
                        dirty_at: None,
                        user_tweaked: entry.user_tweaked,
                    },
                );
                proof {
                    assert(self@.dom() =~= before.dom());
                    assert forall|k: int| 0 <= k < keys.len() && k != i implies #[trigger] keys[k]
                        != keys[i as int] by {
                        if k < i {
                            assert(keys[k] < keys[i as int]);
                        } else {
                            assert(keys[i as int] < keys[k]);
                        }
                    }
                }
            }
            i += 1;
        }
        proof {
            assert forall|hash: u64| self@.contains_key(hash) implies self@[hash] == all_sent(
                before,
                picks,
            )[hash] by {
                let k = self.entries.lemma_key(hash);
                assert(keys[k] == hash);
            }
            assert(self@ =~= all_sent(before, picks));
        }
    }

    /// Takes the forms whose change has waited long enough; they are to be sent.
    pub fn flush_due(&mut self, now: u64) -> (forms: Vec<(u64, RpmEffectData)>)
        requires
            old(self).wf(),
        ensures
            final(self).wf(),
            lists_forms(forms@, old(self)@, |e: LiveOverride| is_due(e, now)),
            final(self)@ == all_sent(old(self)@, |e: LiveOverride| is_due(e, now)),
    {
        let ghost before = self@;
        let forms = self.list(Choice::Due(now));
        self.mark_sent(Choice::Due(now));
        proof {
            assert(all_sent(before, |e: LiveOverride| chooses(Choice::Due(now), e)) =~= all_sent(
                before,
                |e: LiveOverride| is_due(e, now),
            ));
        }
        forms
    }

    /// Takes every form with a change that has not been sent; they are to be sent.
    pub fn flush_all(&mut self) -> (forms: Vec<(u64, RpmEffectData)>)
        requires
            old(self).wf(),
        ensures
            final(self).wf(),
            lists_forms(forms@, old(self)@, |e: LiveOverride| is_dirty(e)),
            final(self)@ == all_sent(old(self)@, |e: LiveOverride| is_dirty(e)),
    {
        let ghost before = self@;
        let forms = self.list(Choice::Dirty);
        self.mark_sent(Choice::Dirty);
        proof {
            assert(all_sent(before, |e: LiveOverride| chooses(Choice::Dirty, e)) =~= all_sent(
                before,
                |e: LiveOverride| is_dirty(e),
            ));
        }
        forms
    }

    /// The forms the user has set, which are to be sent again after a reconnect.
    pub fn resend_tweaks(&self) -> (forms: Vec<(u64, RpmEffectData)>)
        requires
            self.wf(),
        ensures
            lists_forms(forms@, self@, |e: LiveOverride| e.user_tweaked),
    {
        self.list(Choice::Tweaked)
    }

    /// The forms the user has set, which are exported and saved.
    pub fn tweaked(&self) -> (forms: Vec<(u64, RpmEffectData)>)
        requires
            self.wf(),
        ensures
            lists_forms(forms@, self@, |e: LiveOverride| e.user_tweaked),
    {
        self.list(Choice::Tweaked)
    }

    /// Whether a change waits to be sent.
    pub fn any_dirty(&self) -> (b: bool)
        requires
            self.wf(),
        ensures
            b == exists|hash: u64| #[trigger] self@.contains_key(hash) && is_dirty(self@[hash]),
    {
        let mut i: usize = 0;
        while i < self.entries.len()
            invariant
                self.wf(),
                i <= self.entries.key_list().len(),
                forall|k: int|
                    0 <= k < i ==> !is_dirty(self@[#[trigger] self.entries.key_list()[k]]),
            decreases self.entries.key_list().len() - i,
        {
            proof {
                self.entries.lemma_entry(i as int);
            }
            if self.entries.value_at(i).dirty_at.is_some() {
                assert(self@.contains_key(self.entries.key_list()[i as int]));
                return true;
            }
            i += 1;
        }
        proof {
            assert forall|hash: u64| #[trigger] self@.contains_key(hash) implies !is_dirty(
                self@[hash],
            ) by {
                let k = self.entries.lemma_key(hash);
                assert(self.entries.key_list()[k] == hash);
            }
        }
        false
    }

    /// Counts the tint and speed of a kind as the user's.
    pub fn mark_tweak(&mut self, hash: u64, now: u64)
        requires
            old(self).wf(),
        ensures
            final(self).wf(),
            final(self)@ == marked(old(self)@, hash, now),
    {
        let form = match self.entries.get(&hash) {
            Some(entry) => entry.form.clone(),
            None => {
                return ;
            },
        };
        self.entries.insert(
            hash,
            LiveOverride { form, dirty_at: Some(now), user_tweaked: true },
        );
    }

    /// Takes the tint and speed of a kind back.
    pub fn clear_tweak(&mut self, hash: u64, now: u64)
        requires
            old(self).wf(),
        ensures
            final(self).wf(),
            final(self)@ == reverted(old(self)@, hash, now),
    {
        let mut form = match self.entries.get(&hash) {
            Some(entry) => entry.form.clone(),
            None => {
                return ;
            },
        };
        form.rainbow = Rainbow::default();
        form.speed = FloatBits(ONE_BITS);
        self.entries.insert(
            hash,
            LiveOverride { form, dirty_at: Some(now), user_tweaked: false },
        );
    }

    /// Restores a tint and speed from a project.
    pub fn restore_tweak(&mut self, hash: u64, init: RpmEffectData, now: u64)
        requires
            old(self).wf(),
        ensures
            final(self).wf(),
            final(self)@ == restored(old(self)@, hash, init, now),
    {
        let mut form = match self.entries.get(&hash) {
            Some(entry) => entry.form.clone(),
            None => init.clone(),
        };
        form.rainbow = init.rainbow;
        form.speed = init.speed;
        if same_text(form.effect_name.as_str(), "0x0") {
            form.effect_name = init.effect_name;
        }
        self.entries.insert(
            hash,
            LiveOverride { form, dirty_at: Some(now), user_tweaked: true },
        );
    }
}

// ── Laws ─────────────────────────────────────────────────────────────────────

/// A restored tint and speed are the user's, are the ones that were saved, and are sent with the
/// next full flush.
pub proof fn law_restored_tweak_is_kept(
    entries: Map<u64, LiveOverride>,
    hash: u64,
    init: RpmEffectData,
    now: u64,
)
    ensures
        restored(entries, hash, init, now).contains_key(hash),
        restored(entries, hash, init, now)[hash].user_tweaked,
        restored(entries, hash, init, now)[hash].form.rainbow == init.rainbow,
        restored(entries, hash, init, now)[hash].form.speed == init.speed,
        is_dirty(restored(entries, hash, init, now)[hash]),
{
}

/// Sending changes neither what the user has set nor the forms: a reconnect can replay them.
pub proof fn law_sending_keeps_tweaks(
    entries: Map<u64, LiveOverride>,
    picks: spec_fn(LiveOverride) -> bool,
    hash: u64,
)
    requires
        entries.contains_key(hash),
    ensures
        all_sent(entries, picks).contains_key(hash),
        all_sent(entries, picks)[hash].form == entries[hash].form,
        all_sent(entries, picks)[hash].user_tweaked == entries[hash].user_tweaked,
        picks(entries[hash]) ==> !is_dirty(all_sent(entries, picks)[hash]),
{
}

/// Once everything is flushed, nothing waits.
pub proof fn law_flush_all_leaves_nothing(entries: Map<u64, LiveOverride>, hash: u64)
    ensures
        all_sent(entries, |e: LiveOverride| is_dirty(e)).contains_key(hash) ==> !is_dirty(
            all_sent(entries, |e: LiveOverride| is_dirty(e))[hash],
        ),
{
}

/// A change is sent once 201 milliseconds have passed since it was made, and not before.
pub proof fn law_changes_wait_their_time(entry: LiveOverride, now: u64)
    ensures
        is_due(entry, now) == (entry.dirty_at is Some && now - entry.dirty_at->Some_0
            >= 201_000_000),
{
    if entry.dirty_at is Some {
        let gap = crate::session::elapsed(now, entry.dirty_at->Some_0);
        assert((gap / 1_000_000 > 200) == (gap >= 201_000_000)) by (nonlinear_arith)
            requires
                gap >= 0,
        ;
    }
}

/// What is restored, taken back, marked or reported of one effect kind leaves every other kind as
/// it was.
pub proof fn law_other_kinds_are_left_alone(
    entries: Map<u64, LiveOverride>,
    hash: u64,
    form: RpmEffectData,
    now: u64,
    other: u64,
)
    requires
        other != hash,
    ensures
        restored(entries, hash, form, now).contains_key(other) == entries.contains_key(other),
        reverted(entries, hash, now).contains_key(other) == entries.contains_key(other),
        marked(entries, hash, now).contains_key(other) == entries.contains_key(other),
        adopted(entries, hash, form).contains_key(other) == entries.contains_key(other),
        entries.contains_key(other) ==> {
            &&& restored(entries, hash, form, now)[other] == entries[other]
            &&& reverted(entries, hash, now)[other] == entries[other]
            &&& marked(entries, hash, now)[other] == entries[other]
            &&& adopted(entries, hash, form)[other] == entries[other]
        },
{
}

/// Restoring a tint and speed changes nothing else of a form that is there, but gives it a name
/// where it had none. A kind that was not there gets the whole form.
pub proof fn law_restoring_changes_tint_and_speed_only(
    entries: Map<u64, LiveOverride>,
    hash: u64,
    init: RpmEffectData,
    now: u64,
)
    ensures
        ({
            let after = restored(entries, hash, init, now)[hash];
            let before = entries[hash].form;
            &&& after.dirty_at == Some(now)
            &&& !entries.contains_key(hash) ==> after.form == init
            &&& entries.contains_key(hash) ==> {
                &&& after.form.rainbow == init.rainbow
                &&& after.form.speed == init.speed
                &&& (RpmEffectData {
                    rainbow: before.rainbow,
                    speed: before.speed,
                    effect_name: before.effect_name,
                    ..after.form
                }) == before
                &&& before.effect_name@ != "0x0"@ ==> after.form.effect_name == before.effect_name
                &&& before.effect_name@ == "0x0"@ ==> after.form.effect_name == init.effect_name
            }
        }),
{
}

/// Taking a tint and speed back leaves neither: every channel and the speed are 1, the kind is no
/// longer the user's, and that is still to be sent. The rest of the form stays.
pub proof fn law_reverting_leaves_no_tint(entries: Map<u64, LiveOverride>, hash: u64, now: u64)
    requires
        entries.contains_key(hash),
    ensures
        ({
            let after = reverted(entries, hash, now)[hash];
            let before = entries[hash].form;
            &&& !after.user_tweaked
            &&& after.dirty_at == Some(now)
            &&& after.form.rainbow.color.red.0 == 0x3f80_0000
            &&& after.form.rainbow.color.green.0 == 0x3f80_0000
            &&& after.form.rainbow.color.blue.0 == 0x3f80_0000
            &&& after.form.rainbow.color.alpha.0 == 0x3f80_0000
            &&& after.form.speed.0 == 0x3f80_0000
            &&& (RpmEffectData { rainbow: before.rainbow, speed: before.speed, ..after.form })
                == before
        }),
{
}

/// Marking a kind as the user's keeps its form as it is, and has it sent.
pub proof fn law_marking_keeps_the_form(entries: Map<u64, LiveOverride>, hash: u64, now: u64)
    requires
        entries.contains_key(hash),
    ensures
        marked(entries, hash, now)[hash].form == entries[hash].form,
        marked(entries, hash, now)[hash].user_tweaked,
        marked(entries, hash, now)[hash].dirty_at == Some(now),
{
}

/// What the user has set survives everything but being taken back: flushes and reports of the
/// game, so that a reconnect replays it.
pub proof fn law_tweaks_survive_until_taken_back(
    entries: Map<u64, LiveOverride>,
    hash: u64,
    form: RpmEffectData,
    picks: spec_fn(LiveOverride) -> bool,
)
    requires
        entries.contains_key(hash),
    ensures
        adopted(entries, hash, form)[hash].user_tweaked == entries[hash].user_tweaked,
        adopted(entries, hash, form)[hash].form == form,
        !is_dirty(adopted(entries, hash, form)[hash]),
        all_sent(entries, picks)[hash].user_tweaked == entries[hash].user_tweaked,
        !picks(entries[hash]) ==> all_sent(entries, picks)[hash] == entries[hash],
{
}

} // verus!
