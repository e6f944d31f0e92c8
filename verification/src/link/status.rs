//! The link's side of a connection: its status, and its queue.
use crate::link::{GameLink, LinkStatus};
use crate::outbox::{
    retain_latest_full_replace, retain_latest_idempotent_commands, trim_outbox,
};
use crate::session::STALE_TIMEOUT;
use vstd::prelude::*;

verus! {

/// The link while a connection is being tried.
pub open spec fn trying(s: crate::link::LinkView) -> crate::link::LinkView {
    crate::link::LinkView {
        status: LinkStatus::Connecting,
        client_id: None,
        last_rx: None,
        ..s
    }
}

/// The link once a connection stands.
pub open spec fn joined(s: crate::link::LinkView, now: u64) -> crate::link::LinkView {
    crate::link::LinkView {
        status: LinkStatus::Connected,
        last_error: None,
        last_rx: Some(now),
        ..s
    }
}

/// The link once a connection has failed or ended.
pub open spec fn parted(
    s: crate::link::LinkView,
    reason: Option<Seq<char>>,
) -> crate::link::LinkView {
    crate::link::LinkView {
        status: LinkStatus::Disconnected,
        last_error: reason,
        client_id: None,
        last_rx: None,
        ..s
    }
}

/// What waits to be sent, and what has been captured, survives a disconnect and the connection
/// after it.
pub proof fn law_disconnects_keep_the_queue(
    s: crate::link::LinkView,
    reason: Option<Seq<char>>,
    now: u64,
)
    ensures
        joined(trying(parted(s, reason)), now).outbox == s.outbox,
        joined(trying(parted(s, reason)), now).captures == s.captures,
        joined(trying(parted(s, reason)), now).kinds == s.kinds,
{
}

impl GameLink {
    /// Notes that the link is in use; true where it was so already.
    pub fn ensure_started(&mut self) -> (already: bool)
        requires
            old(self).wf(),
        ensures
            final(self).wf(),
            already == old(self)@.started,
            final(self)@ == (crate::link::LinkView { started: true, ..old(self)@ }),
    {
        let already = self.started;
        self.started = true;
        already
    }

    /// A connection is being tried.
    pub fn connecting(&mut self)
        requires
            old(self).wf(),
        ensures
            final(self).wf(),
            final(self)@ == trying(old(self)@),
    {
        self.status = LinkStatus::Connecting;
        self.client_id = None;
        self.last_rx = None;
    }

    /// The connection stands. Its silence is counted from now on.
    pub fn connected(&mut self, now: u64)
        requires
            old(self).wf(),
        ensures
            final(self).wf(),
            final(self)@ == joined(old(self)@, now),
    {
        self.status = LinkStatus::Connected;
        self.last_error = None;
        self.last_rx = Some(now);
    }

    /// The connection has failed or ended.
    pub fn disconnected(&mut self, reason: Option<String>)
        requires
            old(self).wf(),
        ensures
            final(self).wf(),
            final(self)@ == parted(old(self)@, crate::events::optional_text(reason)),
    {
        self.status = LinkStatus::Disconnected;
        self.last_error = reason;
        self.client_id = None;
        self.last_rx = None;
    }

    /// Takes everything that is to be written, the newest of each family.
    pub fn take_pending(&mut self) -> (pending: Vec<String>)
        requires
            old(self).wf(),
        ensures
            final(self).wf(),
            crate::text::texts(pending@) == crate::outbox::coalesce(
                old(self)@.outbox,
                crate::outbox::full_replace_marks(),
            ),
            final(self)@ == (crate::link::LinkView { outbox: Seq::empty(), ..old(self)@ }),
    {
        let ghost before = self@;
        let mut pending: Vec<String> = Vec::new();
        std::mem::swap(&mut pending, &mut self.outbox);
        retain_latest_full_replace(&mut pending);
        assert(crate::text::texts(self.outbox@) =~= Seq::empty());
        assert(self@ =~= (crate::link::LinkView { outbox: Seq::empty(), ..before }));
        pending
    }

    /// Puts frames that were not sent back in front of the queue, in their order.
    pub fn requeue_front(&mut self, unsent: Vec<String>)
        requires
            old(self).wf(),
        ensures
            final(self).wf(),
            final(self)@ == (crate::link::LinkView {
                outbox: crate::session::requeued(
                    crate::text::texts(unsent@),
                    old(self)@.outbox,
                ),
                ..old(self)@
            }),
    {
        let ghost before = self@;
        if unsent.len() == 0 {
            assert(crate::text::texts(unsent@).len() == 0);
            return ;
        }
        let ghost front = crate::text::texts(unsent@);
        let mut combined = unsent;
        combined.append(&mut self.outbox);
        assert(crate::text::texts(combined@) =~= front + before.outbox);
        retain_latest_full_replace(&mut combined);
        retain_latest_idempotent_commands(&mut combined);
        trim_outbox(&mut combined);
        self.outbox = combined;
        proof {
            crate::outbox::law_queue_is_bounded(
                crate::outbox::coalesce(
                    crate::outbox::coalesce(
                        front + before.outbox,
                        crate::outbox::full_replace_marks(),
                    ),
                    crate::outbox::command_marks(),
                ),
            );
            assert(self@ =~= (crate::link::LinkView {
                outbox: crate::session::requeued(front, before.outbox),
                ..before
            }));
        }
    }

    /// Whether nothing has come for longer than a living connection is silent.
    pub fn silent_too_long(&self, now: u64) -> (b: bool)
        ensures
            b == crate::session::is_stale(self@, now),
    {
        match self.last_rx {
            Some(then) => now >= then && now - then > STALE_TIMEOUT,
            None => false,
        }
    }
}

/// A connection is shown as what it is: being tried, standing since its first moment without an
/// error, or ended with the reason; only a standing one keeps a name, and nothing else changes.
pub proof fn law_status_follows_the_connection(
    s: crate::link::LinkView,
    reason: Option<Seq<char>>,
    now: u64,
)
    ensures
        trying(s).status == LinkStatus::Connecting,
        trying(s).client_id is None,
        trying(s).last_rx is None,
        joined(s, now).status == LinkStatus::Connected,
        joined(s, now).last_rx == Some(now),
        joined(s, now).last_error is None,
        joined(s, now).client_id == s.client_id,
        parted(s, reason).status == LinkStatus::Disconnected,
        parted(s, reason).last_error == reason,
        parted(s, reason).client_id is None,
        parted(s, reason).last_rx is None,
        (crate::link::LinkView {
            status: s.status,
            client_id: s.client_id,
            last_rx: s.last_rx,
            last_error: s.last_error,
            ..joined(trying(parted(s, reason)), now)
        }) == s,
{
}

} // verus!
