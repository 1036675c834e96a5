//! The exclusive lease on an agent: who holds it, how it changes hands, and
//! how it is released.

use crate::acp;
use crate::queue;
use crate::relay;
use crate::relay::{Boundary, RelayState};
use crate::text;
use crate::text::{copy_opt, same_text};
use vstd::prelude::*;
use vstd::string::*;

verus! {

/// A [`LeaseDesk`] as mathematical values.
pub struct LeaseModel {
    pub holder: Option<Seq<char>>,
    pub intended: Option<Seq<char>>,
}

/// Who holds the lease on an agent, and under which tag the next bare
/// connection is to take it.
pub struct LeaseDesk {
    holder: Option<String>,
    intended: Option<String>,
}

impl View for LeaseDesk {
    type V = LeaseModel;

    closed spec fn view(&self) -> LeaseModel {
        LeaseModel { holder: text::opt_text(self.holder), intended: text::opt_text(self.intended) }
    }
}

/// The tag under which a connection to the data socket comes.
pub open spec fn bare_tag() -> Seq<char> {
    "data-socket"@
}

/// The tag under which a connection takes the lease: one from the data socket
/// takes it under the tag that was announced, if any.
pub open spec fn effective_holder(m: LeaseModel, tag: Seq<char>) -> Seq<char> {
    match m.intended {
        Some(t) if tag == bare_tag() => t,
        _ => tag,
    }
}

/// The desk after a connection with this tag came: an announced tag serves one
/// connection from the data socket.
pub open spec fn announced_used(m: LeaseModel, tag: Seq<char>) -> LeaseModel {
    if tag == bare_tag() {
        LeaseModel { intended: None, ..m }
    } else {
        m
    }
}

/// Why a takeover is refused.
pub open spec fn steal_refusal() -> Seq<char> {
    "steal refused: agent stayed mid-turn/awaiting-callback past the handoff wait window"@
}

/// An [`AttachStep`] as mathematical values.
pub enum AttachModel {
    Granted { stops: bool },
    Refused { message: Seq<char> },
    Wait { ms: u64 },
}

/// What becomes of a client that wants the lease.
pub enum AttachStep {
    /// It has the lease; `stops` tells that a former client is to be stopped.
    Granted { stops: bool },
    /// It does not get the lease.
    Refused { message: String },
    /// Look again when an id is closed, or after so many milliseconds.
    Wait { ms: u64 },
}

impl View for AttachStep {
    type V = AttachModel;

    open spec fn view(&self) -> AttachModel {
        match self {
            AttachStep::Granted { stops } => AttachModel::Granted { stops: *stops },
            AttachStep::Refused { message } => AttachModel::Refused { message: message@ },
            AttachStep::Wait { ms } => AttachModel::Wait { ms: *ms },
        }
    }
}

/// What becomes of a client that wants the lease, of the lease, and of the
/// relay, which starts anew for a client that is granted the lease.
pub open spec fn attached(
    m: LeaseModel,
    relay: relay::RelayModel,
    now: u64,
    deadline: u64,
    holder: Seq<char>,
) -> (LeaseModel, relay::RelayModel, AttachModel) {
    let boundary = if m.holder is Some {
        relay::boundary_of(relay, now, deadline)
    } else {
        Boundary::Proceed
    };
    match boundary {
        Boundary::Proceed => (
            LeaseModel { holder: Some(holder), ..m },
            relay::renewed(relay),
            AttachModel::Granted { stops: m.holder is Some },
        ),
        Boundary::Wait(ms) => (m, relay, AttachModel::Wait { ms }),
        Boundary::Refuse => (m, relay, AttachModel::Refused { message: steal_refusal() }),
    }
}

/// Why `holder` cannot release a lease, if it cannot.
pub open spec fn detach_refusal(m: LeaseModel, holder: Seq<char>) -> Option<Seq<char>> {
    match m.holder {
        Some(h) if h == holder => None,
        Some(h) => Some("lease held by '"@ + h + "', not '"@ + holder + "'"@),
        None => Some("no lease to detach"@),
    }
}

/// The desk after `holder` asked to release the lease.
pub open spec fn released(m: LeaseModel, holder: Seq<char>) -> LeaseModel {
    if detach_refusal(m, holder) is None {
        LeaseModel { holder: None, ..m }
    } else {
        m
    }
}

impl LeaseDesk {
    /// A desk at which nobody holds the lease.
    pub fn new() -> (r: Self)
        ensures
            r@ == (LeaseModel { holder: None, intended: None }),
    {
        LeaseDesk { holder: None, intended: None }
    }

    /// The tag of the holder, if there is one.
    pub fn lease_holder(&self) -> (r: Option<String>)
        ensures
            text::opt_text(r) == self@.holder,
    {
        copy_opt(&self.holder)
    }

    /// Whether the lease is held, so that attaching takes it over.
    pub fn is_held(&self) -> (r: bool)
        ensures
            r == (self@.holder is Some),
    {
        self.holder.is_some()
    }

    /// Announces the tag under which the next connection from the data socket
    /// takes the lease.
    pub fn set_intended_holder(&mut self, holder: String)
        ensures
            final(self)@ == (LeaseModel { intended: Some(holder@), ..old(self)@ }),
    {
        self.intended = Some(holder);
    }

    /// The tag under which a connection takes the lease.
    pub fn resolve_holder(&mut self, tag: String) -> (r: String)
        ensures
            r@ == effective_holder(old(self)@, tag@),
            final(self)@ == announced_used(old(self)@, tag@),
    {
        if same_text(tag.as_str(), "data-socket") {
            let announced: Option<String> = self.intended.take();
            match announced {
                Some(t) => t,
                None => tag,
            }
        } else {
            tag
        }
    }

    /// Decides at `now` whether a client gets the lease. A free lease is given
    /// at once. A lease that is held changes hands when the relay is at a turn
    /// boundary; until then the client waits, and at `deadline` it is refused.
    /// With the lease, a tear of the one before is over.
    pub fn attach(
        &mut self,
        relay: &mut RelayState,
        now: u64,
        deadline: u64,
        holder: &str,
    ) -> (r: AttachStep)
        requires
            old(relay).inv(),
        ensures
            final(relay).inv(),
            (final(self)@, final(relay)@, r@) == attached(
                old(self)@,
                old(relay)@,
                now,
                deadline,
                holder@,
            ),
    {
        let held: bool = self.holder.is_some();
        let boundary: Boundary = if held {
            relay.boundary(now, deadline)
        } else {
            Boundary::Proceed
        };
        match boundary {
            Boundary::Proceed => {
                self.holder = Some(holder.to_owned());
                relay.renew();
                AttachStep::Granted { stops: held }
            },
            Boundary::Wait(ms) => AttachStep::Wait { ms },
            Boundary::Refuse => AttachStep::Refused {
                message:
                    "steal refused: agent stayed mid-turn/awaiting-callback past the handoff wait window".to_owned(),
            },
        }
    }

    /// Releases the lease, if `holder` holds it.
    pub fn detach(&mut self, holder: &str) -> (r: Result<(), String>)
        ensures
            final(self)@ == released(old(self)@, holder@),
            match r {
                Ok(_) => {
                    &&& detach_refusal(old(self)@, holder@) is None
                    &&& final(self)@ == (LeaseModel { holder: None, ..old(self)@ })
                },
                Err(e) => {
                    &&& detach_refusal(old(self)@, holder@) == Some(e@)
                    &&& final(self)@ == old(self)@
                },
            },
    {
        match &self.holder {
            Some(h) => {
                if !same_text(h.as_str(), holder) {
                    let mut msg: String = "lease held by '".to_owned();
                    msg.append(h.as_str());
                    msg.append("', not '");
                    msg.append(holder);
                    msg.append("'");
                    return Err(msg);
                }
            },
            None => {
                return Err("no lease to detach".to_owned());
            },
        }
        self.holder = None;
        Ok(())
    }
}

/// Only the holder can release a lease.
pub proof fn law_only_the_holder_detaches(m: LeaseModel, holder: Seq<char>)
    ensures
        detach_refusal(m, holder) is None <==> m.holder == Some(holder),
{
}

/// An announced tag serves exactly one connection from the data socket: the
/// first takes the lease under it, the next under the bare tag.
pub proof fn law_announced_tag_serves_once(m: LeaseModel, announced: Seq<char>)
    ensures
        ({
            let before = LeaseModel { intended: Some(announced), ..m };
            let after = announced_used(before, bare_tag());
            &&& effective_holder(before, bare_tag()) == announced
            &&& effective_holder(after, bare_tag()) == bare_tag()
        }),
{
}

/// A connection that brings a tag of its own takes the lease under that tag
/// and leaves the announcement alone.
pub proof fn law_own_tag_wins(m: LeaseModel, tag: Seq<char>)
    requires
        tag != bare_tag(),
    ensures
        effective_holder(m, tag) == tag,
        announced_used(m, tag) == m,
{
}

/// A takeover never orphans an id: a held lease changes hands only if the agent
/// is dead, or no prompt is open and every open request of the agent has had
/// its time to be answered.
pub proof fn law_takeover_orphans_nothing(
    m: LeaseModel,
    relay: relay::RelayModel,
    now: u64,
    deadline: u64,
    holder: Seq<char>,
)
    requires
        m.holder is Some,
        attached(m, relay, now, deadline, holder).2 is Granted,
    ensures
        relay.agent_dead || {
            &&& forall|id: acp::RpcKey| !relay.turns.contains_key(id)
            &&& forall|id: acp::RpcKey| #[trigger]
                relay.callbacks.contains_key(id) ==> queue::elapsed(relay.callbacks[id].1, now)
                    >= relay::CALLBACK_STEAL_TTL_MS
        },
{
    assert(forall|id: acp::RpcKey|
        relay.turns.contains_key(id) ==> relay.turns.dom().contains(id));
}

/// There is one holder at a time, and the latest wins: a client that is granted
/// the lease is its holder, the former one is stopped, and any other outcome
/// leaves the lease as it is.
pub proof fn law_one_holder(
    m: LeaseModel,
    relay: relay::RelayModel,
    now: u64,
    deadline: u64,
    holder: Seq<char>,
)
    ensures
        ({
            let (after, _, step) = attached(m, relay, now, deadline, holder);
            if step is Granted {
                &&& after.holder == Some(holder)
                &&& step == (AttachModel::Granted { stops: m.holder is Some })
            } else {
                &&& after == m
                &&& m.holder is Some
            }
        }),
{
}

/// A free lease is given at once.
pub proof fn law_free_lease_is_given(
    m: LeaseModel,
    relay: relay::RelayModel,
    now: u64,
    deadline: u64,
    holder: Seq<char>,
)
    requires
        m.holder is None,
    ensures
        attached(m, relay, now, deadline, holder).2 == (AttachModel::Granted { stops: false }),
{
}

/// A tear ends with the lease that it tore: a client that is granted the lease
/// finds a relay that is not torn, with everything else as it was, and any
/// other outcome leaves the relay as it is.
pub proof fn law_tear_ends_with_its_lease(
    m: LeaseModel,
    relay: relay::RelayModel,
    now: u64,
    deadline: u64,
    holder: Seq<char>,
)
    ensures
        ({
            let (_, after, step) = attached(m, relay, now, deadline, holder);
            if step is Granted {
                after == (relay::RelayModel { torn: false, ..relay })
            } else {
                after == relay
            }
        }),
{
}

/// Releasing frees the lease for its holder and changes nothing for anyone
/// else; the refusal tells who holds it, or that nobody does.
pub proof fn law_release_frees_the_lease(m: LeaseModel, holder: Seq<char>)
    ensures
        m.holder == Some(holder) ==> {
            &&& released(m, holder).holder is None
            &&& released(m, holder).intended == m.intended
            &&& detach_refusal(m, holder) is None
        },
        m.holder != Some(holder) ==> released(m, holder) == m,
        m.holder is None ==> detach_refusal(m, holder) == Some("no lease to detach"@),
        forall|h: Seq<char>| #[trigger]
            m.holder == Some(h) && h != holder ==> detach_refusal(m, holder) == Some(
                "lease held by '"@ + h + "', not '"@ + holder + "'"@,
            ),
{
}

/// A connection from the data socket goes by the announced tag, if one was
/// announced, and by its own if none was; it uses the announcement up and
/// leaves the holder as it is.
pub proof fn law_data_socket_goes_by_the_announcement(m: LeaseModel, tag: Seq<char>)
    ensures
        tag == "data-socket"@ ==> {
            &&& m.intended matches Some(t) ==> effective_holder(m, tag) == t
            &&& m.intended is None ==> effective_holder(m, tag) == tag
            &&& announced_used(m, tag).intended is None
        },
        tag != "data-socket"@ ==> effective_holder(m, tag) == tag && announced_used(
            m,
            tag,
        ).intended == m.intended,
        announced_used(m, tag).holder == m.holder,
{
}

/// What a client that wants a held lease is told follows the relay: it has the
/// lease where the agent is dead, waits for no longer than its deadline, and is
/// refused with the reason.
pub proof fn law_takeover_follows_the_relay(
    m: LeaseModel,
    relay: relay::RelayModel,
    now: u64,
    deadline: u64,
    holder: Seq<char>,
)
    requires
        m.holder is Some,
    ensures
        ({
            let step = attached(m, relay, now, deadline, holder).2;
            &&& relay.agent_dead ==> step is Granted
            &&& step is Granted <==> relay::boundary_of(relay, now, deadline)
                == relay::Boundary::Proceed
            &&& step is Refused <==> relay::boundary_of(relay, now, deadline)
                == relay::Boundary::Refuse
            &&& step matches AttachModel::Wait { ms } ==> now < deadline && ms == deadline - now
            &&& step matches AttachModel::Refused { message } ==> message
                == "steal refused: agent stayed mid-turn/awaiting-callback past the handoff wait window"@
        }),
{
}

} // verus!
