//! What the relay promises of the frames it carries and the ids it tracks.

use crate::acp;
use crate::drain;
use crate::fairness;
use crate::protocol;
use crate::queue;
use crate::queue::{HARD_BOUND_BYTES, SOFT_BOUND_FRAMES};
use crate::relay;
use vstd::prelude::*;

verus! {

/// A frame goes to the end of one lane, as it came, and touches no other; where
/// the lane would be over the hard bound, the whole lane is dropped.
pub proof fn law_routing_appends(
    m: relay::RelayModel,
    f: acp::FrameModel,
    frame: Seq<u8>,
    now: u64,
    other: Seq<char>,
)
    ensures
        ({
            let session = relay::lane_key(m, f);
            let before = relay::lane_at(m, session);
            let after = relay::routed(m, f, frame, now).relay;
            &&& relay::lane_at(after, session).frames == if relay::over_hard_bound(
                relay::filled(before, frame, now),
            ) {
                Seq::empty()
            } else {
                before.frames.push((frame, now))
            }
            &&& other != session ==> relay::lane_at(after, other) == relay::lane_at(m, other)
        }),
{
    let before = relay::lane_at(m, relay::lane_key(m, f));
    assert(before.frames.push((frame, now)).drop_last() =~= before.frames);
}

/// The response to a prompt that names no session is queued behind the frames
/// of the session of that prompt, and closes it if it carries a stop reason.
pub proof fn law_response_follows_its_session(
    m: relay::RelayModel,
    f: acp::FrameModel,
    frame: Seq<u8>,
    now: u64,
    id: acp::RpcKey,
)
    requires
        f.session_id is None,
        f.id == Some(id),
        m.turns.contains_key(id),
    ensures
        relay::lane_key(m, f) == m.turns[id],
        f.stop_reason is Some ==> {
            &&& !relay::routed(m, f, frame, now).relay.turns.contains_key(id)
            &&& relay::routed(m, f, frame, now).closed
        },
{
}

/// Every pressured lane is within the hard bound, and every lane is pressured
/// from the soft bound on.
pub open spec fn within_bounds(m: relay::RelayModel) -> bool {
    forall|s: Seq<char>| #[trigger]
        m.lanes.contains_key(s) ==> {
            &&& m.lanes[s].pressured ==> m.lanes[s].bytes() <= HARD_BOUND_BYTES
            &&& m.lanes[s].frames.len() >= SOFT_BOUND_FRAMES ==> m.lanes[s].pressured
        }
}

/// A new relay is within its bounds.
pub proof fn law_fresh_within_bounds()
    ensures
        within_bounds(relay::fresh_relay()),
{
}

/// Routing a frame keeps every lane within its bounds.
pub proof fn law_routing_keeps_bounds(
    m: relay::RelayModel,
    f: acp::FrameModel,
    frame: Seq<u8>,
    now: u64,
)
    requires
        within_bounds(m),
    ensures
        within_bounds(relay::routed(m, f, frame, now).relay),
{
}

/// Taking in any number of agent frames keeps every lane within its bounds.
pub proof fn law_ingesting_keeps_bounds(m: relay::RelayModel, frames: Seq<Seq<u8>>, now: u64)
    requires
        within_bounds(m),
    ensures
        within_bounds(relay::ingested(m, frames, now).relay),
    decreases frames.len(),
{
    if frames.len() > 0 {
        law_ingesting_keeps_bounds(m, frames.drop_last(), now);
        law_routing_keeps_bounds(
            relay::ingested(m, frames.drop_last(), now).relay,
            acp::inspection(frames.last()),
            frames.last(),
            now,
        );
    }
}

/// Forwarding keeps every lane within its bounds.
pub proof fn law_forwarding_keeps_bounds(st: relay::RelayState, max: nat)
    requires
        st.inv(),
        within_bounds(st@),
    ensures
        within_bounds(drain::drained(st@, max)),
{
    let m = st@;
    let after = drain::drained(m, max);
    fairness::lemma_state_sound(st);
    assert forall|s: Seq<char>| #[trigger] after.lanes.contains_key(s) implies {
        &&& after.lanes[s].pressured ==> after.lanes[s].bytes() <= HARD_BOUND_BYTES
        &&& after.lanes[s].frames.len() >= SOFT_BOUND_FRAMES ==> after.lanes[s].pressured
    } by {
        assert(m.lanes.contains_key(s));
        fairness::lemma_share_fits(m, max, s);
        let k = drain::taken(
            drain::batch(m, max),
            drain::enrolled(m.order, m.sessions).index_of(s),
        ) as int;
        queue::lemma_total_skip(m.lanes[s].frames, k);
    }
}

/// Pressure and loss are never silent: a frame that leaves its lane pressured
/// gives a sample that says so, and one that puts a pressured lane over the hard
/// bound, so that the lane is dropped, tears the lease and gives a sample and a
/// log notice that tell how much is lost.
pub proof fn law_never_silent(
    m: relay::RelayModel,
    f: acp::FrameModel,
    frame: Seq<u8>,
    now: u64,
)
    ensures
        ({
            let session = relay::lane_key(m, f);
            let before = relay::lane_at(m, session);
            let flow = relay::routed(m, f, frame, now);
            &&& relay::lane_at(flow.relay, session).pressured ==> flow.samples.contains(
                protocol::TelemetryModel {
                    session,
                    queue_depth: before.frames.len() + 1,
                    oldest_unread_ms: queue::oldest_age(before.pushed(frame, now), now),
                    lifecycle: "pressured"@,
                },
            )
            &&& relay::filled(before, frame, now).pressured && before.bytes() + frame.len()
                > HARD_BOUND_BYTES ==> {
                &&& flow.relay.torn
                &&& flow.samples.contains(
                    protocol::TelemetryModel {
                        session,
                        queue_depth: before.frames.len() + 1,
                        oldest_unread_ms: queue::oldest_age(before.pushed(frame, now), now),
                        lifecycle: "torn"@,
                    },
                )
                &&& flow.notices.contains(
                    relay::NoticeModel::HardBound {
                        session,
                        bytes: before.bytes() + frame.len(),
                    },
                )
            }
        }),
{
    let session = relay::lane_key(m, f);
    let before = relay::lane_at(m, session);
    let flow = relay::routed(m, f, frame, now);
    let next = relay::filled(before, frame, now);
    assert(before.frames.push((frame, now)).drop_last() =~= before.frames);
    assert(next.bytes() == before.bytes() + frame.len());
    if next.pressured {
        assert(flow.samples[0] == queue::sample_of(session, next, now, "pressured"@));
    }
    if relay::over_hard_bound(next) {
        assert(flow.samples.last() == queue::sample_of(session, next, now, "torn"@));
        assert(flow.notices.last() == relay::NoticeModel::HardBound {
            session,
            bytes: next.bytes(),
        });
    }
}

/// Nothing that comes from the agent takes a tear back, nor undoes its death.
pub proof fn law_agent_takes_no_tear_back(m: relay::RelayModel, frames: Seq<Seq<u8>>, now: u64)
    ensures
        m.torn ==> relay::ingested(m, frames, now).relay.torn,
        relay::ingested(m, frames, now).relay.agent_dead == m.agent_dead,
    decreases frames.len(),
{
    if frames.len() > 0 {
        law_agent_takes_no_tear_back(m, frames.drop_last(), now);
    }
}

/// Taking in some frames and then more at the same time is taking them all in,
/// samples and times included.
pub proof fn law_reads_compose(
    m: relay::RelayModel,
    a: Seq<Seq<u8>>,
    b: Seq<Seq<u8>>,
    now: u64,
)
    ensures
        ({
            let first = relay::ingested(m, a, now);
            let second = relay::ingested(first.relay, b, now);
            relay::ingested(m, a + b, now) == (relay::Flow {
                relay: second.relay,
                samples: first.samples + second.samples,
                notices: first.notices + second.notices,
                closed: first.closed || second.closed,
            })
        }),
    decreases b.len(),
{
    let first = relay::ingested(m, a, now);
    if b.len() == 0 {
        assert(a + b =~= a);
        assert(first.samples + Seq::empty() =~= first.samples);
        assert(first.notices + Seq::empty() =~= first.notices);
    } else {
        law_reads_compose(m, a, b.drop_last(), now);
        assert((a + b).drop_last() =~= a + b.drop_last());
        let mid = relay::ingested(first.relay, b.drop_last(), now);
        let last = relay::routed(mid.relay, acp::inspection(b.last()), b.last(), now);
        assert((first.samples + mid.samples) + last.samples =~= first.samples + (mid.samples
            + last.samples));
        assert((first.notices + mid.notices) + last.notices =~= first.notices + (mid.notices
            + last.notices));
    }
}

/// Whether two lanes hold the same bytes in the same order, whenever they came.
pub open spec fn same_lane(a: queue::Lane, b: queue::Lane) -> bool {
    fairness::lane_bytes(a) == fairness::lane_bytes(b) && a.pressured == b.pressured
}

/// Whether two relays are the same but for the times at which things came.
pub open spec fn same_but_for_times(a: relay::RelayModel, b: relay::RelayModel) -> bool {
    &&& a.sessions == b.sessions
    &&& a.order == b.order
    &&& a.turns == b.turns
    &&& a.common_named == b.common_named
    &&& a.torn == b.torn
    &&& a.agent_dead == b.agent_dead
    &&& a.callbacks.dom() == b.callbacks.dom()
    &&& forall|id: acp::RpcKey| #[trigger]
        a.callbacks.contains_key(id) ==> a.callbacks[id].0 == b.callbacks[id].0
    &&& a.lanes.dom() == b.lanes.dom()
    &&& forall|s: Seq<char>| #[trigger]
        a.lanes.contains_key(s) ==> same_lane(a.lanes[s], b.lanes[s])
}

proof fn lemma_same_total(a: Seq<(Seq<u8>, u64)>, b: Seq<(Seq<u8>, u64)>)
    requires
        a.len() == b.len(),
        forall|i: int| 0 <= i < a.len() ==> (#[trigger] a[i]).0 == b[i].0,
    ensures
        queue::total_bytes(a) == queue::total_bytes(b),
    decreases a.len(),
{
    if a.len() > 0 {
        assert forall|i: int| 0 <= i < a.drop_last().len() implies (
        #[trigger] a.drop_last()[i]).0 == b.drop_last()[i].0 by {
            assert(a.drop_last()[i] == a[i]);
        }
        lemma_same_total(a.drop_last(), b.drop_last());
        assert(a[a.len() - 1].0 == b[b.len() - 1].0);
    }
}

proof fn lemma_same_filled(a: queue::Lane, b: queue::Lane, frame: Seq<u8>, t: u64, u: u64)
    requires
        same_lane(a, b),
    ensures
        same_lane(relay::filled(a, frame, t), relay::filled(b, frame, u)),
        relay::filled(a, frame, t).bytes() == relay::filled(b, frame, u).bytes(),
        same_lane(
            relay::kept(relay::filled(a, frame, t)),
            relay::kept(relay::filled(b, frame, u)),
        ),
{
    let x = relay::filled(a, frame, t);
    let y = relay::filled(b, frame, u);
    assert(fairness::lane_bytes(a).len() == fairness::lane_bytes(b).len());
    assert(fairness::lane_bytes(x) =~= fairness::lane_bytes(a).push(frame));
    assert(fairness::lane_bytes(y) =~= fairness::lane_bytes(b).push(frame));
    assert forall|i: int| 0 <= i < x.frames.len() implies (#[trigger] x.frames[i]).0
        == y.frames[i].0 by {
        assert(fairness::lane_bytes(x)[i] == fairness::lane_bytes(y)[i]);
    }
    lemma_same_total(x.frames, y.frames);
    assert(fairness::lane_bytes(relay::kept(x)) =~= fairness::lane_bytes(relay::kept(y)));
}

proof fn lemma_same_routed(
    a: relay::RelayModel,
    b: relay::RelayModel,
    f: acp::FrameModel,
    frame: Seq<u8>,
    t: u64,
    u: u64,
)
    requires
        same_but_for_times(a, b),
    ensures
        same_but_for_times(
            relay::routed(a, f, frame, t).relay,
            relay::routed(b, f, frame, u).relay,
        ),
        relay::routed(a, f, frame, t).closed == relay::routed(b, f, frame, u).closed,
        relay::routed(a, f, frame, t).notices == relay::routed(b, f, frame, u).notices,
{
    if let Some(id) = f.id {
        assert(a.callbacks.contains_key(id) == a.callbacks.dom().contains(id));
        assert(b.callbacks.contains_key(id) == b.callbacks.dom().contains(id));
    }
    let key = relay::lane_key(a, f);
    assert(relay::lane_key(b, f) == key);
    assert(a.lanes.contains_key(key) == a.lanes.dom().contains(key));
    assert(b.lanes.contains_key(key) == b.lanes.dom().contains(key));
    assert(same_lane(relay::lane_at(a, key), relay::lane_at(b, key)));
    lemma_same_filled(relay::lane_at(a, key), relay::lane_at(b, key), frame, t, u);
    let x = relay::routed(a, f, frame, t).relay;
    let y = relay::routed(b, f, frame, u).relay;
    assert(x.lanes.dom() =~= y.lanes.dom());
    assert(x.callbacks.dom() =~= y.callbacks.dom());
    assert(relay::routed(a, f, frame, t).notices =~= relay::routed(b, f, frame, u).notices);
}

/// When frames are taken in makes no difference but to the times on record: the
/// bytes on every lane, the open ids, tears, log notices and closed turns are
/// the same.
pub proof fn law_times_do_not_matter(
    a: relay::RelayModel,
    b: relay::RelayModel,
    frames: Seq<Seq<u8>>,
    t: u64,
    u: u64,
)
    requires
        same_but_for_times(a, b),
    ensures
        same_but_for_times(
            relay::ingested(a, frames, t).relay,
            relay::ingested(b, frames, u).relay,
        ),
        relay::ingested(a, frames, t).closed == relay::ingested(b, frames, u).closed,
        relay::ingested(a, frames, t).notices == relay::ingested(b, frames, u).notices,
    decreases frames.len(),
{
    if frames.len() > 0 {
        law_times_do_not_matter(a, b, frames.drop_last(), t, u);
        lemma_same_routed(
            relay::ingested(a, frames.drop_last(), t).relay,
            relay::ingested(b, frames.drop_last(), u).relay,
            acp::inspection(frames.last()),
            frames.last(),
            t,
            u,
        );
    }
}

/// The state of the relay depends on the agent's bytes alone, but for the times
/// on record: two reads at two times, with the partial frame carried over, come
/// to the same as one read of all the bytes at any time. The bytes on every
/// lane, the order of the sessions, the open ids, tears, log notices and closed
/// turns are the same, and the same partial frame is left.
pub proof fn law_state_depends_on_bytes_alone(
    m: relay::RelayModel,
    carried: Seq<u8>,
    x: Seq<u8>,
    y: Seq<u8>,
    now: u64,
    first_time: u64,
    second_time: u64,
)
    ensures
        ({
            let whole = acp::framed(carried + (x + y));
            let one = acp::framed(carried + x);
            let two = acp::framed(one.partial + y);
            let at_once = relay::ingested(m, whole.frames, now);
            let first = relay::ingested(m, one.frames, first_time);
            let second = relay::ingested(first.relay, two.frames, second_time);
            &&& same_but_for_times(at_once.relay, second.relay)
            &&& at_once.closed == (first.closed || second.closed)
            &&& at_once.notices == first.notices + second.notices
            &&& whole.partial == two.partial
        }),
{
    let one = acp::framed(carried + x);
    let two = acp::framed(one.partial + y);
    assert(carried + (x + y) =~= (carried + x) + y);
    acp::law_chunking(carried + x, y);
    law_reads_compose(m, one.frames, two.frames, now);
    law_times_do_not_matter(m, m, one.frames, now, first_time);
    law_times_do_not_matter(
        relay::ingested(m, one.frames, now).relay,
        relay::ingested(m, one.frames, first_time).relay,
        two.frames,
        now,
        second_time,
    );
}

/// Ageing only ever relaxes the wait: what blocks a handoff with ageing blocks
/// it without.
pub proof fn law_ageing_only_relaxes(m: relay::RelayModel, now: u64, ttl: u64)
    requires
        relay::unsafe_to_steal_within(m, now, ttl),
    ensures
        relay::unsafe_to_steal(m),
{
    if m.turns.dom() == Set::<acp::RpcKey>::empty() {
        let id = choose|id: acp::RpcKey| #[trigger]
            m.callbacks.contains_key(id) && queue::elapsed(m.callbacks[id].1, now) < ttl;
        assert(m.callbacks.dom().contains(id));
    }
}

/// A prompt blocks every handoff from the moment the client sends it, however
/// long it stays open, and the response with its id and a stop reason closes
/// it again.
pub proof fn law_prompt_brackets_a_turn(
    m: relay::RelayModel,
    prompt: acp::FrameModel,
    response: acp::FrameModel,
    frame: Seq<u8>,
    now: u64,
    ttl: u64,
    id: acp::RpcKey,
)
    requires
        prompt.is_prompt_request,
        prompt.id == Some(id),
        response.id == Some(id),
        response.stop_reason is Some,
    ensures
        ({
            let open = relay::admitted(m, prompt);
            let closed = relay::routed(open, response, frame, now);
            &&& open.turns.contains_key(id)
            &&& relay::unsafe_to_steal(open)
            &&& relay::unsafe_to_steal_within(open, now, ttl)
            &&& closed.closed
            &&& closed.relay.turns == m.turns.remove(id)
        }),
{
    let open = relay::admitted(m, prompt);
    assert(open.turns.dom().contains(id));
    assert(relay::routed(open, response, frame, now).relay.turns =~= m.turns.remove(id));
}

/// A request of the agent blocks handoffs until the client answers it or it
/// has aged out; its id is kept until then, and an answer clears it however
/// late it comes.
pub proof fn law_callback_brackets_a_request(
    m: relay::RelayModel,
    request: acp::FrameModel,
    answer: acp::FrameModel,
    frame: Seq<u8>,
    then: u64,
    now: u64,
    ttl: u64,
    id: acp::RpcKey,
)
    requires
        request.has_method,
        request.id == Some(id),
        !answer.has_method,
        answer.id == Some(id),
    ensures
        ({
            let open = relay::routed(m, request, frame, then).relay;
            &&& open.callbacks.contains_key(id)
            &&& relay::unsafe_to_steal(open)
            &&& queue::elapsed(then, now) < ttl ==> relay::unsafe_to_steal_within(open, now, ttl)
            &&& relay::answers_callback(open, answer)
            &&& relay::admitted(open, answer).callbacks == m.callbacks.remove(id)
        }),
{
    let open = relay::routed(m, request, frame, then).relay;
    assert(open.callbacks.contains_key(id));
    assert(open.callbacks.dom().contains(id));
    assert(relay::admitted(open, answer).callbacks =~= m.callbacks.remove(id));
}

/// A request that is never answered does not block handoffs for good: with no
/// prompt open, a handoff goes on once every open request has aged out.
pub proof fn law_unanswered_requests_age_out(m: relay::RelayModel, now: u64, deadline: u64)
    requires
        m.turns.dom() == Set::<acp::RpcKey>::empty(),
        forall|id: acp::RpcKey| #[trigger]
            m.callbacks.contains_key(id) ==> queue::elapsed(m.callbacks[id].1, now)
                >= relay::CALLBACK_STEAL_TTL_MS,
    ensures
        relay::boundary_of(m, now, deadline) == relay::Boundary::Proceed,
{
}

/// A dead agent never blocks a handoff.
pub proof fn law_dead_agent_unblocks(m: relay::RelayModel, now: u64, deadline: u64)
    requires
        m.agent_dead,
    ensures
        relay::boundary_of(m, now, deadline) == relay::Boundary::Proceed,
{
}

/// A handoff waits no longer than its deadline, and is refused only while an
/// id is open on a live agent.
pub proof fn law_handoff_is_bounded(m: relay::RelayModel, now: u64, deadline: u64)
    ensures
        match relay::boundary_of(m, now, deadline) {
            relay::Boundary::Wait(ms) => now < deadline && ms == deadline - now,
            relay::Boundary::Refuse => deadline <= now && !m.agent_dead && relay::unsafe_to_steal(
                m,
            ),
            relay::Boundary::Proceed => true,
        },
{
    if relay::unsafe_to_steal_within(m, now, relay::CALLBACK_STEAL_TTL_MS) {
        law_ageing_only_relaxes(m, now, relay::CALLBACK_STEAL_TTL_MS);
    }
}

/// The frames, of some that come from the agent, that go to one session.
pub open spec fn frames_for(
    m: relay::RelayModel,
    frames: Seq<Seq<u8>>,
    now: u64,
    session: Seq<char>,
) -> Seq<Seq<u8>>
    decreases frames.len(),
{
    if frames.len() == 0 {
        Seq::empty()
    } else {
        let before = frames_for(m, frames.drop_last(), now, session);
        let state = relay::ingested(m, frames.drop_last(), now).relay;
        if relay::lane_key(state, acp::inspection(frames.last())) == session {
            before.push(frames.last())
        } else {
            before
        }
    }
}

/// Taking frames in keeps the sessions sound.
pub proof fn lemma_ingesting_sound(m: relay::RelayModel, frames: Seq<Seq<u8>>, now: u64)
    requires
        fairness::sound(m),
    ensures
        fairness::sound(relay::ingested(m, frames, now).relay),
    decreases frames.len(),
{
    if frames.len() > 0 {
        lemma_ingesting_sound(m, frames.drop_last(), now);
        let b = relay::ingested(m, frames.drop_last(), now).relay;
        let a = relay::ingested(m, frames, now).relay;
        let key = relay::lane_key(b, acp::inspection(frames.last()));
        assert forall|k: Seq<char>| #[trigger] a.lanes.contains_key(k) == a.sessions.contains(k) by {
            if !b.sessions.contains(key) {
                assert(a.sessions[b.sessions.len() as int] == key);
            }
            if b.sessions.contains(k) {
                assert(a.sessions[b.sessions.index_of(k)] == k);
            }
            if a.sessions.contains(k) {
                let i = a.sessions.index_of(k);
                assert(i < b.sessions.len() ==> b.sessions[i] == k);
            }
        }
    }
}

/// A session's lane collects the session's frames, in the order in which the
/// agent sent them, as long as no bound is torn.
pub proof fn law_lane_collects(
    m: relay::RelayModel,
    frames: Seq<Seq<u8>>,
    now: u64,
    session: Seq<char>,
)
    requires
        !relay::ingested(m, frames, now).relay.torn,
    ensures
        fairness::lane_bytes(relay::lane_at(relay::ingested(m, frames, now).relay, session))
            == fairness::lane_bytes(relay::lane_at(m, session)) + frames_for(
            m,
            frames,
            now,
            session,
        ),
    decreases frames.len(),
{
    let after = relay::ingested(m, frames, now).relay;
    if frames.len() == 0 {
        assert(fairness::lane_bytes(relay::lane_at(m, session)) + Seq::empty()
            =~= fairness::lane_bytes(relay::lane_at(m, session)));
    } else {
        let b = relay::ingested(m, frames.drop_last(), now).relay;
        law_lane_collects(m, frames.drop_last(), now, session);
        law_routing_appends(b, acp::inspection(frames.last()), frames.last(), now, session);
        let lb = relay::lane_at(b, session);
        let la = relay::lane_at(after, session);
        if relay::lane_key(b, acp::inspection(frames.last())) == session {
            assert(lb.frames.push((frames.last(), now)).drop_last() =~= lb.frames);
            assert(fairness::lane_bytes(la) =~= fairness::lane_bytes(lb).push(frames.last()));
            assert(fairness::lane_bytes(la) =~= fairness::lane_bytes(relay::lane_at(m, session))
                + frames_for(m, frames, now, session));
        }
    }
}

/// The relay is byte-faithful from end to end: of every session, what a batch
/// forwards followed by what still waits is what waited before followed by
/// what the agent sent meanwhile, frame by frame and byte by byte.
pub proof fn law_byte_faithful(
    m: relay::RelayModel,
    frames: Seq<Seq<u8>>,
    now: u64,
    max: nat,
    session: Seq<char>,
)
    requires
        fairness::sound(m),
        !relay::ingested(m, frames, now).relay.torn,
        relay::ingested(m, frames, now).relay.lanes.contains_key(session),
    ensures
        ({
            let mid = relay::ingested(m, frames, now).relay;
            let order = drain::enrolled(mid.order, mid.sessions);
            let forwarded = fairness::share(
                mid.lanes,
                order,
                drain::batch(mid, max),
                order.index_of(session),
            );
            forwarded + fairness::lane_bytes(
                relay::lane_at(drain::drained(mid, max), session),
            ) == fairness::lane_bytes(relay::lane_at(m, session)) + frames_for(
                m,
                frames,
                now,
                session,
            )
        }),
{
    lemma_ingesting_sound(m, frames, now);
    law_lane_collects(m, frames, now, session);
    fairness::law_nothing_lost_or_reordered(
        relay::ingested(m, frames, now).relay,
        max,
        session,
    );
}

/// The relay is blind to what frames mean: of an agent frame it matters which
/// session and id it names, whether it has a method, and whether it carries a
/// stop reason. What the stop reason says, and whether the method is that of a
/// prompt, makes no difference.
pub proof fn law_semantics_blind(
    m: relay::RelayModel,
    f: acp::FrameModel,
    g: acp::FrameModel,
    frame: Seq<u8>,
    now: u64,
)
    requires
        f.session_id == g.session_id,
        f.id == g.id,
        f.has_method == g.has_method,
        f.stop_reason is Some == g.stop_reason is Some,
    ensures
        relay::routed(m, f, frame, now) == relay::routed(m, g, frame, now),
{
}

/// Taking in some client frames and then more is taking them all in.
pub proof fn law_client_reads_compose(m: relay::RelayModel, a: Seq<Seq<u8>>, b: Seq<Seq<u8>>)
    ensures
        ({
            let first = relay::all_admitted(m, a);
            let second = relay::all_admitted(first.0, b);
            relay::all_admitted(m, a + b) == (second.0, first.1 || second.1)
        }),
    decreases b.len(),
{
    if b.len() == 0 {
        assert(a + b =~= a);
    } else {
        law_client_reads_compose(m, a, b.drop_last());
        assert((a + b).drop_last() =~= a + b.drop_last());
    }
}

/// What the client sends never touches what waits for it: the lanes and the
/// order of service stay as they are.
pub proof fn law_client_leaves_lanes_alone(m: relay::RelayModel, frames: Seq<Seq<u8>>)
    ensures
        ({
            let after = relay::all_admitted(m, frames).0;
            &&& after.lanes == m.lanes
            &&& after.sessions == m.sessions
            &&& after.order == m.order
            &&& after.torn == m.torn
            &&& after.agent_dead == m.agent_dead
        }),
    decreases frames.len(),
{
    if frames.len() > 0 {
        law_client_leaves_lanes_alone(m, frames.drop_last());
    }
}

/// What the agent and the client send between two batches costs no session its
/// place in the order of service.
pub proof fn law_arrivals_keep_the_order(
    m: relay::RelayModel,
    from_agent: Seq<Seq<u8>>,
    from_client: Seq<Seq<u8>>,
    now: u64,
)
    requires
        fairness::sound(m),
    ensures
        fairness::arrives(m, relay::ingested(m, from_agent, now).relay),
        fairness::arrives(m, relay::all_admitted(m, from_client).0),
{
    lemma_ingesting_sound(m, from_agent, now);
    lemma_ingesting_keeps_order(m, from_agent, now);
    law_client_leaves_lanes_alone(m, from_client);
}

proof fn lemma_ingesting_keeps_order(m: relay::RelayModel, frames: Seq<Seq<u8>>, now: u64)
    ensures
        relay::ingested(m, frames, now).relay.order == m.order,
        m.sessions.is_prefix_of(relay::ingested(m, frames, now).relay.sessions),
    decreases frames.len(),
{
    if frames.len() > 0 {
        lemma_ingesting_keeps_order(m, frames.drop_last(), now);
    }
}

} // verus!
