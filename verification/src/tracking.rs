//! What the relay promises of the ids it tracks and of the lane each frame
//! takes, stated frame by frame.

use crate::acp;
use crate::delivery;
use crate::drain;
use crate::fairness;
use crate::queue;
use crate::queue::{HARD_BOUND_BYTES, SOFT_BOUND_FRAMES};
use crate::relay;
use vstd::prelude::*;

verus! {

/// A prompt is tracked under its id with the session that it names, so that
/// the agent's response with that id, which names no session, is queued on the
/// lane of that session.
pub proof fn law_response_goes_to_its_prompts_session(
    m: relay::RelayModel,
    prompt: acp::FrameModel,
    response: acp::FrameModel,
    id: acp::RpcKey,
    session: Seq<char>,
)
    requires
        prompt.is_prompt_request,
        prompt.id == Some(id),
        prompt.session_id == Some(session),
        response.id == Some(id),
        response.session_id is None,
    ensures
        relay::admitted(m, prompt).turns.contains_key(id),
        relay::admitted(m, prompt).turns[id] == session,
        relay::lane_key(relay::admitted(m, prompt), response) == session,
{
}

/// A client frame touches the turns of no id but its own, and only if it is a
/// prompt; it touches the agent's requests of no id but its own, and only if it
/// has no method.
pub proof fn law_client_frame_touches_its_own_id(
    m: relay::RelayModel,
    f: acp::FrameModel,
    id: acp::RpcKey,
)
    ensures
        ({
            let after = relay::admitted(m, f);
            &&& f.id != Some(id) || !f.is_prompt_request ==> {
                &&& after.turns.contains_key(id) == m.turns.contains_key(id)
                &&& m.turns.contains_key(id) ==> after.turns[id] == m.turns[id]
            }
            &&& f.id != Some(id) || f.has_method ==> {
                &&& after.callbacks.contains_key(id) == m.callbacks.contains_key(id)
                &&& m.callbacks.contains_key(id) ==> after.callbacks[id] == m.callbacks[id]
            }
            &&& f.id == Some(id) && !f.has_method ==> !after.callbacks.contains_key(id)
            &&& f.id == Some(id) && f.is_prompt_request ==> after.turns.contains_key(id)
        }),
{
}

/// A client frame answers a request of the agent if and only if that request
/// is open before and not after.
pub proof fn law_answers_are_told(m: relay::RelayModel, f: acp::FrameModel)
    ensures
        relay::answers_callback(m, f) <==> exists|id: acp::RpcKey|
            m.callbacks.contains_key(id) && !(#[trigger] relay::admitted(
                m,
                f,
            ).callbacks.contains_key(id)),
{
    if relay::answers_callback(m, f) {
        let id = f.id->Some_0;
        assert(m.callbacks.contains_key(id) && !relay::admitted(m, f).callbacks.contains_key(id));
    }
}

/// An agent frame closes the prompt with its id if it carries a stop reason,
/// and touches no other turn; it opens a request with its id if it has a
/// method, and touches no other request.
pub proof fn law_agent_frame_touches_its_own_id(
    m: relay::RelayModel,
    f: acp::FrameModel,
    frame: Seq<u8>,
    now: u64,
    id: acp::RpcKey,
)
    ensures
        ({
            let after = relay::routed(m, f, frame, now).relay;
            &&& f.id != Some(id) || f.stop_reason is None ==> {
                &&& after.turns.contains_key(id) == m.turns.contains_key(id)
                &&& m.turns.contains_key(id) ==> after.turns[id] == m.turns[id]
            }
            &&& f.id == Some(id) && f.stop_reason is Some ==> !after.turns.contains_key(id)
            &&& f.id != Some(id) || !f.has_method ==> {
                &&& after.callbacks.contains_key(id) == m.callbacks.contains_key(id)
                &&& m.callbacks.contains_key(id) ==> after.callbacks[id] == m.callbacks[id]
            }
            &&& f.id == Some(id) && f.has_method ==> {
                &&& after.callbacks.contains_key(id)
                &&& after.callbacks[id].1 == now
                &&& forall|s: Seq<char>|
                    f.session_id == Some(s) ==> #[trigger] after.callbacks[id] == (s, now)
                &&& f.session_id is None ==> after.callbacks[id].0 == "-"@
            }
        }),
{
}

/// Closing is told if and only if a turn that was open is closed.
pub proof fn law_closing_is_told(
    m: relay::RelayModel,
    f: acp::FrameModel,
    frame: Seq<u8>,
    now: u64,
)
    ensures
        relay::routed(m, f, frame, now).closed <==> exists|id: acp::RpcKey|
            m.turns.contains_key(id) && !(#[trigger] relay::routed(
                m,
                f,
                frame,
                now,
            ).relay.turns.contains_key(id)),
{
    if relay::routed(m, f, frame, now).closed {
        let id = f.id->Some_0;
        assert(m.turns.contains_key(id) && !relay::routed(
            m,
            f,
            frame,
            now,
        ).relay.turns.contains_key(id));
    }
}

/// A frame takes the lane of the session it names; one that names none and
/// carries the id of an open prompt or request takes the lane of that; any
/// other takes the common lane. A frame of one session never lands on another
/// lane.
pub proof fn law_lanes_are_chosen_by_session(
    m: relay::RelayModel,
    f: acp::FrameModel,
    id: acp::RpcKey,
    session: Seq<char>,
)
    ensures
        f.session_id == Some(session) ==> relay::lane_key(m, f) == session,
        f.session_id is None && f.id == Some(id) && m.turns.contains_key(id) ==> relay::lane_key(
            m,
            f,
        ) == m.turns[id],
        f.session_id is None && f.id == Some(id) && !m.turns.contains_key(id)
            && m.callbacks.contains_key(id) ==> relay::lane_key(m, f) == m.callbacks[id].0,
        f.session_id is None && f.id == Some(id) && !m.turns.contains_key(id)
            && !m.callbacks.contains_key(id) ==> relay::lane_key(m, f) == "-"@,
        f.session_id is None && f.id is None ==> relay::lane_key(m, f) == "-"@,
{
}

proof fn lemma_turn_stays_open(
    m: relay::RelayModel,
    frames: Seq<Seq<u8>>,
    now: u64,
    id: acp::RpcKey,
)
    requires
        m.turns.contains_key(id),
        forall|j: int|
            0 <= j < frames.len() ==> acp::inspection(#[trigger] frames[j]).stop_reason is None
                || acp::inspection(frames[j]).id != Some(id),
    ensures
        relay::ingested(m, frames, now).relay.turns.contains_key(id),
        relay::ingested(m, frames, now).relay.turns[id] == m.turns[id],
    decreases frames.len(),
{
    if frames.len() > 0 {
        let before = frames.drop_last();
        assert forall|j: int| 0 <= j < before.len() implies acp::inspection(
            #[trigger] before[j],
        ).stop_reason is None || acp::inspection(before[j]).id != Some(id) by {
            assert(before[j] == frames[j]);
        }
        lemma_turn_stays_open(m, before, now, id);
        assert(frames[frames.len() - 1] == frames.last());
    }
}

/// The response to a prompt never overtakes its session: after the client's
/// prompt for a session and any frames of the agent that do not end the turn,
/// the response with the prompt's id is the last frame on the session's lane,
/// behind everything of the session that came before it.
pub proof fn law_response_is_queued_behind_its_session(
    m: relay::RelayModel,
    prompt: acp::FrameModel,
    chunks: Seq<Seq<u8>>,
    response: Seq<u8>,
    now: u64,
    id: acp::RpcKey,
    session: Seq<char>,
)
    requires
        prompt.is_prompt_request,
        prompt.id == Some(id),
        prompt.session_id == Some(session),
        forall|j: int|
            0 <= j < chunks.len() ==> acp::inspection(#[trigger] chunks[j]).stop_reason is None
                || acp::inspection(chunks[j]).id != Some(id),
        acp::inspection(response).id == Some(id),
        acp::inspection(response).session_id is None,
        !relay::ingested(relay::admitted(m, prompt), chunks.push(response), now).relay.torn,
    ensures
        ({
            let open = relay::admitted(m, prompt);
            let before = relay::ingested(open, chunks, now).relay;
            let after = relay::ingested(open, chunks.push(response), now).relay;
            relay::lane_at(after, session).frames == relay::lane_at(before, session).frames.push(
                (response, now),
            )
        }),
{
    let open = relay::admitted(m, prompt);
    let before = relay::ingested(open, chunks, now).relay;
    assert(chunks.push(response).drop_last() =~= chunks);
    lemma_turn_stays_open(open, chunks, now, id);
    delivery::law_routing_appends(before, acp::inspection(response), response, now, session);
}

proof fn lemma_numbers_so_far(s: Seq<(int, int)>, y: int, p: int, a: int) -> (x: int)
    requires
        0 <= y <= s.len(),
        forall|i: int|
            0 <= i < s.len() ==> (#[trigger] s[i]).0 == drain::taken(s.take(i), s[i].1),
        0 <= a < drain::taken(s.take(y), p),
    ensures
        0 <= x < y,
        s[x] == (a, p),
    decreases y,
{
    if y == 0 {
        assert(s.take(0) =~= Seq::empty());
        0
    } else {
        assert(s.take(y).drop_last() =~= s.take(y - 1));
        assert(s.take(y).last() == s[y - 1]);
        if s[y - 1].1 == p && a == drain::taken(s.take(y - 1), p) {
            y - 1
        } else {
            lemma_numbers_so_far(s, y - 1, p, a)
        }
    }
}

/// Within a batch, what came earlier on a session is forwarded earlier: a batch
/// that sends the frame at one place of a lane has sent every frame in front of
/// it before, and each entry of the batch is the very frame of its place.
pub proof fn law_earlier_frames_go_first(m: relay::RelayModel, max: nat, y: int, a: int)
    requires
        0 <= y < drain::batch(m, max).len(),
        0 <= a < drain::batch(m, max)[y].0,
    ensures
        ({
            let s = drain::batch(m, max);
            let order = drain::enrolled(m.order, m.sessions);
            let lane = m.lanes[order[s[y].1]];
            &&& exists|x: int| 0 <= x < y && #[trigger] s[x] == (a, s[y].1)
            &&& drain::batch_frames(m, max)[y] == lane.frames[s[y].0].0
        }),
{
    let s = drain::batch(m, max);
    fairness::lemma_batch_entries(m, max);
    assert(s[y].0 == drain::taken(s.take(y), s[y].1));
    let x = lemma_numbers_so_far(s, y, s[y].1, a);
    assert(s[x] == (a, s[y].1));
}

/// Every entry of a batch is a frame that waits on a session that may be
/// forwarded.
pub proof fn law_batches_send_what_waits(m: relay::RelayModel, max: nat, y: int)
    requires
        0 <= y < drain::batch(m, max).len(),
    ensures
        ({
            let e = drain::batch(m, max)[y];
            let order = drain::enrolled(m.order, m.sessions);
            &&& 0 <= e.1 < order.len()
            &&& m.lanes.contains_key(order[e.1])
            &&& !m.lanes[order[e.1]].pressured
            &&& 0 <= e.0 < m.lanes[order[e.1]].frames.len()
            &&& drain::batch_frames(m, max)[y] == m.lanes[order[e.1]].frames[e.0].0
        }),
{
    fairness::lemma_batch_entries(m, max);
    assert(drain::batch(m, max)[y].0 == drain::taken(
        drain::batch(m, max).take(y),
        drain::batch(m, max)[y].1,
    ));
}

/// The front is served first: of two sessions, the one nearer to the front has
/// sent at least as much, as far as it has anything.
pub proof fn law_front_is_served_first(m: relay::RelayModel, max: nat, p: int, q: int)
    requires
        0 <= p < q < drain::enrolled(m.order, m.sessions).len(),
    ensures
        ({
            let order = drain::enrolled(m.order, m.sessions);
            let s = drain::batch(m, max);
            drain::taken(s, p) >= drain::least(
                drain::taken(s, q) as int,
                drain::eligible(m.lanes, order[p]) as int,
            )
        }),
{
    let at = fairness::lemma_batch_point(m, max);
    let avail = drain::available(m.lanes, drain::enrolled(m.order, m.sessions));
    drain::lemma_taken_laps(avail, at.0, at.1, p);
    drain::lemma_taken_laps(avail, at.0, at.1, q);
}

/// After a full batch the session that sent last is at the end of the order;
/// after a batch that sent all there was, the order is as before. Either way
/// the same sessions are served.
pub proof fn law_service_goes_on_behind_the_last(m: relay::RelayModel, max: nat)
    ensures
        ({
            let order = drain::enrolled(m.order, m.sessions);
            let s = drain::batch(m, max);
            let after = drain::drained(m, max).order;
            &&& after.len() == order.len()
            &&& s.len() > 0 && s.len() == max ==> after.last() == order[s.last().1]
            &&& s.len() == 0 || s.len() < max ==> after == order
        }),
{
    fairness::lemma_batch_entries(m, max);
    let s = drain::batch(m, max);
    if s.len() > 0 {
        assert(s[s.len() - 1].0 == drain::taken(s.take(s.len() - 1), s[s.len() - 1].1));
    }
}

/// A lane becomes pressured by reaching the soft bound and by nothing else, and
/// stays pressured.
pub proof fn law_pressure_comes_from_the_soft_bound(
    m: relay::RelayModel,
    f: acp::FrameModel,
    frame: Seq<u8>,
    now: u64,
)
    ensures
        ({
            let session = relay::lane_key(m, f);
            let before = relay::lane_at(m, session);
            let after = relay::lane_at(relay::routed(m, f, frame, now).relay, session);
            &&& before.pressured ==> after.pressured
            &&& !before.pressured ==> after.pressured == (before.frames.len() + 1
                >= SOFT_BOUND_FRAMES)
        }),
{
}

/// The lease is torn by a pressured lane over the hard bound and by nothing
/// else.
pub proof fn law_tears_come_from_the_hard_bound(
    m: relay::RelayModel,
    f: acp::FrameModel,
    frame: Seq<u8>,
    now: u64,
)
    ensures
        ({
            let before = relay::lane_at(m, relay::lane_key(m, f));
            let pressured = before.pressured || before.frames.len() + 1 >= SOFT_BOUND_FRAMES;
            relay::routed(m, f, frame, now).relay.torn == (m.torn || (pressured && before.bytes()
                + frame.len() > HARD_BOUND_BYTES))
        }),
{
    let before = relay::lane_at(m, relay::lane_key(m, f));
    assert(before.frames.push((frame, now)).drop_last() =~= before.frames);
}

/// A lane that is not pressured gives a sample when it starts to flow, and none
/// while it goes on flowing.
pub proof fn law_flowing_is_told_once(
    m: relay::RelayModel,
    f: acp::FrameModel,
    frame: Seq<u8>,
    now: u64,
)
    requires
        !relay::lane_at(m, relay::lane_key(m, f)).pressured,
        relay::lane_at(m, relay::lane_key(m, f)).frames.len() + 1 < SOFT_BOUND_FRAMES,
    ensures
        ({
            let session = relay::lane_key(m, f);
            let before = relay::lane_at(m, session);
            let flow = relay::routed(m, f, frame, now);
            &&& flow.notices.len() == 0
            &&& before.frames.len() > 0 ==> flow.samples.len() == 0
            &&& before.frames.len() == 0 ==> {
                &&& flow.samples.len() == 1
                &&& flow.samples[0].session == session
                &&& flow.samples[0].queue_depth == 1
                &&& flow.samples[0].oldest_unread_ms == 0
                &&& flow.samples[0].lifecycle == "flowing"@
            }
        }),
{
}

/// A pressured lane gives one sample each time it grows, and one more when it
/// is torn; every sample is about the lane that grew.
pub proof fn law_pressure_is_told_each_time(
    m: relay::RelayModel,
    f: acp::FrameModel,
    frame: Seq<u8>,
    now: u64,
)
    requires
        relay::lane_at(m, relay::lane_key(m, f)).pressured || relay::lane_at(
            m,
            relay::lane_key(m, f),
        ).frames.len() + 1 >= SOFT_BOUND_FRAMES,
    ensures
        ({
            let session = relay::lane_key(m, f);
            let before = relay::lane_at(m, session);
            let flow = relay::routed(m, f, frame, now);
            let over = before.bytes() + frame.len() > HARD_BOUND_BYTES;
            &&& flow.samples.len() == if over {
                2int
            } else {
                1int
            }
            &&& flow.samples[0].lifecycle == "pressured"@
            &&& over ==> flow.samples[1].lifecycle == "torn"@
            &&& forall|i: int|
                0 <= i < flow.samples.len() ==> (#[trigger] flow.samples[i]).session == session
                    && flow.samples[i].queue_depth == before.frames.len() + 1
            &&& before.frames.len() > 0 && now >= before.frames[0].1 ==> flow.samples[0].oldest_unread_ms
                == now - before.frames[0].1
            &&& flow.notices.contains(relay::NoticeModel::SoftBound { session })
                == !before.pressured
        }),
{
    let session = relay::lane_key(m, f);
    let before = relay::lane_at(m, session);
    let flow = relay::routed(m, f, frame, now);
    assert(before.frames.push((frame, now)).drop_last() =~= before.frames);
    if !before.pressured {
        assert(flow.notices[0] == relay::NoticeModel::SoftBound { session });
    }
}

/// A sample tells how many frames wait and how long the oldest of them has
/// waited.
pub proof fn law_samples_tell_the_oldest(
    session: Seq<char>,
    lane: queue::Lane,
    now: u64,
    word: Seq<char>,
)
    ensures
        ({
            let t = queue::sample_of(session, lane, now, word);
            &&& t.session == session
            &&& t.lifecycle == word
            &&& t.queue_depth == lane.frames.len()
            &&& lane.frames.len() == 0 ==> t.oldest_unread_ms == 0
            &&& lane.frames.len() > 0 && now >= lane.frames[0].1 ==> t.oldest_unread_ms == now
                - lane.frames[0].1
        }),
{
}

/// A session that a frame names is counted; a frame that names none makes the
/// common lane no session.
pub proof fn law_named_sessions_are_counted(
    m: relay::RelayModel,
    f: acp::FrameModel,
    frame: Seq<u8>,
    now: u64,
)
    ensures
        ({
            let after = relay::routed(m, f, frame, now).relay;
            &&& forall|s: Seq<char>| #[trigger]
                f.session_id == Some(s) ==> after.sessions.contains(s) && relay::is_session(
                    after,
                    s,
                )
            &&& f.session_id is None ==> relay::is_session(after, "-"@) == relay::is_session(
                m,
                "-"@,
            )
            &&& forall|s: Seq<char>| s != "-"@ ==> #[trigger] relay::is_session(after, s)
            &&& forall|s: Seq<char>| #[trigger] m.sessions.contains(s) ==> after.sessions.contains(s)
        }),
{
    let key = relay::lane_key(m, f);
    let after = relay::routed(m, f, frame, now).relay;
    if !m.sessions.contains(key) {
        assert(after.sessions[m.sessions.len() as int] == key);
    }
    assert forall|s: Seq<char>| #[trigger] m.sessions.contains(s) implies after.sessions.contains(
        s,
    ) by {
        let i = m.sessions.index_of(s);
        assert(after.sessions[i] == s);
    }
}

/// A new relay has nothing waiting and nothing open, and is neither torn nor
/// dead; death leaves all that waits to be forwarded.
pub proof fn law_a_relay_starts_empty(m: relay::RelayModel)
    ensures
        ({
            let fresh = relay::fresh_relay();
            &&& forall|s: Seq<char>| !fresh.lanes.contains_key(s)
            &&& forall|id: acp::RpcKey| !fresh.turns.contains_key(id)
            &&& forall|id: acp::RpcKey| !fresh.callbacks.contains_key(id)
            &&& fresh.sessions.len() == 0
            &&& fresh.order.len() == 0
            &&& !fresh.torn
            &&& !fresh.agent_dead
            &&& !relay::unsafe_to_steal(fresh)
        }),
{
    assert(relay::fresh_relay().turns.dom() =~= Set::empty());
    assert(relay::fresh_relay().callbacks.dom() =~= Set::empty());
}

/// Taking over is unsafe if and only if some prompt or some request is open.
pub proof fn law_open_ids_make_stealing_unsafe(m: relay::RelayModel)
    ensures
        relay::unsafe_to_steal(m) <==> (exists|id: acp::RpcKey| #[trigger]
            m.turns.contains_key(id)) || (exists|id: acp::RpcKey| #[trigger]
            m.callbacks.contains_key(id)),
{
    if m.turns.dom() != Set::<acp::RpcKey>::empty() {
        if forall|id: acp::RpcKey| !m.turns.dom().contains(id) {
            assert(m.turns.dom() =~= Set::empty());
        }
        let id = choose|id: acp::RpcKey| m.turns.dom().contains(id);
        assert(m.turns.contains_key(id));
    }
    if m.callbacks.dom() != Set::<acp::RpcKey>::empty() {
        if forall|id: acp::RpcKey| !m.callbacks.dom().contains(id) {
            assert(m.callbacks.dom() =~= Set::empty());
        }
        let id = choose|id: acp::RpcKey| m.callbacks.dom().contains(id);
        assert(m.callbacks.contains_key(id));
    }
    assert forall|id: acp::RpcKey| #[trigger] m.turns.contains_key(id) implies m.turns.dom()
        != Set::<acp::RpcKey>::empty() by {
        assert(m.turns.dom().contains(id));
    }
    assert forall|id: acp::RpcKey| #[trigger]
        m.callbacks.contains_key(id) implies m.callbacks.dom() != Set::<acp::RpcKey>::empty() by {
        assert(m.callbacks.dom().contains(id));
    }
}

/// On a live agent a handoff goes on if nothing is open but requests that have
/// had their time, and otherwise waits until its deadline and is then refused.
pub proof fn law_handoff_verdicts(
    m: relay::RelayModel,
    now: u64,
    deadline: u64,
    id: acp::RpcKey,
)
    requires
        !m.agent_dead,
        m.turns.contains_key(id) || (m.callbacks.contains_key(id) && now < m.callbacks[id].1
            + relay::CALLBACK_STEAL_TTL_MS),
    ensures
        now < deadline ==> relay::boundary_of(m, now, deadline) == relay::Boundary::Wait(
            (deadline - now) as u64,
        ),
        deadline <= now ==> relay::boundary_of(m, now, deadline) == relay::Boundary::Refuse,
{
    if m.turns.contains_key(id) {
        assert(m.turns.dom().contains(id));
    }
}

/// Each frame of the agent is routed in turn, and what it gives rise to is told
/// in turn: none is left out and none comes twice.
pub proof fn law_each_agent_frame_is_routed(
    m: relay::RelayModel,
    frames: Seq<Seq<u8>>,
    frame: Seq<u8>,
    now: u64,
)
    ensures
        ({
            let before = relay::ingested(m, frames, now);
            let one = relay::routed(before.relay, acp::inspection(frame), frame, now);
            let after = relay::ingested(m, frames.push(frame), now);
            &&& after.relay == one.relay
            &&& after.samples == before.samples + one.samples
            &&& after.notices == before.notices + one.notices
            &&& after.closed == (before.closed || one.closed)
        }),
        relay::ingested(m, Seq::empty(), now).relay == m,
        relay::ingested(m, Seq::empty(), now).samples.len() == 0,
        relay::ingested(m, Seq::empty(), now).notices.len() == 0,
        !relay::ingested(m, Seq::empty(), now).closed,
{
    assert(frames.push(frame).drop_last() =~= frames);
}

/// Each frame of the client is tracked in turn.
pub proof fn law_each_client_frame_is_admitted(
    m: relay::RelayModel,
    frames: Seq<Seq<u8>>,
    frame: Seq<u8>,
)
    ensures
        ({
            let before = relay::all_admitted(m, frames);
            let after = relay::all_admitted(m, frames.push(frame));
            &&& after.0 == relay::admitted(before.0, acp::inspection(frame))
            &&& after.1 == (before.1 || relay::answers_callback(
                before.0,
                acp::inspection(frame),
            ))
        }),
        relay::all_admitted(m, Seq::empty()) == (m, false),
{
    assert(frames.push(frame).drop_last() =~= frames);
}

/// Reading loses no byte on either side: what was carried over and what was
/// read is, byte for byte, the frames that are passed on followed by what is
/// carried over next. What the client sends reaches the agent whole, whatever
/// the frames mean.
pub proof fn law_reads_lose_no_byte(
    m: relay::RelayModel,
    carried: Seq<u8>,
    chunk: Seq<u8>,
    now: u64,
)
    ensures
        ({
            let (after, answered, frames, rest) = relay::client_read(m, carried, chunk);
            &&& acp::flat(frames) + rest == carried + chunk
            &&& acp::newline_free(rest)
            &&& forall|i: int| 0 <= i < frames.len() ==> acp::is_frame(#[trigger] frames[i])
            &&& (after, answered) == relay::all_admitted(m, frames)
        }),
        exists|frames: Seq<Seq<u8>>|
            {
                &&& acp::flat(frames) + relay::agent_read(m, carried, chunk, now).1 == carried
                    + chunk
                &&& acp::newline_free(relay::agent_read(m, carried, chunk, now).1)
                &&& forall|i: int| 0 <= i < frames.len() ==> acp::is_frame(#[trigger] frames[i])
                &&& relay::agent_read(m, carried, chunk, now).0 == #[trigger] relay::ingested(
                    m,
                    frames,
                    now,
                )
            },
{
    acp::law_framing_lossless(carried + chunk);
    acp::law_frame_shape(carried + chunk);
    let frames = acp::framed(carried + chunk).frames;
    assert(relay::agent_read(m, carried, chunk, now).0 == relay::ingested(m, frames, now));
}

/// The forwarder sends what there is to send, as long as the lease is not torn,
/// even of an agent that is gone; it stops only when nothing is left of such an
/// agent, and a torn lease leaves everything as it is.
pub proof fn law_forwarder_sends_what_there_is(m: relay::RelayModel)
    ensures
        ({
            let (after, step) = drain::forwarded(m);
            let frames = drain::batch_frames(m, drain::BATCH_FRAMES as nat);
            &&& m.torn ==> step is Torn && after == m
            &&& !m.torn && frames.len() > 0 ==> step == drain::ForwardModel::Batch(frames)
            &&& !m.torn && frames.len() == 0 ==> step == (if m.agent_dead {
                drain::ForwardModel::Drained
            } else {
                drain::ForwardModel::Idle
            })
            &&& !m.torn ==> after == drain::drained(m, drain::BATCH_FRAMES as nat)
            &&& after.sessions == m.sessions
            &&& after.common_named == m.common_named
            &&& after.turns == m.turns
            &&& after.callbacks == m.callbacks
            &&& after.torn == m.torn
            &&& after.agent_dead == m.agent_dead
        }),
{
}

/// The death of the agent is told, and leaves everything that waits, and
/// everything that is open, as it is.
pub proof fn law_death_leaves_what_waits(m: relay::RelayModel)
    ensures
        relay::bereft(m).agent_dead,
        relay::bereft(m).lanes == m.lanes,
        relay::bereft(m).order == m.order,
        relay::bereft(m).sessions == m.sessions,
        relay::bereft(m).turns == m.turns,
        relay::bereft(m).callbacks == m.callbacks,
        relay::bereft(m).torn == m.torn,
        relay::death_sample().session == "-"@,
        relay::death_sample().lifecycle == "agent_dead"@,
        relay::death_sample().queue_depth == 0,
        relay::death_sample().oldest_unread_ms == 0,
{
}

/// With ageing, taking over is unsafe if and only if some prompt is open or
/// some request came less than `ttl` ago.
pub proof fn law_fresh_ids_make_stealing_unsafe(m: relay::RelayModel, now: u64, ttl: u64)
    ensures
        relay::unsafe_to_steal_within(m, now, ttl) <==> (exists|id: acp::RpcKey| #[trigger]
            m.turns.contains_key(id)) || (exists|id: acp::RpcKey| #[trigger]
            m.callbacks.contains_key(id) && (if now >= m.callbacks[id].1 {
                now - m.callbacks[id].1 < ttl
            } else {
                0 < ttl
            })),
{
    if m.turns.dom() != Set::<acp::RpcKey>::empty() {
        if forall|id: acp::RpcKey| !m.turns.dom().contains(id) {
            assert(m.turns.dom() =~= Set::empty());
        }
        let id = choose|id: acp::RpcKey| m.turns.dom().contains(id);
        assert(m.turns.contains_key(id));
    }
    assert forall|id: acp::RpcKey| #[trigger] m.turns.contains_key(id) implies m.turns.dom()
        != Set::<acp::RpcKey>::empty() by {
        assert(m.turns.dom().contains(id));
    }
}

/// End to end: a batch that forwards the response to a prompt has forwarded
/// everything that waited on the prompt's session in front of it.
pub proof fn law_response_is_forwarded_after_its_session(
    m: relay::RelayModel,
    prompt: acp::FrameModel,
    chunks: Seq<Seq<u8>>,
    response: Seq<u8>,
    now: u64,
    id: acp::RpcKey,
    session: Seq<char>,
    max: nat,
    y: int,
    a: int,
)
    requires
        prompt.is_prompt_request,
        prompt.id == Some(id),
        prompt.session_id == Some(session),
        forall|j: int|
            0 <= j < chunks.len() ==> acp::inspection(#[trigger] chunks[j]).stop_reason is None
                || acp::inspection(chunks[j]).id != Some(id),
        acp::inspection(response).id == Some(id),
        acp::inspection(response).session_id is None,
        !relay::ingested(relay::admitted(m, prompt), chunks.push(response), now).relay.torn,
        ({
            let before = relay::ingested(relay::admitted(m, prompt), chunks, now).relay;
            let after = relay::ingested(
                relay::admitted(m, prompt),
                chunks.push(response),
                now,
            ).relay;
            let s = drain::batch(after, max);
            let n = relay::lane_at(before, session).frames.len();
            &&& 0 <= y < s.len()
            &&& drain::enrolled(after.order, after.sessions)[s[y].1] == session
            &&& s[y].0 == n
            &&& 0 <= a < n
        }),
    ensures
        ({
            let before = relay::ingested(relay::admitted(m, prompt), chunks, now).relay;
            let after = relay::ingested(
                relay::admitted(m, prompt),
                chunks.push(response),
                now,
            ).relay;
            &&& drain::batch_frames(after, max)[y] == response
            &&& exists|x: int|
                0 <= x < y && #[trigger] drain::batch_frames(after, max)[x] == relay::lane_at(
                    before,
                    session,
                ).frames[a].0
        }),
{
    let open = relay::admitted(m, prompt);
    let before = relay::ingested(open, chunks, now).relay;
    let after = relay::ingested(open, chunks.push(response), now).relay;
    let s = drain::batch(after, max);
    law_response_is_queued_behind_its_session(m, prompt, chunks, response, now, id, session);
    law_batches_send_what_waits(after, max, y);
    law_earlier_frames_go_first(after, max, y, a);
    let x = choose|x: int| 0 <= x < y && #[trigger] s[x] == (a, s[y].1);
    law_batches_send_what_waits(after, max, x);
    assert(drain::batch_frames(after, max)[x] == relay::lane_at(before, session).frames[a].0);
}

} // verus!
