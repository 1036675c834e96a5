//! The relay of one agent: what waits for the client, which ids are open, and
//! how frames move between the two sides.

use crate::acp;
use crate::acp::{inspect, take_frames, FrameInfo, RpcId};
use crate::names;
use crate::names::program_name;
use crate::protocol;
use crate::protocol::Telemetry;
use crate::queue;
use crate::queue::{sample, SessionQueue, HARD_BOUND_BYTES, SOFT_BOUND_FRAMES};
use crate::table::Table;
use crate::text;
use crate::text::{decimal, same_text, wide_decimal};
use std::collections::VecDeque;
use vstd::prelude::*;
use vstd::string::*;

verus! {

/// A [`RelayState`] as mathematical values.
pub struct RelayModel {
    /// The sessions in the order in which they were first seen.
    pub sessions: Seq<Seq<char>>,
    /// What waits for the client, by session.
    pub lanes: Map<Seq<char>, queue::Lane>,
    /// The sessions in the order in which they are served next.
    pub order: Seq<Seq<char>>,
    /// The open prompts and their sessions.
    pub turns: Map<acp::RpcKey, Seq<char>>,
    /// The agent's own open requests, with their sessions and the times they
    /// came.
    pub callbacks: Map<acp::RpcKey, (Seq<char>, u64)>,
    /// Whether a frame named a session by the key of the common lane.
    pub common_named: bool,
    pub torn: bool,
    pub agent_dead: bool,
}

/// The state of a relay: per-session queues and the tracker of open ids.
pub struct RelayState {
    /// The forward queues, by session.
    pub queues: Table<String, SessionQueue>,
    /// The sessions in the order in which they are served next.
    pub drain_order: VecDeque<String>,
    /// The ids of the client's prompts in flight, with their sessions.
    pub open_turns: Table<RpcId, String>,
    /// The ids of the agent's own requests that the client has not answered,
    /// with their sessions and the times they came (in milliseconds).
    pub open_callbacks: Table<RpcId, (String, u64)>,
    /// Whether a frame named a session by the key of the common lane, so that
    /// the lane is that of a session too.
    pub common_named: bool,
    /// Whether a session exceeded the hard bound, so that the client is closed.
    /// The next client starts anew.
    pub torn: bool,
    /// Whether the agent's output has ended.
    pub agent_dead: bool,
}

/// The lanes of a table of queues.
pub open spec fn lanes_of(t: Table<String, SessionQueue>) -> Map<Seq<char>, queue::Lane> {
    t.map().map_values(|q: SessionQueue| q@)
}

impl View for RelayState {
    type V = RelayModel;

    open spec fn view(&self) -> RelayModel {
        RelayModel {
            sessions: self.queues.keys(),
            lanes: lanes_of(self.queues),
            order: text::texts(self.drain_order@),
            turns: self.open_turns.map().map_values(|s: String| s@),
            callbacks: self.open_callbacks.map().map_values(|c: (String, u64)| (c.0@, c.1)),
            common_named: self.common_named,
            torn: self.torn,
            agent_dead: self.agent_dead,
        }
    }
}

/// The relay of an agent that has just started.
pub open spec fn fresh_relay() -> RelayModel {
    RelayModel {
        sessions: Seq::empty(),
        lanes: Map::empty(),
        order: Seq::empty(),
        turns: Map::empty(),
        callbacks: Map::empty(),
        common_named: false,
        torn: false,
        agent_dead: false,
    }
}

impl RelayState {
    /// The tables are sound, every queue counts its bytes and stays within the
    /// hard bound once it is pressured, and no session is served twice in a lap.
    pub open spec fn inv(self) -> bool {
        &&& self.queues.inv()
        &&& self.open_turns.inv()
        &&& self.open_callbacks.inv()
        &&& text::texts(self.drain_order@).no_duplicates()
        &&& forall|s: Seq<char>| #[trigger]
            self.queues.map().contains_key(s) ==> {
                &&& self.queues.map()[s].inv()
                &&& self.queues.map()[s].pressured ==> self.queues.map()[s].bytes
                    <= HARD_BOUND_BYTES
            }
    }

    /// The relay of an agent that has just started.
    pub fn new() -> (r: Self)
        ensures
            r.inv(),
            r@ == fresh_relay(),
    {
        let r = RelayState {
            queues: Table::new(),
            drain_order: VecDeque::new(),
            open_turns: Table::new(),
            open_callbacks: Table::new(),
            common_named: false,
            torn: false,
            agent_dead: false,
        };
        proof {
            assert(r@.lanes =~= Map::empty());
            assert(r@.order =~= Seq::empty());
            assert(r@.turns =~= Map::empty());
            assert(r@.callbacks =~= Map::empty());
        }
        r
    }

    /// How many sessions were seen. The common lane is none, unless a frame
    /// named a session by its key.
    pub fn session_count(&self) -> (r: usize)
        requires
            self.inv(),
        ensures
            r == self@.sessions.filter(|s: Seq<char>| is_session(self@, s)).len(),
    {
        let ghost named = |s: Seq<char>| is_session(self@, s);
        let ghost keys = self.queues.keys();
        let mut n: usize = 0;
        let mut i: usize = 0;
        proof {
            reveal(Seq::filter);
            assert(keys.take(0) =~= Seq::empty());
        }
        while i < self.queues.len()
            invariant
                self.inv(),
                keys == self.queues.keys(),
                i <= keys.len(),
                n <= i,
                named == (|s: Seq<char>| is_session(self@, s)),
                n == keys.take(i as int).filter(named).len(),
            decreases keys.len() - i,
        {
            proof {
                reveal(Seq::filter);
                assert(keys.take(i + 1).drop_last() =~= keys.take(i as int));
                assert(keys.take(i + 1).last() == keys[i as int]);
            }
            if self.common_named || !same_text(self.queues.key_at(i).as_str(), "-") {
                n = n + 1;
            }
            i = i + 1;
        }
        assert(keys.take(i as int) =~= keys);
        n
    }
}

/// The lane of what belongs to no session.
pub open spec fn common_lane() -> Seq<char> {
    "-"@
}

/// Whether the key of a lane is a session: the common lane's is one only if a
/// frame named it.
pub open spec fn is_session(m: RelayModel, key: Seq<char>) -> bool {
    key != common_lane() || m.common_named
}

/// Whether a frame names a session by the key of the common lane.
pub open spec fn names_common(f: acp::FrameModel) -> bool {
    f.session_id == Some(common_lane())
}

fn naming_common(info: &FrameInfo) -> (r: bool)
    ensures
        r == names_common(info@),
{
    match &info.session_id {
        Some(s) => same_text(s.as_str(), "-"),
        None => false,
    }
}

/// The lane that an agent frame goes to: that of the session it names, else
/// that of the open prompt or request whose id it carries, else the common one.
pub open spec fn lane_key(m: RelayModel, f: acp::FrameModel) -> Seq<char> {
    match (f.session_id, f.id) {
        (Some(session), _) => session,
        (None, Some(id)) => if m.turns.contains_key(id) {
            m.turns[id]
        } else if m.callbacks.contains_key(id) {
            m.callbacks[id].0
        } else {
            common_lane()
        },
        (None, None) => common_lane(),
    }
}

/// Whether an agent frame closes an open prompt.
pub open spec fn closes_turn(m: RelayModel, f: acp::FrameModel) -> bool {
    &&& f.stop_reason is Some
    &&& f.id matches Some(id)
    &&& m.turns.contains_key(id)
}

/// The open prompts after an agent frame: a stop reason closes the prompt with
/// its id.
pub open spec fn turns_after(m: RelayModel, f: acp::FrameModel) -> Map<acp::RpcKey, Seq<char>> {
    match f.id {
        Some(id) if f.stop_reason is Some => m.turns.remove(id),
        _ => m.turns,
    }
}

/// The session that a frame names, else the common lane.
pub open spec fn named_session(f: acp::FrameModel) -> Seq<char> {
    match f.session_id {
        Some(session) => session,
        None => common_lane(),
    }
}

/// The agent's open requests after an agent frame: one with a method and an id
/// is a request that the client owes an answer to.
pub open spec fn callbacks_after(m: RelayModel, f: acp::FrameModel, now: u64) -> Map<
    acp::RpcKey,
    (Seq<char>, u64),
> {
    match f.id {
        Some(id) if f.has_method => m.callbacks.insert(id, (named_session(f), now)),
        _ => m.callbacks,
    }
}

/// The lane of a session, empty where the session is new.
pub open spec fn lane_at(m: RelayModel, session: Seq<char>) -> queue::Lane {
    if m.lanes.contains_key(session) {
        m.lanes[session]
    } else {
        queue::empty_lane()
    }
}

/// A lane with one more frame, pressured from the soft bound on.
pub open spec fn filled(lane: queue::Lane, frame: Seq<u8>, now: u64) -> queue::Lane {
    let next = lane.pushed(frame, now);
    queue::Lane {
        pressured: lane.pressured || next.frames.len() >= SOFT_BOUND_FRAMES,
        ..next
    }
}

/// Whether a lane is over the hard bound: it is pressured, and too many bytes
/// wait on it.
pub open spec fn over_hard_bound(lane: queue::Lane) -> bool {
    lane.pressured && lane.bytes() > HARD_BOUND_BYTES
}

/// A lane over the hard bound loses the whole stream, never a part of it.
pub open spec fn kept(lane: queue::Lane) -> queue::Lane {
    if over_hard_bound(lane) {
        queue::Lane { frames: Seq::empty(), ..lane }
    } else {
        lane
    }
}

/// The samples that a frame gives rise to: one for a pressured lane each time
/// it grows, one for a lane that starts to flow, and one for a lane that is
/// torn, which tells what is lost.
pub open spec fn routing_samples(
    session: Seq<char>,
    lane: queue::Lane,
    frame: Seq<u8>,
    now: u64,
) -> Seq<protocol::TelemetryModel> {
    let next = filled(lane, frame, now);
    let flow = if next.pressured {
        seq![queue::sample_of(session, next, now, "pressured"@)]
    } else if lane.frames.len() == 0 {
        seq![queue::sample_of(session, next, now, "flowing"@)]
    } else {
        Seq::empty()
    };
    if over_hard_bound(next) {
        flow.push(queue::sample_of(session, next, now, "torn"@))
    } else {
        flow
    }
}

/// A [`Notice`] as mathematical values.
pub enum NoticeModel {
    SoftBound { session: Seq<char> },
    HardBound { session: Seq<char>, bytes: nat },
}

/// What is logged when a session crosses a bound.
pub enum Notice {
    /// The session has just become pressured.
    SoftBound { session: String },
    /// The session held more bytes than it may, and the lease is torn.
    HardBound { session: String, bytes: u128 },
}

impl View for Notice {
    type V = NoticeModel;

    open spec fn view(&self) -> NoticeModel {
        match self {
            Notice::SoftBound { session } => NoticeModel::SoftBound { session: session@ },
            Notice::HardBound { session, bytes } => NoticeModel::HardBound {
                session: session@,
                bytes: *bytes as nat,
            },
        }
    }
}

/// The models of several notices.
pub open spec fn notice_models(v: Seq<Notice>) -> Seq<NoticeModel> {
    Seq::new(v.len(), |i: int| v[i]@)
}

/// The notices that a frame gives rise to: one when its lane becomes
/// pressured, and one when its lane is torn.
pub open spec fn routing_notices(
    session: Seq<char>,
    lane: queue::Lane,
    frame: Seq<u8>,
    now: u64,
) -> Seq<NoticeModel> {
    let next = filled(lane, frame, now);
    let soft = if next.pressured && !lane.pressured {
        seq![NoticeModel::SoftBound { session }]
    } else {
        Seq::empty()
    };
    if over_hard_bound(next) {
        soft.push(NoticeModel::HardBound { session, bytes: next.bytes() })
    } else {
        soft
    }
}

/// The relay after some agent frames, with what it has to tell about them and
/// whether a prompt was closed.
pub struct Flow {
    pub relay: RelayModel,
    pub samples: Seq<protocol::TelemetryModel>,
    pub notices: Seq<NoticeModel>,
    pub closed: bool,
}

/// Routes one agent frame, given what its inspection found.
pub open spec fn routed(m: RelayModel, f: acp::FrameModel, frame: Seq<u8>, now: u64) -> Flow {
    let session = lane_key(m, f);
    let lane = lane_at(m, session);
    let next = filled(lane, frame, now);
    Flow {
        relay: RelayModel {
            sessions: if m.sessions.contains(session) {
                m.sessions
            } else {
                m.sessions.push(session)
            },
            lanes: m.lanes.insert(session, kept(next)),
            turns: turns_after(m, f),
            callbacks: callbacks_after(m, f, now),
            common_named: m.common_named || names_common(f),
            torn: m.torn || over_hard_bound(next),
            ..m
        },
        samples: routing_samples(session, lane, frame, now),
        notices: routing_notices(session, lane, frame, now),
        closed: closes_turn(m, f),
    }
}

/// Routes several agent frames in order.
pub open spec fn ingested(m: RelayModel, frames: Seq<Seq<u8>>, now: u64) -> Flow
    decreases frames.len(),
{
    if frames.len() == 0 {
        Flow { relay: m, samples: Seq::empty(), notices: Seq::empty(), closed: false }
    } else {
        let before = ingested(m, frames.drop_last(), now);
        let last = routed(before.relay, acp::inspection(frames.last()), frames.last(), now);
        Flow {
            relay: last.relay,
            samples: before.samples + last.samples,
            notices: before.notices + last.notices,
            closed: before.closed || last.closed,
        }
    }
}

/// What the relay has to tell about some agent frames.
pub struct Routed {
    /// The samples for the telemetry stream.
    pub samples: Vec<Telemetry>,
    /// What is to be logged.
    pub notices: Vec<Notice>,
    /// Whether a prompt was closed, so that a waiting handoff may go on.
    pub closed: bool,
}

/// The flow that a relay and its report stand for.
pub open spec fn flow_of(m: RelayModel, r: Routed) -> Flow {
    Flow {
        relay: m,
        samples: protocol::telemetry_models(r.samples@),
        notices: notice_models(r.notices@),
        closed: r.closed,
    }
}

impl RelayState {
    fn key_of(&self, info: &FrameInfo) -> (r: String)
        requires
            self.inv(),
        ensures
            r@ == lane_key(self@, info@),
    {
        if let Some(session) = &info.session_id {
            return session.clone();
        }
        if let Some(id) = &info.id {
            if let Some(session) = self.open_turns.get(id) {
                return session.clone();
            }
            if let Some(entry) = self.open_callbacks.get(id) {
                return entry.0.clone();
            }
        }
        "-".to_owned()
    }

    /// Routes one frame of the agent, given what its inspection found: tracks
    /// the ids it opens or closes, queues it on its lane, and enforces the
    /// bounds.
    pub fn route_frame(&mut self, frame: Vec<u8>, info: &FrameInfo, now: u64) -> (r: Routed)
        requires
            old(self).inv(),
        ensures
            final(self).inv(),
            flow_of(final(self)@, r) == routed(old(self)@, info@, frame@, now),
    {
        let ghost m = self@;
        let ghost bytes = frame@;
        let key: String = self.key_of(info);
        let closed: bool = self.track_agent_frame(info, now);
        let mut samples: Vec<Telemetry> = Vec::new();
        let mut notices: Vec<Notice> = Vec::new();
        if !self.queues.contains_key(&key) {
            self.queues.insert(key.clone(), SessionQueue::new());
        }
        let mut tear: bool = false;
        if let Some(q) = self.queues.get_mut(&key) {
            let was_empty: bool = q.frames.len() == 0;
            let was_pressured: bool = q.pressured;
            q.push(frame, now);
            if q.frames.len() >= SOFT_BOUND_FRAMES {
                q.pressured = true;
            }
            if q.pressured {
                if !was_pressured {
                    notices.push(Notice::SoftBound { session: key.clone() });
                }
                samples.push(sample(key.as_str(), q, now, "pressured"));
            } else if was_empty {
                samples.push(sample(key.as_str(), q, now, "flowing"));
            }
            if q.pressured && q.bytes > HARD_BOUND_BYTES as u128 {
                samples.push(sample(key.as_str(), q, now, "torn"));
                notices.push(Notice::HardBound { session: key.clone(), bytes: q.bytes });
                q.clear();
                tear = true;
            }
        }
        if tear {
            self.torn = true;
        }
        proof {
            let lane = lane_at(m, key@);
            assert(self@.lanes =~= m.lanes.insert(key@, kept(filled(lane, bytes, now))));
            assert(protocol::telemetry_models(samples@) =~= routing_samples(
                key@,
                lane,
                bytes,
                now,
            ));
            assert(notice_models(notices@) =~= routing_notices(key@, lane, bytes, now));
        }
        Routed { samples, notices, closed }
    }

    fn track_agent_frame(&mut self, info: &FrameInfo, now: u64) -> (r: bool)
        requires
            old(self).inv(),
        ensures
            final(self).inv(),
            final(self)@ == (RelayModel {
                turns: turns_after(old(self)@, info@),
                callbacks: callbacks_after(old(self)@, info@, now),
                common_named: old(self)@.common_named || names_common(info@),
                ..old(self)@
            }),
            final(self).queues == old(self).queues,
            r == closes_turn(old(self)@, info@),
    {
        let mut closed: bool = false;
        let ghost m = self@;
        self.common_named = self.common_named || naming_common(info);
        if let Some(id) = &info.id {
            if info.stop_reason.is_some() {
                closed = self.open_turns.remove(id).is_some();
                assert(self@.turns =~= turns_after(m, info@));
            }
            if info.has_method {
                let session: String = match &info.session_id {
                    Some(s) => s.clone(),
                    None => "-".to_owned(),
                };
                self.open_callbacks.insert(id.clone(), (session, now));
                assert(self@.callbacks =~= callbacks_after(m, info@, now));
            }
        }
        closed
    }
}

/// One read of the agent's output: the relay with what it has to tell, and the
/// partial frame that is left.
pub open spec fn agent_read(m: RelayModel, carried: Seq<u8>, chunk: Seq<u8>, now: u64) -> (
    Flow,
    Seq<u8>,
) {
    let cut = acp::framed(carried + chunk);
    (ingested(m, cut.frames, now), cut.partial)
}

/// One read from the client: the relay, whether a request of the agent was
/// answered, the frames for the agent, and the partial frame that is left.
pub open spec fn client_read(m: RelayModel, carried: Seq<u8>, chunk: Seq<u8>) -> (
    RelayModel,
    bool,
    Seq<Seq<u8>>,
    Seq<u8>,
) {
    let cut = acp::framed(carried + chunk);
    let after = all_admitted(m, cut.frames);
    (after.0, after.1, cut.frames, cut.partial)
}

impl RelayState {
    /// Takes in what was read of the agent's output: cuts it into frames and
    /// routes each. The partial frame after them stays in `buf`.
    pub fn ingest_agent_bytes(&mut self, buf: &mut Vec<u8>, chunk: &[u8], now: u64) -> (r: Routed)
        requires
            old(self).inv(),
        ensures
            final(self).inv(),
            (flow_of(final(self)@, r), final(buf)@) == agent_read(
                old(self)@,
                old(buf)@,
                chunk@,
                now,
            ),
            final(buf)@ == acp::framed(old(buf)@ + chunk@).partial,
            flow_of(final(self)@, r) == ingested(
                old(self)@,
                acp::framed(old(buf)@ + chunk@).frames,
                now,
            ),
    {
        let ghost m = self@;
        let ghost all = acp::framed(old(buf)@ + chunk@).frames;
        let frames: Vec<Vec<u8>> = take_frames(buf, chunk);
        let mut out = Routed { samples: Vec::new(), notices: Vec::new(), closed: false };
        proof {
            assert(all.take(0) =~= Seq::empty());
            assert(protocol::telemetry_models(out.samples@) =~= Seq::empty());
            assert(notice_models(out.notices@) =~= Seq::empty());
        }
        for frame in it: frames
            invariant
                it.seq() == frames@,
                acp::frame_bytes(frames@) == all,
                self.inv(),
                flow_of(self@, out) == ingested(m, all.take(it.index() as int), now),
        {
            let ghost k = it.index() as int;
            proof {
                assert(frame == frames@[k]);
                assert(frame@ == all[k]);
                assert(all.take(k + 1).drop_last() =~= all.take(k));
                assert(all.take(k + 1).last() == all[k]);
            }
            let info: FrameInfo = inspect(frame.as_slice());
            let mut one: Routed = self.route_frame(frame, &info, now);
            let ghost before = out;
            let ghost more = one;
            out.samples.append(&mut one.samples);
            out.notices.append(&mut one.notices);
            out.closed = out.closed || one.closed;
            proof {
                assert(protocol::telemetry_models(out.samples@) =~= protocol::telemetry_models(
                    before.samples@,
                ) + protocol::telemetry_models(more.samples@));
                assert(notice_models(out.notices@) =~= notice_models(before.notices@)
                    + notice_models(more.notices@));
            }
        }
        assert(all.take(all.len() as int) =~= all);
        out
    }
}

/// Whether a client frame answers an open request of the agent.
pub open spec fn answers_callback(m: RelayModel, f: acp::FrameModel) -> bool {
    &&& !f.has_method
    &&& f.id matches Some(id)
    &&& m.callbacks.contains_key(id)
}

/// The relay after one client frame, given what its inspection found: a prompt
/// opens a turn, and a response closes the agent's request with its id.
pub open spec fn admitted(m: RelayModel, f: acp::FrameModel) -> RelayModel {
    RelayModel {
        turns: match f.id {
            Some(id) if f.is_prompt_request => m.turns.insert(id, named_session(f)),
            _ => m.turns,
        },
        callbacks: match f.id {
            Some(id) if !f.has_method => m.callbacks.remove(id),
            _ => m.callbacks,
        },
        common_named: m.common_named || names_common(f),
        ..m
    }
}

/// The relay after several client frames, and whether one of them answered an
/// open request of the agent.
pub open spec fn all_admitted(m: RelayModel, frames: Seq<Seq<u8>>) -> (RelayModel, bool)
    decreases frames.len(),
{
    if frames.len() == 0 {
        (m, false)
    } else {
        let before = all_admitted(m, frames.drop_last());
        let f = acp::inspection(frames.last());
        (admitted(before.0, f), before.1 || answers_callback(before.0, f))
    }
}

impl RelayState {
    /// Tracks one frame of the client, given what its inspection found, and
    /// tells whether it answered an open request of the agent.
    pub fn admit_frame(&mut self, info: &FrameInfo) -> (r: bool)
        requires
            old(self).inv(),
        ensures
            final(self).inv(),
            final(self)@ == admitted(old(self)@, info@),
            r == answers_callback(old(self)@, info@),
    {
        let ghost m = self@;
        let mut answered: bool = false;
        self.common_named = self.common_named || naming_common(info);
        if let Some(id) = &info.id {
            if info.is_prompt_request {
                let session: String = match &info.session_id {
                    Some(s) => s.clone(),
                    None => "-".to_owned(),
                };
                self.open_turns.insert(id.clone(), session);
                assert(self@.turns =~= admitted(m, info@).turns);
            }
            if !info.has_method {
                answered = self.open_callbacks.remove(id).is_some();
                assert(self@.callbacks =~= admitted(m, info@).callbacks);
            }
        }
        answered
    }

    /// Takes in what was read from the client: cuts it into frames, tracks
    /// each, and hands them out for the agent, byte for byte. The partial
    /// frame after them stays in `buf`.
    pub fn ingest_client_bytes(&mut self, buf: &mut Vec<u8>, chunk: &[u8]) -> (r: (
        Vec<Vec<u8>>,
        bool,
    ))
        requires
            old(self).inv(),
        ensures
            final(self).inv(),
            (final(self)@, r.1, acp::frame_bytes(r.0@), final(buf)@) == client_read(
                old(self)@,
                old(buf)@,
                chunk@,
            ),
            final(buf)@ == acp::framed(old(buf)@ + chunk@).partial,
            acp::frame_bytes(r.0@) == acp::framed(old(buf)@ + chunk@).frames,
            (final(self)@, r.1) == all_admitted(
                old(self)@,
                acp::framed(old(buf)@ + chunk@).frames,
            ),
    {
        let ghost m = self@;
        let ghost all = acp::framed(old(buf)@ + chunk@).frames;
        let frames: Vec<Vec<u8>> = take_frames(buf, chunk);
        let mut answered: bool = false;
        let mut i: usize = 0;
        assert(all.take(0) =~= Seq::empty());
        while i < frames.len()
            invariant
                i <= frames@.len(),
                acp::frame_bytes(frames@) == all,
                self.inv(),
                (self@, answered) == all_admitted(m, all.take(i as int)),
            decreases frames@.len() - i,
        {
            proof {
                assert(all.len() == frames@.len());
                assert(all[i as int] == frames@[i as int]@);
                assert(all.take(i + 1).drop_last() =~= all.take(i as int));
                assert(all.take(i + 1).last() == all[i as int]);
            }
            let info: FrameInfo = inspect(frames[i].as_slice());
            let one: bool = self.admit_frame(&info);
            answered = answered || one;
            i = i + 1;
        }
        assert(all.take(i as int) =~= all);
        (frames, answered)
    }
}

/// How long a handoff waits for the end of the current turn, in milliseconds.
pub const STEAL_WAIT_MS: u64 = 30_000;

/// How long an unanswered request of the agent blocks a handoff, in
/// milliseconds.
pub const CALLBACK_STEAL_TTL_MS: u64 = 45_000;

/// Whether taking the lease over now could orphan an id: a prompt is open, or
/// a request of the agent awaits its answer.
pub open spec fn unsafe_to_steal(m: RelayModel) -> bool {
    m.turns.dom() != Set::<acp::RpcKey>::empty() || m.callbacks.dom()
        != Set::<acp::RpcKey>::empty()
}

/// The same, but for requests of the agent that came `ttl` or longer ago.
pub open spec fn unsafe_to_steal_within(m: RelayModel, now: u64, ttl: u64) -> bool {
    ||| m.turns.dom() != Set::<acp::RpcKey>::empty()
    ||| exists|id: acp::RpcKey| #[trigger]
        m.callbacks.contains_key(id) && queue::elapsed(m.callbacks[id].1, now) < ttl
}

/// What a handoff that waits for the end of a turn does next.
#[derive(Debug, Clone, Copy, PartialEq, Eq, Structural)]
pub enum Boundary {
    /// The lease can be taken over.
    Proceed,
    /// The wait is over and the agent is still busy.
    Refuse,
    /// Look again when an id is closed, or after so many milliseconds.
    Wait(u64),
}

/// What a handoff does at `now` that may wait until `deadline`.
pub open spec fn boundary_of(m: RelayModel, now: u64, deadline: u64) -> Boundary {
    if m.agent_dead || !unsafe_to_steal_within(m, now, CALLBACK_STEAL_TTL_MS) {
        Boundary::Proceed
    } else if deadline <= now {
        Boundary::Refuse
    } else {
        Boundary::Wait((deadline - now) as u64)
    }
}

/// Until when a handoff that begins at `now` waits.
pub fn steal_deadline(now: u64) -> (r: u64)
    requires
        now + STEAL_WAIT_MS <= u64::MAX,
    ensures
        r == now + STEAL_WAIT_MS,
{
    now + STEAL_WAIT_MS
}

impl RelayState {
    /// Whether taking the lease over now could orphan an id.
    pub fn steal_unsafe(&self) -> (r: bool)
        requires
            self.inv(),
        ensures
            r == unsafe_to_steal(self@),
    {
        proof {
            lemma_turns_empty(*self);
            lemma_callbacks_empty(*self);
        }
        !self.open_turns.is_empty() || !self.open_callbacks.is_empty()
    }

    /// Whether taking the lease over at `now` could orphan an id, where a
    /// request of the agent that came `ttl` milliseconds or longer ago no
    /// longer counts. An open prompt counts however old it is.
    pub fn steal_unsafe_excluding_expired(&self, now: u64, ttl: u64) -> (r: bool)
        requires
            self.inv(),
        ensures
            r == unsafe_to_steal_within(self@, now, ttl),
    {
        proof {
            lemma_turns_empty(*self);
        }
        if !self.open_turns.is_empty() {
            return true;
        }
        let mut i: usize = 0;
        while i < self.open_callbacks.len()
            invariant
                self.inv(),
                i <= self.open_callbacks.keys().len(),
                forall|j: int|
                    0 <= j < i ==> queue::elapsed(
                        self.open_callbacks.map()[#[trigger] self.open_callbacks.keys()[j]].1,
                        now,
                    ) >= ttl,
            decreases self.open_callbacks.keys().len() - i,
        {
            let entry: &(String, u64) = self.open_callbacks.value_at(i);
            let then: u64 = entry.1;
            let age: u64 = if now >= then {
                now - then
            } else {
                0
            };
            if age < ttl {
                proof {
                    let id = self.open_callbacks.keys()[i as int];
                    assert(self@.callbacks.contains_key(id));
                }
                return true;
            }
            i = i + 1;
        }
        proof {
            assert forall|id: acp::RpcKey| #[trigger]
                self@.callbacks.contains_key(id) implies queue::elapsed(
                self@.callbacks[id].1,
                now,
            ) >= ttl by {
                let j = self.open_callbacks.keys().index_of(id);
                assert(self.open_callbacks.keys()[j] == id);
            }
        }
        false
    }

    /// What a handoff does at `now` that may wait until `deadline`.
    pub fn boundary(&self, now: u64, deadline: u64) -> (r: Boundary)
        requires
            self.inv(),
        ensures
            r == boundary_of(self@, now, deadline),
    {
        if self.agent_dead || !self.steal_unsafe_excluding_expired(now, CALLBACK_STEAL_TTL_MS) {
            Boundary::Proceed
        } else if deadline <= now {
            Boundary::Refuse
        } else {
            Boundary::Wait(deadline - now)
        }
    }
}

proof fn lemma_turns_empty(st: RelayState)
    requires
        st.inv(),
    ensures
        (st.open_turns.keys().len() == 0) == (st@.turns.dom() == Set::<acp::RpcKey>::empty()),
{
    if st.open_turns.keys().len() == 0 {
        assert(st@.turns.dom() =~= Set::empty());
    } else {
        assert(st@.turns.dom().contains(st.open_turns.keys()[0]));
    }
}

proof fn lemma_callbacks_empty(st: RelayState)
    requires
        st.inv(),
    ensures
        (st.open_callbacks.keys().len() == 0) == (st@.callbacks.dom()
            == Set::<acp::RpcKey>::empty()),
{
    if st.open_callbacks.keys().len() == 0 {
        assert(st@.callbacks.dom() =~= Set::empty());
    } else {
        assert(st@.callbacks.dom().contains(st.open_callbacks.keys()[0]));
    }
}

/// The sample that tells that the agent is gone.
pub open spec fn death_sample() -> protocol::TelemetryModel {
    protocol::TelemetryModel {
        session: common_lane(),
        queue_depth: 0,
        oldest_unread_ms: 0,
        lifecycle: "agent_dead"@,
    }
}

/// The relay of an agent that is gone.
pub open spec fn bereft(m: RelayModel) -> RelayModel {
    RelayModel { agent_dead: true, ..m }
}

impl RelayState {
    /// Records that the agent is gone, and gives the sample that tells so.
    pub fn mark_dead(&mut self) -> (r: Telemetry)
        requires
            old(self).inv(),
        ensures
            final(self).inv(),
            final(self)@ == bereft(old(self)@),
            r@ == death_sample(),
    {
        self.agent_dead = true;
        Telemetry {
            session: "-".to_owned(),
            queue_depth: 0,
            oldest_unread_ms: 0,
            lifecycle: "agent_dead".to_owned(),
        }
    }
}

/// The relay for a new client: a tear concerns the lease that it tore, and no
/// other.
pub open spec fn renewed(m: RelayModel) -> RelayModel {
    RelayModel { torn: false, ..m }
}

impl RelayState {
    /// Starts anew for a client that is granted the lease.
    pub fn renew(&mut self)
        requires
            old(self).inv(),
        ensures
            final(self).inv(),
            final(self)@ == (RelayModel { torn: false, ..old(self)@ }),
    {
        self.torn = false;
    }
}

/// What became of a sample that was offered to a subscriber.
#[derive(Debug, Clone, Copy, PartialEq, Eq, Structural)]
pub enum SendOutcome {
    /// The subscriber has it.
    Sent,
    /// The subscriber is slow and misses it.
    Full,
    /// The subscriber is gone.
    Closed,
}

/// Whether a subscriber is kept: a slow one is, one that is gone is not.
pub fn keeps_subscriber(outcome: SendOutcome) -> (r: bool)
    ensures
        r == (outcome != SendOutcome::Closed),
{
    match outcome {
        SendOutcome::Sent => true,
        SendOutcome::Full => true,
        SendOutcome::Closed => false,
    }
}

/// The log line of a notice.
pub open spec fn notice_line(tool: Seq<char>, n: NoticeModel, agent_id: Seq<char>) -> Seq<char> {
    let head = names::program(tool) + ": agent '"@ + agent_id + "' session '"@;
    match n {
        NoticeModel::SoftBound { session } => head + session + "' hit soft bound ("@
            + text::decimal_text(SOFT_BOUND_FRAMES as nat)
            + " frames) — pressured, surfacing on telemetry"@,
        NoticeModel::HardBound { session, bytes } => head + session + "' exceeded hard bound ("@
            + text::decimal_text(bytes) + " bytes > "@ + text::decimal_text(
            HARD_BOUND_BYTES as nat,
        ) + ") — tearing lease (never-silent)"@,
    }
}

impl Notice {
    /// The log line of the notice.
    pub fn line(&self, tool: &str, agent_id: &str) -> (r: String)
        ensures
            r@ == notice_line(tool@, self@, agent_id@),
    {
        let mut out: String = program_name(tool);
        out.append(": agent '");
        out.append(agent_id);
        out.append("' session '");
        match self {
            Notice::SoftBound { session } => {
                out.append(session.as_str());
                out.append("' hit soft bound (");
                out.append(decimal(SOFT_BOUND_FRAMES as u64).as_str());
                out.append(" frames) — pressured, surfacing on telemetry");
            },
            Notice::HardBound { session, bytes } => {
                out.append(session.as_str());
                out.append("' exceeded hard bound (");
                out.append(wide_decimal(*bytes).as_str());
                out.append(" bytes > ");
                out.append(decimal(HARD_BOUND_BYTES as u64).as_str());
                out.append(") — tearing lease (never-silent)");
            },
        }
        out
    }
}

} // verus!
