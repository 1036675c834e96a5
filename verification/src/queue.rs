//! The forward queue of one session, with its bounds.

use crate::protocol;
use crate::protocol::Telemetry;
use std::collections::VecDeque;
use vstd::prelude::*;
use vstd::string::*;

verus! {

/// How many frames may wait for the client before a session counts as
/// pressured and is no longer forwarded.
pub const SOFT_BOUND_FRAMES: usize = 1024;

/// How many bytes of a pressured session may wait before the lease is torn.
pub const HARD_BOUND_BYTES: usize = 64 * 1024 * 1024;

/// A [`SessionQueue`] as mathematical values: the frames that wait, oldest
/// first, each with the time it came, and whether the session is pressured.
pub struct Lane {
    pub frames: Seq<(Seq<u8>, u64)>,
    pub pressured: bool,
}

/// How many bytes some frames take up.
pub open spec fn total_bytes(frames: Seq<(Seq<u8>, u64)>) -> nat
    decreases frames.len(),
{
    if frames.len() == 0 {
        0
    } else {
        total_bytes(frames.drop_last()) + frames.last().0.len()
    }
}

impl Lane {
    /// How many bytes wait.
    pub open spec fn bytes(self) -> nat {
        total_bytes(self.frames)
    }

    /// The lane with one more frame.
    pub open spec fn pushed(self, frame: Seq<u8>, now: u64) -> Lane {
        Lane { frames: self.frames.push((frame, now)), ..self }
    }

    /// The lane without its `k` oldest frames.
    pub open spec fn skip(self, k: int) -> Lane {
        Lane { frames: self.frames.skip(k), ..self }
    }
}

/// A lane on which nothing has come yet.
pub open spec fn empty_lane() -> Lane {
    Lane { frames: Seq::empty(), pressured: false }
}

/// How long ago `then` was, in milliseconds; 0 for a time still to come.
pub open spec fn elapsed(then: u64, now: u64) -> nat {
    if now >= then {
        (now - then) as nat
    } else {
        0
    }
}

/// How long the oldest frame of a lane has waited; 0 if none waits.
pub open spec fn oldest_age(lane: Lane, now: u64) -> nat {
    if lane.frames.len() == 0 {
        0
    } else {
        elapsed(lane.frames[0].1, now)
    }
}

/// The sample that describes a lane.
pub open spec fn sample_of(
    session: Seq<char>,
    lane: Lane,
    now: u64,
    lifecycle: Seq<char>,
) -> protocol::TelemetryModel {
    protocol::TelemetryModel {
        session,
        queue_depth: lane.frames.len(),
        oldest_unread_ms: oldest_age(lane, now),
        lifecycle,
    }
}

/// The forward queue of one session.
pub struct SessionQueue {
    /// The frames that wait, oldest first, each with the time it came (in
    /// milliseconds).
    pub frames: VecDeque<(Vec<u8>, u64)>,
    /// How many bytes they take up. (Wide enough for any number of frames of
    /// any length.)
    pub bytes: u128,
    /// Whether the soft bound was reached, so that the session is not forwarded.
    pub pressured: bool,
}

impl View for SessionQueue {
    type V = Lane;

    open spec fn view(&self) -> Lane {
        Lane {
            frames: Seq::new(
                self.frames@.len(),
                |i: int| (self.frames@[i].0@, self.frames@[i].1),
            ),
            pressured: self.pressured,
        }
    }
}

proof fn lemma_total_front(frames: Seq<(Seq<u8>, u64)>)
    requires
        frames.len() > 0,
    ensures
        total_bytes(frames) == frames[0].0.len() + total_bytes(frames.skip(1)),
    decreases frames.len(),
{
    if frames.len() == 1 {
        assert(frames.skip(1) =~= Seq::empty());
        assert(frames.drop_last() =~= Seq::empty());
    } else {
        lemma_total_front(frames.drop_last());
        assert(frames.drop_last().skip(1) =~= frames.skip(1).drop_last());
    }
}

/// Frames that fit into memory one by one take up a bounded number of bytes.
proof fn lemma_total_bound(frames: Seq<(Seq<u8>, u64)>)
    requires
        forall|i: int| 0 <= i < frames.len() ==> (#[trigger] frames[i]).0.len() <= usize::MAX,
    ensures
        total_bytes(frames) <= frames.len() * usize::MAX,
    decreases frames.len(),
{
    if frames.len() > 0 {
        let before = frames.drop_last();
        assert forall|i: int| 0 <= i < before.len() implies (#[trigger] before[i]).0.len()
            <= usize::MAX by {
            assert(before[i] == frames[i]);
        }
        lemma_total_bound(before);
        assert(frames[frames.len() - 1].0.len() <= usize::MAX);
        assert((before.len() + 1) * usize::MAX == before.len() * usize::MAX + usize::MAX)
            by (nonlinear_arith);
    }
}

/// A lane without its oldest frames takes up no more bytes.
pub proof fn lemma_total_skip(frames: Seq<(Seq<u8>, u64)>, k: int)
    requires
        0 <= k <= frames.len(),
    ensures
        total_bytes(frames.skip(k)) <= total_bytes(frames),
    decreases k,
{
    if k == 0 {
        assert(frames.skip(0) =~= frames);
    } else {
        lemma_total_front(frames);
        lemma_total_skip(frames.skip(1), k - 1);
        assert(frames.skip(1).skip(k - 1) =~= frames.skip(k));
    }
}

impl SessionQueue {
    /// The byte count is that of the frames.
    pub open spec fn inv(self) -> bool {
        self.bytes == self@.bytes()
    }

    /// An empty queue.
    pub fn new() -> (r: Self)
        ensures
            r.inv(),
            r@ == empty_lane(),
    {
        let r = SessionQueue { frames: VecDeque::new(), bytes: 0, pressured: false };
        assert(r@.frames =~= Seq::empty());
        r
    }

    /// Appends a frame that came at `now`.
    pub fn push(&mut self, frame: Vec<u8>, now: u64)
        requires
            old(self).inv(),
        ensures
            final(self).inv(),
            final(self)@ == old(self)@.pushed(frame@, now),
    {
        let ghost before = self@;
        let n: usize = frame.len();
        let ghost f = frame@;
        self.frames.push_back((frame, now));
        let count: usize = self.frames.len();
        proof {
            assert(self@.frames =~= before.frames.push((f, now)));
            assert(self@.frames.drop_last() =~= before.frames);
            assert forall|i: int| 0 <= i < self@.frames.len() implies (
            #[trigger] self@.frames[i]).0.len() <= usize::MAX by {
                let len: usize = self.frames@[i].0.len();
                assert(len == self@.frames[i].0.len());
            }
            lemma_total_bound(self@.frames);
            assert(count * usize::MAX <= u128::MAX) by (nonlinear_arith)
                requires
                    0 <= count <= usize::MAX,
                    usize::MAX <= u64::MAX,
            ;
        }
        self.bytes = self.bytes + n as u128;
    }

    /// Takes the oldest frame out.
    pub fn pop(&mut self) -> (r: Option<Vec<u8>>)
        requires
            old(self).inv(),
        ensures
            final(self).inv(),
            match r {
                Some(f) => {
                    &&& old(self)@.frames.len() > 0
                    &&& f@ == old(self)@.frames[0].0
                    &&& final(self)@ == old(self)@.skip(1)
                },
                None => old(self)@.frames.len() == 0 && final(self)@ == old(self)@,
            },
    {
        let ghost before = self@;
        match self.frames.pop_front() {
            Some((f, _t)) => {
                proof {
                    lemma_total_front(before.frames);
                    assert(self@.frames =~= before.frames.skip(1));
                    assert(f@ == before.frames[0].0);
                }
                self.bytes = self.bytes - f.len() as u128;
                Some(f)
            },
            None => None,
        }
    }

    /// Drops every frame.
    pub fn clear(&mut self)
        ensures
            final(self).inv(),
            final(self)@ == (Lane { frames: Seq::empty(), ..old(self)@ }),
    {
        self.frames.clear();
        self.bytes = 0;
        assert(self@.frames =~= Seq::empty());
    }

    /// How long the oldest frame has waited, in milliseconds; 0 if none waits.
    pub fn oldest_age_ms(&self, now: u64) -> (r: u64)
        ensures
            r == oldest_age(self@, now),
    {
        if self.frames.len() == 0 {
            0
        } else {
            let then: u64 = self.frames[0].1;
            if now >= then {
                now - then
            } else {
                0
            }
        }
    }
}

/// The telemetry sample that describes a queue.
pub fn sample(session: &str, q: &SessionQueue, now: u64, lifecycle: &str) -> (r: Telemetry)
    ensures
        r@ == sample_of(session@, q@, now, lifecycle@),
{
    Telemetry {
        session: session.to_owned(),
        queue_depth: q.frames.len(),
        oldest_unread_ms: q.oldest_age_ms(now),
        lifecycle: lifecycle.to_owned(),
    }
}

} // verus!
