//! Fair forwarding: how the waiting frames of all sessions are merged into one
//! stream towards the client.

use crate::acp;
use crate::queue;
use crate::relay;
use crate::relay::RelayState;
use crate::text;
use crate::text::same_text;
use std::collections::VecDeque;
use vstd::prelude::*;

verus! {

/// One lap of the round robin, up to position `p`: every position that has
/// more than `l` frames to give sends its frame number `l`.
pub open spec fn lap(avail: Seq<nat>, l: int, p: int) -> Seq<(int, int)>
    decreases p,
{
    if p <= 0 {
        Seq::empty()
    } else if avail[p - 1] > l {
        lap(avail, l, p - 1).push((l, p - 1))
    } else {
        lap(avail, l, p - 1)
    }
}

/// The laps before number `l`, and lap `l` up to position `p`.
pub open spec fn laps(avail: Seq<nat>, l: int, p: int) -> Seq<(int, int)>
    decreases l,
{
    if l <= 0 {
        lap(avail, 0, p)
    } else {
        laps(avail, l - 1, avail.len() as int) + lap(avail, l, p)
    }
}

/// The largest of some numbers.
pub open spec fn deepest(avail: Seq<nat>) -> nat
    decreases avail.len(),
{
    if avail.len() == 0 {
        0
    } else if avail.last() > deepest(avail.drop_last()) {
        avail.last()
    } else {
        deepest(avail.drop_last())
    }
}

/// The whole round robin: lap after lap until every position has given all it
/// has. An entry `(l, p)` stands for frame number `l` of position `p`.
pub open spec fn schedule(avail: Seq<nat>) -> Seq<(int, int)> {
    laps(avail, deepest(avail) as int, 0)
}

/// How many entries of a schedule belong to position `p`.
pub open spec fn taken(s: Seq<(int, int)>, p: int) -> nat
    decreases s.len(),
{
    if s.len() == 0 {
        0
    } else {
        taken(s.drop_last(), p) + if s.last().1 == p {
            1nat
        } else {
            0nat
        }
    }
}

pub proof fn lemma_deepest(avail: Seq<nat>, q: int)
    requires
        0 <= q < avail.len(),
    ensures
        avail[q] <= deepest(avail),
    decreases avail.len(),
{
    if q < avail.len() - 1 {
        lemma_deepest(avail.drop_last(), q);
    }
}

proof fn lemma_deepest_witness(avail: Seq<nat>, bound: nat)
    requires
        forall|q: int| 0 <= q < avail.len() ==> #[trigger] avail[q] <= bound,
    ensures
        deepest(avail) <= bound,
    decreases avail.len(),
{
    if avail.len() > 0 {
        assert forall|q: int| 0 <= q < avail.drop_last().len() implies #[trigger] avail.drop_last()[q]
            <= bound by {
            assert(avail.drop_last()[q] == avail[q]);
        }
        lemma_deepest_witness(avail.drop_last(), bound);
        assert(avail[avail.len() - 1] <= bound);
    }
}

proof fn lemma_lap_empty(avail: Seq<nat>, l: int, p: int)
    requires
        p <= avail.len(),
        l >= deepest(avail),
    ensures
        lap(avail, l, p) == Seq::<(int, int)>::empty(),
    decreases p,
{
    if p > 0 {
        lemma_deepest(avail, p - 1);
        lemma_lap_empty(avail, l, p - 1);
    }
}

/// Nothing is left to send after the deepest lap.
proof fn lemma_laps_exhausted(avail: Seq<nat>, l: int, p: int)
    requires
        0 <= p <= avail.len(),
        l >= deepest(avail),
    ensures
        laps(avail, l, p) == schedule(avail),
    decreases l,
{
    lemma_lap_empty(avail, l, p);
    lemma_lap_empty(avail, l, 0);
    if l > deepest(avail) {
        lemma_laps_exhausted(avail, l - 1, avail.len() as int);
        assert(schedule(avail) + Seq::empty() =~= schedule(avail));
    }
}

proof fn lemma_lap_prefix(avail: Seq<nat>, l: int, p: int, q: int)
    requires
        0 <= p <= q <= avail.len(),
    ensures
        lap(avail, l, p).is_prefix_of(lap(avail, l, q)),
    decreases q,
{
    if p < q {
        lemma_lap_prefix(avail, l, p, q - 1);
    }
}

proof fn lemma_laps_prefix(avail: Seq<nat>, l: int, p: int, m: int, q: int)
    requires
        0 <= l,
        0 <= p <= avail.len(),
        0 <= q <= avail.len(),
        l < m || (l == m && p <= q),
    ensures
        laps(avail, l, p).is_prefix_of(laps(avail, m, q)),
    decreases m,
{
    if l == m {
        lemma_lap_prefix(avail, l, p, q);
        assert(laps(avail, l, p) =~= laps(avail, m, q).take(laps(avail, l, p).len() as int));
    } else {
        lemma_laps_prefix(avail, l, p, m - 1, avail.len() as int);
        let a = laps(avail, l, p);
        let b = laps(avail, m - 1, avail.len() as int);
        assert(a =~= (b + lap(avail, m, q)).take(a.len() as int));
    }
}

/// What was sent up to some point of some lap is the beginning of the schedule.
pub proof fn lemma_laps_of_schedule(avail: Seq<nat>, l: int, p: int)
    requires
        0 <= l,
        0 <= p <= avail.len(),
    ensures
        laps(avail, l, p).is_prefix_of(schedule(avail)),
{
    if l < deepest(avail) {
        lemma_laps_prefix(avail, l, p, deepest(avail) as int, 0);
    } else {
        lemma_laps_exhausted(avail, l, p);
    }
}

proof fn lemma_taken_sum(a: Seq<(int, int)>, b: Seq<(int, int)>, q: int)
    ensures
        taken(a + b, q) == taken(a, q) + taken(b, q),
    decreases b.len(),
{
    if b.len() == 0 {
        assert(a + b =~= a);
    } else {
        assert((a + b).drop_last() =~= a + b.drop_last());
        lemma_taken_sum(a, b.drop_last(), q);
    }
}

pub proof fn lemma_taken_lap(avail: Seq<nat>, l: int, p: int, q: int)
    requires
        0 <= p <= avail.len(),
    ensures
        taken(lap(avail, l, p), q) == if 0 <= q < p && avail[q] > l {
            1nat
        } else {
            0nat
        },
    decreases p,
{
    if p > 0 {
        lemma_taken_lap(avail, l, p - 1, q);
        assert(lap(avail, l, p - 1).push((l, p - 1)).drop_last() =~= lap(avail, l, p - 1));
    }
}

/// The smaller of two numbers.
pub open spec fn least(a: int, b: int) -> int {
    if a <= b {
        a
    } else {
        b
    }
}

/// Up to some point of lap `l`, every position has given one frame per lap it
/// was visited in, as far as it had any.
pub proof fn lemma_taken_laps(avail: Seq<nat>, l: int, p: int, q: int)
    requires
        0 <= l,
        0 <= p <= avail.len(),
        0 <= q < avail.len(),
    ensures
        taken(laps(avail, l, p), q) == if q < p {
            least(avail[q] as int, l + 1)
        } else {
            least(avail[q] as int, l)
        },
    decreases l,
{
    lemma_taken_lap(avail, l, p, q);
    if l > 0 {
        lemma_taken_laps(avail, l - 1, avail.len() as int, q);
        lemma_taken_sum(laps(avail, l - 1, avail.len() as int), lap(avail, l, p), q);
    }
}

/// How many frames a session may send: all that wait, unless it is pressured
/// or unknown.
pub open spec fn eligible(lanes: Map<Seq<char>, queue::Lane>, session: Seq<char>) -> nat {
    if lanes.contains_key(session) && !lanes[session].pressured {
        lanes[session].frames.len()
    } else {
        0
    }
}

/// How many frames each session may send, in the order of service.
pub open spec fn available(lanes: Map<Seq<char>, queue::Lane>, order: Seq<Seq<char>>) -> Seq<nat> {
    Seq::new(order.len(), |p: int| eligible(lanes, order[p]))
}

/// The order of service with the sessions that are new to it at its end.
pub open spec fn enrolled(order: Seq<Seq<char>>, sessions: Seq<Seq<char>>) -> Seq<Seq<char>>
    decreases sessions.len(),
{
    if sessions.len() == 0 {
        order
    } else {
        let before = enrolled(order, sessions.drop_last());
        if before.contains(sessions.last()) {
            before
        } else {
            before.push(sessions.last())
        }
    }
}

/// A sequence turned by `k` places.
pub open spec fn rotated<A>(s: Seq<A>, k: int) -> Seq<A> {
    s.skip(k) + s.take(k)
}

/// The frames that a schedule sends.
pub open spec fn sent(
    lanes: Map<Seq<char>, queue::Lane>,
    order: Seq<Seq<char>>,
    s: Seq<(int, int)>,
) -> Seq<Seq<u8>> {
    Seq::new(s.len(), |i: int| lanes[order[s[i].1]].frames[s[i].0].0)
}

/// The lanes once a schedule was sent: every session has lost as many of its
/// oldest frames as the schedule took from it.
pub open spec fn remaining(
    lanes: Map<Seq<char>, queue::Lane>,
    order: Seq<Seq<char>>,
    s: Seq<(int, int)>,
) -> Map<Seq<char>, queue::Lane> {
    Map::new(
        |k: Seq<char>| lanes.contains_key(k),
        |k: Seq<char>| lanes[k].skip(taken(s, order.index_of(k)) as int),
    )
}

/// The batch that is sent next: the beginning of the schedule, `max` long
/// where there is as much to send.
pub open spec fn batch(m: relay::RelayModel, max: nat) -> Seq<(int, int)> {
    let s = schedule(available(m.lanes, enrolled(m.order, m.sessions)));
    s.take(least(max as int, s.len() as int))
}

/// The frames of the next batch.
pub open spec fn batch_frames(m: relay::RelayModel, max: nat) -> Seq<Seq<u8>> {
    sent(m.lanes, enrolled(m.order, m.sessions), batch(m, max))
}

/// The relay once the next batch is sent. After a full batch, service goes on
/// behind the session that sent last; after one that sent all there was, where
/// it began.
pub open spec fn drained(m: relay::RelayModel, max: nat) -> relay::RelayModel {
    let order = enrolled(m.order, m.sessions);
    let s = batch(m, max);
    relay::RelayModel {
        lanes: remaining(m.lanes, order, s),
        order: if s.len() > 0 && s.len() == max {
            rotated(order, s.last().1 + 1)
        } else {
            order
        },
        ..m
    }
}

fn serves(order: &VecDeque<String>, session: &str) -> (r: bool)
    ensures
        r == text::texts(order@).contains(session@),
{
    let mut i: usize = 0;
    while i < order.len()
        invariant
            i <= order@.len(),
            forall|j: int| 0 <= j < i ==> text::texts(order@)[j] != session@,
        decreases order@.len() - i,
    {
        if same_text(order[i].as_str(), session) {
            assert(text::texts(order@)[i as int] == session@);
            return true;
        }
        i = i + 1;
    }
    false
}

/// Puts the sessions that are not served yet at the end of the order.
fn enroll(st: &mut RelayState)
    requires
        old(st).inv(),
    ensures
        final(st).inv(),
        final(st)@ == (relay::RelayModel {
            order: enrolled(old(st)@.order, old(st)@.sessions),
            ..old(st)@
        }),
        forall|k: Seq<char>| #[trigger]
            old(st)@.lanes.contains_key(k) ==> final(st)@.order.contains(k),
{
    let ghost keys = st.queues.keys();
    let mut i: usize = 0;
    assert(keys.take(0) =~= Seq::empty());
    while i < st.queues.len()
        invariant
            i <= keys.len(),
            keys == old(st)@.sessions,
            st.inv(),
            st@ == (relay::RelayModel {
                order: enrolled(old(st)@.order, keys.take(i as int)),
                ..old(st)@
            }),
            forall|j: int| 0 <= j < i ==> st@.order.contains(#[trigger] keys[j]),
        decreases keys.len() - i,
    {
        let ghost before = st@.order;
        let key: String = st.queues.key_at(i).clone();
        proof {
            assert(keys.take(i + 1).drop_last() =~= keys.take(i as int));
            assert(keys.take(i + 1).last() == key@);
        }
        if !serves(&st.drain_order, key.as_str()) {
            st.drain_order.push_back(key);
            proof {
                assert(st@.order =~= before.push(key@));
                assert(st@.order[before.len() as int] == key@);
                assert forall|j: int| 0 <= j < i implies st@.order.contains(#[trigger] keys[j]) by {
                    let x = before.index_of(keys[j]);
                    assert(before.contains(keys[j]));
                    assert(st@.order[x] == keys[j]);
                }
            }
        }
        i = i + 1;
    }
    proof {
        assert(keys.take(i as int) =~= keys);
        assert forall|k: Seq<char>| old(st)@.lanes.contains_key(k) implies st@.order.contains(k) by {
            let j = keys.index_of(k);
            assert(keys.contains(k));
            assert(keys[j] == k);
        }
    }
}

/// Serves the session at the front of the order: sends its oldest frame, if it
/// may send one, and puts it at the end.
fn visit(st: &mut RelayState) -> (r: Option<Vec<u8>>)
    requires
        old(st).inv(),
        old(st)@.order.len() > 0,
    ensures
        final(st).inv(),
        match r {
            Some(f) => {
                let session = old(st)@.order[0];
                &&& eligible(old(st)@.lanes, session) > 0
                &&& f@ == old(st)@.lanes[session].frames[0].0
                &&& final(st)@ == (relay::RelayModel {
                    order: rotated(old(st)@.order, 1),
                    lanes: old(st)@.lanes.insert(session, old(st)@.lanes[session].skip(1)),
                    ..old(st)@
                })
            },
            None => {
                &&& eligible(old(st)@.lanes, old(st)@.order[0]) == 0
                &&& final(st)@ == (relay::RelayModel {
                    order: rotated(old(st)@.order, 1),
                    ..old(st)@
                })
            },
        },
{
    let ghost start = *st;
    let mut out: Option<Vec<u8>> = None;
    if let Some(session) = st.drain_order.pop_front() {
        proof {
            assert(session@ == start@.order[0]);
        }
        if let Some(q) = st.queues.get_mut(&session) {
            if !q.pressured {
                out = q.pop();
            }
        }
        let ghost key = session@;
        st.drain_order.push_back(session);
        proof {
            assert(st@.order =~= rotated(start@.order, 1));
            assert(st@.lanes =~= match out {
                Some(_) => start@.lanes.insert(key, start@.lanes[key].skip(1)),
                None => start@.lanes,
            });
            if start@.lanes.contains_key(key) && start@.lanes[key].frames.len() > 0 {
                queue::lemma_total_skip(start@.lanes[key].frames, 1);
            }
            lemma_rotated_no_duplicates(start@.order, 1);
        }
    }
    out
}

/// Turning a sequence brings no duplicates in.
pub proof fn lemma_rotated_no_duplicates<A>(s: Seq<A>, k: int)
    requires
        s.no_duplicates(),
        0 <= k <= s.len(),
    ensures
        rotated(s, k).no_duplicates(),
{
}

/// Nothing sent, nothing changed.
proof fn lemma_nothing_sent(lanes: Map<Seq<char>, queue::Lane>, order: Seq<Seq<char>>)
    ensures
        remaining(lanes, order, Seq::empty()) == lanes,
        sent(lanes, order, Seq::empty()) == Seq::<Seq<u8>>::empty(),
{
    assert forall|k: Seq<char>| lanes.contains_key(k) implies #[trigger] lanes[k].skip(0)
        == lanes[k] by {
        assert(lanes[k].frames.skip(0) =~= lanes[k].frames);
    }
    assert(remaining(lanes, order, Seq::empty()) =~= lanes);
    assert(sent(lanes, order, Seq::empty()) =~= Seq::<Seq<u8>>::empty());
}

/// What one visit does to the schedule, the lanes and the frames sent.
proof fn lemma_visit(lanes: Map<Seq<char>, queue::Lane>, order: Seq<Seq<char>>, l: int, p: int)
    requires
        order.no_duplicates(),
        forall|k: Seq<char>| #[trigger] lanes.contains_key(k) ==> order.contains(k),
        0 <= l,
        0 <= p < order.len(),
    ensures
        ({
            let avail = available(lanes, order);
            let done = laps(avail, l, p);
            let next = laps(avail, l, p + 1);
            let now = remaining(lanes, order, done);
            let session = order[p];
            if avail[p] > l {
                &&& eligible(now, session) > 0
                &&& next == done.push((l, p))
                &&& remaining(lanes, order, next) == now.insert(session, now[session].skip(1))
                &&& sent(lanes, order, next) == sent(lanes, order, done).push(
                    now[session].frames[0].0,
                )
            } else {
                &&& eligible(now, session) == 0
                &&& next == done
            }
        }),
{
    let avail = available(lanes, order);
    let done = laps(avail, l, p);
    let next = laps(avail, l, p + 1);
    let now = remaining(lanes, order, done);
    let session = order[p];
    assert(order.index_of(session) == p);
    lemma_taken_laps(avail, l, p, p);
    if avail[p] > l {
        assert(next =~= done.push((l, p)));
        assert(next.drop_last() =~= done);
        assert(taken(done, p) == l);
        let after = now.insert(session, now[session].skip(1));
        assert forall|k: Seq<char>| lanes.contains_key(k) implies #[trigger] after[k]
            == lanes[k].skip(taken(next, order.index_of(k)) as int) by {
            if k == session {
                assert(lanes[k].frames.skip(l).skip(1) =~= lanes[k].frames.skip(l + 1));
            } else {
                assert(order.contains(k));
                assert(order[order.index_of(k)] == k);
            }
        }
        assert(remaining(lanes, order, next) =~= after);
        assert(now[session].frames[0] == lanes[session].frames[l]);
        assert(sent(lanes, order, next) =~= sent(lanes, order, done).push(
            now[session].frames[0].0,
        ));
    } else {
        assert(next =~= done);
        if lanes.contains_key(session) && !lanes[session].pressured {
            assert(taken(done, p) == lanes[session].frames.len());
        }
    }
}

proof fn lemma_rotate_one<A>(s: Seq<A>, p: int)
    requires
        0 <= p < s.len(),
    ensures
        rotated(s, p).len() == s.len(),
        rotated(s, p)[0] == s[p],
        rotated(rotated(s, p), 1) == rotated(s, p + 1),
{
    assert(rotated(rotated(s, p), 1) =~= rotated(s, p + 1));
}

proof fn lemma_rotate_whole<A>(s: Seq<A>)
    ensures
        rotated(s, 0) == s,
        rotated(s, s.len() as int) == s,
{
    assert(rotated(s, 0) =~= s);
    assert(rotated(s, s.len() as int) =~= s);
}

/// Takes up to `max` frames out of the queues, one session after the other,
/// and leaves pressured sessions alone.
pub fn drain_round_robin(st: &mut RelayState, max: usize) -> (r: Vec<Vec<u8>>)
    requires
        old(st).inv(),
    ensures
        final(st).inv(),
        acp::frame_bytes(r@) == batch_frames(old(st)@, max as nat),
        final(st)@ == drained(old(st)@, max as nat),
{
    let ghost m = st@;
    let ghost lanes = m.lanes;
    let ghost order = enrolled(m.order, m.sessions);
    let ghost avail = available(lanes, order);
    enroll(st);
    let mut out: Vec<Vec<u8>> = Vec::new();
    let n: usize = st.drain_order.len();
    let ghost mut l: int = 0;
    proof {
        lemma_nothing_sent(lanes, order);
        lemma_rotate_whole(order);
        assert(acp::frame_bytes(out@) =~= Seq::empty());
    }
    if n == 0 {
        assert(batch(m, max as nat) =~= Seq::empty());
        return out;
    }
    loop
        invariant
            m == old(st)@,
            lanes == m.lanes,
            order == enrolled(m.order, m.sessions),
            avail == available(lanes, order),
            order.no_duplicates(),
            forall|k: Seq<char>| #[trigger] lanes.contains_key(k) ==> order.contains(k),
            n == order.len(),
            n > 0,
            l >= 0,
            st.inv(),
            st@ == (relay::RelayModel {
                order: rotated(order, 0),
                lanes: remaining(lanes, order, laps(avail, l, 0)),
                ..m
            }),
            acp::frame_bytes(out@) == sent(lanes, order, laps(avail, l, 0)),
            out@.len() <= max,
            out@.len() == max && max > 0 ==> laps(avail, l, 0).last().1 == n - 1,
        decreases deepest(avail) + 1 - l,
    {
        let mut popped: usize = 0;
        let mut p: usize = 0;
        while p < n
            invariant
                m == old(st)@,
                lanes == m.lanes,
                order == enrolled(m.order, m.sessions),
                avail == available(lanes, order),
                order.no_duplicates(),
                forall|k: Seq<char>| #[trigger] lanes.contains_key(k) ==> order.contains(k),
                n == order.len(),
                p <= n,
                n > 0,
                l >= 0,
                st.inv(),
                st@ == (relay::RelayModel {
                    order: rotated(order, p as int),
                    lanes: remaining(lanes, order, laps(avail, l, p as int)),
                    ..m
                }),
                acp::frame_bytes(out@) == sent(lanes, order, laps(avail, l, p as int)),
                popped <= p,
                popped == lap(avail, l, p as int).len(),
                out@.len() <= max,
                out@.len() == max && max > 0 ==> laps(avail, l, p as int).last().1 == if p == 0 {
                    n - 1
                } else {
                    p - 1
                },
                p > 0 && popped == 0 ==> out@.len() < max,
                max == 0 ==> p == 0,
            decreases n - p,
        {
            if out.len() >= max {
                proof {
                    assert(acp::frame_bytes(out@).len() == out@.len());
                    lemma_full(m, max as nat, l, p as int);
                }
                return out;
            }
            proof {
                lemma_visit(lanes, order, l, p as int);
                lemma_rotate_one(order, p as int);
            }
            let ghost before = out@;
            if let Some(frame) = visit(st) {
                out.push(frame);
                popped = popped + 1;
                assert(acp::frame_bytes(out@) =~= acp::frame_bytes(before).push(frame@));
            }
            p = p + 1;
        }
        proof {
            lemma_rotate_whole(order);
            lemma_lap_over(avail, l);
        }
        if popped == 0 {
            proof {
                lemma_idle_lap(avail, l);
                lemma_laps_exhausted(avail, l, n as int);
                assert(batch(m, max as nat) =~= schedule(avail));
            }
            return out;
        }
        proof {
            lemma_busy_lap(avail, l);
            l = l + 1;
        }
    }
}

/// The end of one lap is the beginning of the next.
pub proof fn lemma_lap_over(avail: Seq<nat>, l: int)
    requires
        0 <= l,
    ensures
        laps(avail, l + 1, 0) == laps(avail, l, avail.len() as int),
{
    assert(laps(avail, l + 1, 0) =~= laps(avail, l, avail.len() as int));
}

/// A lap that sends nothing finds nothing left.
proof fn lemma_idle_lap(avail: Seq<nat>, l: int)
    requires
        0 <= l,
        lap(avail, l, avail.len() as int).len() == 0,
    ensures
        deepest(avail) <= l,
{
    assert forall|q: int| 0 <= q < avail.len() implies #[trigger] avail[q] <= l by {
        lemma_taken_lap(avail, l, avail.len() as int, q);
    }
    lemma_deepest_witness(avail, l as nat);
}

/// A lap that sends something is not yet the last.
proof fn lemma_busy_lap(avail: Seq<nat>, l: int)
    requires
        0 <= l,
        lap(avail, l, avail.len() as int).len() > 0,
    ensures
        l < deepest(avail),
{
    if l >= deepest(avail) {
        lemma_lap_empty(avail, l, avail.len() as int);
    }
}

/// A batch that is full ends where the schedule has its `max` first entries.
proof fn lemma_full(m: relay::RelayModel, max: nat, l: int, p: int)
    requires
        ({
            let order = enrolled(m.order, m.sessions);
            let done = laps(available(m.lanes, order), l, p);
            &&& 0 <= l
            &&& 0 <= p < order.len()
            &&& done.len() == max
            &&& max == 0 ==> p == 0
            &&& max > 0 ==> done.last().1 == if p == 0 {
                order.len() - 1
            } else {
                p - 1
            }
        }),
    ensures
        ({
            let order = enrolled(m.order, m.sessions);
            let done = laps(available(m.lanes, order), l, p);
            &&& batch(m, max) == done
            &&& drained(m, max) == (relay::RelayModel {
                order: rotated(order, p),
                lanes: remaining(m.lanes, order, done),
                ..m
            })
        }),
{
    let order = enrolled(m.order, m.sessions);
    let avail = available(m.lanes, order);
    lemma_laps_of_schedule(avail, l, p);
    assert(batch(m, max) =~= laps(avail, l, p));
    lemma_rotate_whole(order);
}

/// How many frames are forwarded at a time.
pub const BATCH_FRAMES: usize = 64;

/// What the forwarder does next.
pub enum Forward {
    /// Close the client: a session exceeded the hard bound.
    Torn,
    /// Write these frames to the client.
    Batch(Vec<Vec<u8>>),
    /// Stop: the agent is gone and everything that may be sent was sent.
    Drained,
    /// Look again a little later.
    Idle,
}

/// A [`Forward`] as mathematical values.
pub enum ForwardModel {
    Torn,
    Batch(Seq<Seq<u8>>),
    Drained,
    Idle,
}

impl View for Forward {
    type V = ForwardModel;

    open spec fn view(&self) -> ForwardModel {
        match self {
            Forward::Torn => ForwardModel::Torn,
            Forward::Batch(b) => ForwardModel::Batch(acp::frame_bytes(b@)),
            Forward::Drained => ForwardModel::Drained,
            Forward::Idle => ForwardModel::Idle,
        }
    }
}

/// What the forwarder does next, and the relay after it.
pub open spec fn forwarded(m: relay::RelayModel) -> (relay::RelayModel, ForwardModel) {
    let frames = batch_frames(m, BATCH_FRAMES as nat);
    if m.torn {
        (m, ForwardModel::Torn)
    } else if frames.len() > 0 {
        (drained(m, BATCH_FRAMES as nat), ForwardModel::Batch(frames))
    } else if m.agent_dead {
        (drained(m, BATCH_FRAMES as nat), ForwardModel::Drained)
    } else {
        (drained(m, BATCH_FRAMES as nat), ForwardModel::Idle)
    }
}

impl RelayState {
    /// Decides what the forwarder does next, and takes the frames of the next
    /// batch out of the queues.
    pub fn next_forward(&mut self) -> (r: Forward)
        requires
            old(self).inv(),
        ensures
            final(self).inv(),
            (final(self)@, r@) == forwarded(old(self)@),
            final(self)@ == if old(self)@.torn {
                old(self)@
            } else {
                drained(old(self)@, BATCH_FRAMES as nat)
            },
            ({
                let frames = batch_frames(old(self)@, BATCH_FRAMES as nat);
                match r {
                    Forward::Torn => old(self)@.torn,
                    Forward::Batch(b) => {
                        &&& !old(self)@.torn
                        &&& frames.len() > 0
                        &&& acp::frame_bytes(b@) == frames
                    },
                    Forward::Drained => !old(self)@.torn && frames.len() == 0 && old(
                        self,
                    )@.agent_dead,
                    Forward::Idle => !old(self)@.torn && frames.len() == 0 && !old(
                        self,
                    )@.agent_dead,
                }
            }),
    {
        if self.torn {
            return Forward::Torn;
        }
        let out: Vec<Vec<u8>> = drain_round_robin(self, BATCH_FRAMES);
        assert(acp::frame_bytes(out@).len() == out@.len());
        if out.len() > 0 {
            Forward::Batch(out)
        } else if self.agent_dead {
            Forward::Drained
        } else {
            Forward::Idle
        }
    }
}

} // verus!
