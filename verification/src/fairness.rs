//! What forwarding promises: nothing is lost, duplicated or reordered within a
//! session, and no session is starved by another.

use crate::drain;
use crate::queue;
use crate::relay;
use vstd::prelude::*;

verus! {

/// The order of service has every session once.
pub proof fn lemma_enrolled(order: Seq<Seq<char>>, sessions: Seq<Seq<char>>)
    requires
        order.no_duplicates(),
    ensures
        drain::enrolled(order, sessions).no_duplicates(),
        order.is_prefix_of(drain::enrolled(order, sessions)),
        forall|k: Seq<char>|
            #[trigger] sessions.contains(k) ==> drain::enrolled(order, sessions).contains(k),
    decreases sessions.len(),
{
    if sessions.len() > 0 {
        let before = drain::enrolled(order, sessions.drop_last());
        let after = drain::enrolled(order, sessions);
        lemma_enrolled(order, sessions.drop_last());
        if !before.contains(sessions.last()) {
            assert(after[before.len() as int] == sessions.last());
        }
        assert forall|k: Seq<char>| #[trigger] sessions.contains(k) implies after.contains(k) by {
            let i = sessions.index_of(k);
            if i < sessions.len() - 1 {
                assert(sessions.drop_last()[i] == k);
                assert(sessions.drop_last().contains(k));
                let j = before.index_of(k);
                assert(after[j] == k);
            }
        }
    }
}

/// Every beginning of the laps up to some point is the laps up to an earlier
/// point.
proof fn lemma_point(avail: Seq<nat>, l: int, p: int, k: int) -> (r: (int, int))
    requires
        0 <= l,
        0 <= p <= avail.len(),
        0 <= k <= drain::laps(avail, l, p).len(),
    ensures
        0 <= r.0 <= l,
        0 <= r.1 <= avail.len(),
        drain::laps(avail, r.0, r.1) == drain::laps(avail, l, p).take(k),
    decreases l, p,
{
    let s = drain::laps(avail, l, p);
    if k == s.len() {
        assert(s.take(k) =~= s);
        (l, p)
    } else if p > 0 {
        let before = drain::laps(avail, l, p - 1);
        assert(s =~= before || s =~= before.push((l, p - 1)));
        assert(s.take(k) =~= before.take(k));
        lemma_point(avail, l, p - 1, k)
    } else {
        drain::lemma_lap_over(avail, l - 1);
        lemma_point(avail, l - 1, avail.len() as int, k)
    }
}

/// Every entry of the laps is the next frame of its position, and one that the
/// position has.
proof fn lemma_entries(avail: Seq<nat>, l: int, p: int)
    requires
        0 <= l,
        0 <= p <= avail.len(),
    ensures
        forall|i: int|
            0 <= i < drain::laps(avail, l, p).len() ==> {
                let e = #[trigger] drain::laps(avail, l, p)[i];
                &&& 0 <= e.1 < avail.len()
                &&& e.0 == drain::taken(drain::laps(avail, l, p).take(i), e.1)
                &&& e.0 < avail[e.1]
            },
    decreases l, p,
{
    let s = drain::laps(avail, l, p);
    if p > 0 {
        let before = drain::laps(avail, l, p - 1);
        lemma_entries(avail, l, p - 1);
        drain::lemma_taken_laps(avail, l, p - 1, p - 1);
        assert(s =~= before || s =~= before.push((l, p - 1)));
        assert forall|i: int| 0 <= i < s.len() implies {
            let e = #[trigger] s[i];
            &&& 0 <= e.1 < avail.len()
            &&& e.0 == drain::taken(s.take(i), e.1)
            &&& e.0 < avail[e.1]
        } by {
            assert(s.take(i) =~= before.take(i));
            if i < before.len() {
                assert(s[i] == before[i]);
            } else {
                assert(before.take(i) =~= before);
            }
        }
    } else if l > 0 {
        drain::lemma_lap_over(avail, l - 1);
        lemma_entries(avail, l - 1, avail.len() as int);
    }
}

/// The point of the laps that a batch reaches.
pub proof fn lemma_batch_point(m: relay::RelayModel, max: nat) -> (r: (int, int))
    ensures
        ({
            let avail = drain::available(m.lanes, drain::enrolled(m.order, m.sessions));
            &&& 0 <= r.0
            &&& 0 <= r.1 <= avail.len()
            &&& drain::batch(m, max) == drain::laps(avail, r.0, r.1)
        }),
{
    let avail = drain::available(m.lanes, drain::enrolled(m.order, m.sessions));
    let s = drain::schedule(avail);
    lemma_point(
        avail,
        drain::deepest(avail) as int,
        0,
        drain::least(max as int, s.len() as int),
    )
}

/// Every entry of a batch is the next frame of its position, and one that the
/// position may send.
pub proof fn lemma_batch_entries(m: relay::RelayModel, max: nat)
    ensures
        ({
            let order = drain::enrolled(m.order, m.sessions);
            let s = drain::batch(m, max);
            forall|i: int|
                0 <= i < s.len() ==> {
                    let e = #[trigger] s[i];
                    &&& 0 <= e.1 < order.len()
                    &&& e.0 == drain::taken(s.take(i), e.1)
                    &&& e.0 < drain::eligible(m.lanes, order[e.1])
                }
        }),
{
    let order = drain::enrolled(m.order, m.sessions);
    let avail = drain::available(m.lanes, order);
    let at = lemma_batch_point(m, max);
    lemma_entries(avail, at.0, at.1);
}

/// The frames that a schedule sends of the session at position `q`.
pub open spec fn share(
    lanes: Map<Seq<char>, queue::Lane>,
    order: Seq<Seq<char>>,
    s: Seq<(int, int)>,
    q: int,
) -> Seq<Seq<u8>>
    decreases s.len(),
{
    if s.len() == 0 {
        Seq::empty()
    } else {
        let before = share(lanes, order, s.drop_last(), q);
        if s.last().1 == q {
            before.push(drain::sent(lanes, order, s).last())
        } else {
            before
        }
    }
}

/// The bytes of the frames of a lane.
pub open spec fn lane_bytes(lane: queue::Lane) -> Seq<Seq<u8>> {
    Seq::new(lane.frames.len(), |i: int| lane.frames[i].0)
}

proof fn lemma_share(
    lanes: Map<Seq<char>, queue::Lane>,
    order: Seq<Seq<char>>,
    s: Seq<(int, int)>,
    q: int,
)
    requires
        0 <= q < order.len(),
        forall|i: int|
            0 <= i < s.len() ==> {
                let e = #[trigger] s[i];
                &&& 0 <= e.1 < order.len()
                &&& e.0 == drain::taken(s.take(i), e.1)
                &&& e.0 < drain::eligible(lanes, order[e.1])
            },
    ensures
        share(lanes, order, s, q).len() == drain::taken(s, q),
        share(lanes, order, s, q).len() <= drain::eligible(lanes, order[q]),
        forall|i: int|
            0 <= i < share(lanes, order, s, q).len() ==> (#[trigger] share(lanes, order, s, q)[i])
                == lanes[order[q]].frames[i].0,
    decreases s.len(),
{
    if s.len() > 0 {
        let b = s.drop_last();
        assert forall|i: int| 0 <= i < b.len() implies {
            let e = #[trigger] b[i];
            &&& 0 <= e.1 < order.len()
            &&& e.0 == drain::taken(b.take(i), e.1)
            &&& e.0 < drain::eligible(lanes, order[e.1])
        } by {
            assert(b[i] == s[i]);
            assert(b.take(i) =~= s.take(i));
        }
        lemma_share(lanes, order, b, q);
        assert(s[s.len() - 1] == s.last());
        assert(s.take(s.len() - 1) =~= b);
        assert forall|i: int| 0 <= i < share(lanes, order, s, q).len() implies (
        #[trigger] share(lanes, order, s, q)[i]) == lanes[order[q]].frames[i].0 by {
            let before = share(lanes, order, b, q);
            if i < before.len() {
                assert(share(lanes, order, s, q)[i] == before[i]);
            }
        }
    }
}

/// The relay's sessions: each is there once, and has a lane.
pub open spec fn sound(m: relay::RelayModel) -> bool {
    &&& m.order.no_duplicates()
    &&& m.sessions.no_duplicates()
    &&& forall|k: Seq<char>| #[trigger] m.lanes.contains_key(k) == m.sessions.contains(k)
}

/// The model of a relay in a sound state is sound.
pub proof fn lemma_state_sound(st: relay::RelayState)
    requires
        st.inv(),
    ensures
        sound(st@),
{
}

/// Forwarding is lossless and keeps the order of every session: what a batch
/// sends of a session, followed by what still waits, is what waited before.
pub proof fn law_nothing_lost_or_reordered(m: relay::RelayModel, max: nat, session: Seq<char>)
    requires
        sound(m),
        m.lanes.contains_key(session),
    ensures
        ({
            let order = drain::enrolled(m.order, m.sessions);
            let q = order.index_of(session);
            &&& drain::drained(m, max).lanes.contains_key(session)
            &&& share(m.lanes, order, drain::batch(m, max), q) + lane_bytes(
                drain::drained(m, max).lanes[session],
            ) == lane_bytes(m.lanes[session])
        }),
{
    let order = drain::enrolled(m.order, m.sessions);
    let avail = drain::available(m.lanes, order);
    let s = drain::batch(m, max);
    lemma_enrolled(m.order, m.sessions);
    assert(m.sessions.contains(session));
    assert(order.contains(session));
    let q = order.index_of(session);
    assert(order[q] == session);
    let at = lemma_batch_point(m, max);
    lemma_entries(avail, at.0, at.1);
    assert forall|i: int| 0 <= i < s.len() implies {
        let e = #[trigger] s[i];
        &&& 0 <= e.1 < order.len()
        &&& e.0 == drain::taken(s.take(i), e.1)
        &&& e.0 < drain::eligible(m.lanes, order[e.1])
    } by {
        assert(0 <= s[i].1 < avail.len());
        assert(avail[s[i].1] == drain::eligible(m.lanes, order[s[i].1]));
    }
    lemma_share(m.lanes, order, s, q);
    drain::lemma_taken_laps(avail, at.0, at.1, q);
    let a = share(m.lanes, order, s, q);
    let b = lane_bytes(drain::drained(m, max).lanes[session]);
    assert(a.len() <= m.lanes[session].frames.len());
    assert(a + b =~= lane_bytes(m.lanes[session]));
}

/// A batch takes no more of a session than waits on it.
pub proof fn lemma_share_fits(m: relay::RelayModel, max: nat, session: Seq<char>)
    requires
        sound(m),
        m.lanes.contains_key(session),
    ensures
        drain::taken(
            drain::batch(m, max),
            drain::enrolled(m.order, m.sessions).index_of(session),
        ) <= m.lanes[session].frames.len(),
{
    let order = drain::enrolled(m.order, m.sessions);
    lemma_enrolled(m.order, m.sessions);
    assert(m.sessions.contains(session));
    assert(order.contains(session));
    let at = lemma_batch_point(m, max);
    drain::lemma_taken_laps(
        drain::available(m.lanes, order),
        at.0,
        at.1,
        order.index_of(session),
    );
}

/// A pressured session is not forwarded: everything that waits on it stays.
pub proof fn law_pressured_untouched(m: relay::RelayModel, max: nat, session: Seq<char>)
    requires
        sound(m),
        m.lanes.contains_key(session),
        m.lanes[session].pressured,
    ensures
        drain::drained(m, max).lanes[session] == m.lanes[session],
        share(
            m.lanes,
            drain::enrolled(m.order, m.sessions),
            drain::batch(m, max),
            drain::enrolled(m.order, m.sessions).index_of(session),
        ).len() == 0,
{
    let order = drain::enrolled(m.order, m.sessions);
    let avail = drain::available(m.lanes, order);
    lemma_enrolled(m.order, m.sessions);
    assert(m.sessions.contains(session));
    assert(order.contains(session));
    let q = order.index_of(session);
    let at = lemma_batch_point(m, max);
    drain::lemma_taken_laps(avail, at.0, at.1, q);
    law_nothing_lost_or_reordered(m, max, session);
    assert(m.lanes[session].frames.skip(0) =~= m.lanes[session].frames);
}

/// Forwarding is fair: a session gets at most one frame ahead of any other
/// that still has something to send.
pub proof fn law_fair(m: relay::RelayModel, max: nat, p: int, q: int)
    requires
        0 <= p < drain::enrolled(m.order, m.sessions).len(),
        0 <= q < drain::enrolled(m.order, m.sessions).len(),
    ensures
        ({
            let order = drain::enrolled(m.order, m.sessions);
            let s = drain::batch(m, max);
            ||| drain::taken(s, q) <= drain::taken(s, p) + 1
            ||| drain::taken(s, p) == drain::eligible(m.lanes, order[p])
        }),
{
    let avail = drain::available(m.lanes, drain::enrolled(m.order, m.sessions));
    let at = lemma_batch_point(m, max);
    drain::lemma_taken_laps(avail, at.0, at.1, p);
    drain::lemma_taken_laps(avail, at.0, at.1, q);
}

/// How many frames all sessions together may send.
pub open spec fn total(avail: Seq<nat>) -> nat
    decreases avail.len(),
{
    if avail.len() == 0 {
        0
    } else {
        total(avail.drop_last()) + avail.last()
    }
}

spec fn gathered(s: Seq<(int, int)>, n: int) -> nat
    decreases n,
{
    if n <= 0 {
        0
    } else {
        gathered(s, n - 1) + drain::taken(s, n - 1)
    }
}

proof fn lemma_gathered_drop(s: Seq<(int, int)>, n: int)
    requires
        s.len() > 0,
    ensures
        gathered(s, n) == gathered(s.drop_last(), n) + if 0 <= s.last().1 < n {
            1nat
        } else {
            0nat
        },
    decreases n,
{
    if n > 0 {
        lemma_gathered_drop(s, n - 1);
    }
}

proof fn lemma_gathered_none(n: int)
    ensures
        gathered(Seq::empty(), n) == 0,
    decreases n,
{
    if n > 0 {
        lemma_gathered_none(n - 1);
    }
}

proof fn lemma_gathered(s: Seq<(int, int)>, n: int)
    requires
        forall|i: int| 0 <= i < s.len() ==> 0 <= (#[trigger] s[i]).1 < n,
    ensures
        gathered(s, n) == s.len(),
    decreases s.len(),
{
    if s.len() == 0 {
        assert(s =~= Seq::empty());
        lemma_gathered_none(n);
    } else {
        assert forall|i: int| 0 <= i < s.drop_last().len() implies 0 <= (
        #[trigger] s.drop_last()[i]).1 < n by {
            assert(s.drop_last()[i] == s[i]);
        }
        lemma_gathered(s.drop_last(), n);
        assert(s[s.len() - 1] == s.last());
        lemma_gathered_drop(s, n);
    }
}

proof fn lemma_gathered_total(s: Seq<(int, int)>, avail: Seq<nat>, n: int)
    requires
        0 <= n <= avail.len(),
        forall|q: int| 0 <= q < avail.len() ==> #[trigger] avail[q] == drain::taken(s, q),
    ensures
        gathered(s, n) == total(avail.take(n)),
    decreases n,
{
    if n > 0 {
        lemma_gathered_total(s, avail, n - 1);
        assert(avail.take(n).drop_last() =~= avail.take(n - 1));
        assert(avail[n - 1] == drain::taken(s, n - 1));
    }
}

proof fn lemma_schedule_whole(avail: Seq<nat>)
    ensures
        drain::schedule(avail).len() == total(avail),
        forall|q: int|
            0 <= q < avail.len() ==> #[trigger] drain::taken(drain::schedule(avail), q) == avail[q],
{
    let s = drain::schedule(avail);
    let d = drain::deepest(avail) as int;
    assert forall|q: int| 0 <= q < avail.len() implies #[trigger] drain::taken(s, q)
        == avail[q] by {
        drain::lemma_taken_laps(avail, d, 0, q);
        drain::lemma_deepest(avail, q);
    }
    lemma_entries(avail, d, 0);
    lemma_gathered(s, avail.len() as int);
    lemma_gathered_total(s, avail, avail.len() as int);
    assert(avail.take(avail.len() as int) =~= avail);
}

/// A batch is as long as was asked for, or holds all that may be sent.
pub proof fn law_batch_length(m: relay::RelayModel, max: nat)
    ensures
        ({
            let all = total(drain::available(m.lanes, drain::enrolled(m.order, m.sessions)));
            drain::batch_frames(m, max).len() == drain::least(max as int, all as int)
        }),
{
    lemma_schedule_whole(drain::available(m.lanes, drain::enrolled(m.order, m.sessions)));
}

/// A batch with room for everything leaves nothing behind on any session that
/// is not pressured.
pub proof fn law_large_batch_drains_all(m: relay::RelayModel, max: nat, session: Seq<char>)
    requires
        sound(m),
        m.lanes.contains_key(session),
        !m.lanes[session].pressured,
        max >= total(drain::available(m.lanes, drain::enrolled(m.order, m.sessions))),
    ensures
        drain::drained(m, max).lanes[session].frames.len() == 0,
{
    let order = drain::enrolled(m.order, m.sessions);
    let avail = drain::available(m.lanes, order);
    lemma_schedule_whole(avail);
    lemma_enrolled(m.order, m.sessions);
    assert(m.sessions.contains(session));
    assert(order.contains(session));
    let q = order.index_of(session);
    let s = drain::schedule(avail);
    assert(drain::batch(m, max) =~= s);
    assert(drain::taken(s, q) == avail[q]);
}

proof fn lemma_lap_len(avail: Seq<nat>, l: int, p: int)
    requires
        0 <= p <= avail.len(),
    ensures
        drain::lap(avail, l, p).len() <= p,
    decreases p,
{
    if p > 0 {
        lemma_lap_len(avail, l, p - 1);
    }
}

/// A batch at least as long as there are sessions sends something of every
/// session that has something to send, whatever waits on the others.
pub proof fn law_long_batch_serves_everyone(m: relay::RelayModel, max: nat, session: Seq<char>)
    requires
        sound(m),
        m.lanes.contains_key(session),
        drain::eligible(m.lanes, session) > 0,
        max >= drain::enrolled(m.order, m.sessions).len(),
    ensures
        drain::drained(m, max).lanes[session].frames.len() < m.lanes[session].frames.len(),
{
    let order = drain::enrolled(m.order, m.sessions);
    let avail = drain::available(m.lanes, order);
    let s = drain::batch(m, max);
    lemma_enrolled(m.order, m.sessions);
    assert(m.sessions.contains(session));
    assert(order.contains(session));
    let q = order.index_of(session);
    assert(avail[q] > 0);
    let at = lemma_batch_point(m, max);
    drain::lemma_taken_laps(avail, at.0, at.1, q);
    lemma_schedule_whole(avail);
    if drain::taken(s, q) == 0 {
        assert(at.0 == 0 && at.1 <= q);
        lemma_lap_len(avail, 0, at.1);
        assert(s.len() < max);
        assert(s =~= drain::schedule(avail));
        assert(drain::taken(drain::schedule(avail), q) == avail[q]);
    }
}

/// The place of a session in the order of service, counted from the front.
pub open spec fn place(m: relay::RelayModel, session: Seq<char>) -> int {
    drain::enrolled(m.order, m.sessions).index_of(session)
}

/// Whether a batch sends something of a session.
pub open spec fn serves(m: relay::RelayModel, max: nat, session: Seq<char>) -> bool {
    drain::taken(drain::batch(m, max), place(m, session)) > 0
}

/// Whether `b` is what `a` can be by the next batch: more may have come on any
/// session, and new sessions may have come, but the order of service is the
/// same.
pub open spec fn arrives(a: relay::RelayModel, b: relay::RelayModel) -> bool {
    &&& b.order == a.order
    &&& a.sessions.is_prefix_of(b.sessions)
    &&& sound(b)
}

proof fn lemma_lap_positions(avail: Seq<nat>, l: int, p: int)
    requires
        0 <= p <= avail.len(),
    ensures
        forall|i: int|
            0 <= i < drain::lap(avail, l, p).len() ==> 0 <= (#[trigger] drain::lap(
                avail,
                l,
                p,
            )[i]).1 < p,
    decreases p,
{
    if p > 0 {
        let before = drain::lap(avail, l, p - 1);
        let after = drain::lap(avail, l, p);
        lemma_lap_positions(avail, l, p - 1);
        assert forall|i: int| 0 <= i < after.len() implies 0 <= (#[trigger] after[i]).1 < p by {
            if i < before.len() {
                assert(after[i] == before[i]);
            }
        }
    }
}

/// A sound relay is sound after a batch.
pub proof fn lemma_drained_sound(m: relay::RelayModel, max: nat)
    requires
        sound(m),
    ensures
        sound(drain::drained(m, max)),
{
    let order = drain::enrolled(m.order, m.sessions);
    let s = drain::batch(m, max);
    lemma_enrolled(m.order, m.sessions);
    if s.len() > 0 && s.len() == max {
        let at = lemma_batch_point(m, max);
        let avail = drain::available(m.lanes, order);
        lemma_entries(avail, at.0, at.1);
        assert(s[s.len() - 1] == s.last());
        assert(0 <= s.last().1 < avail.len());
        drain::lemma_rotated_no_duplicates(order, s.last().1 + 1);
    }
}

/// What comes in between batches does not cost a session its place.
proof fn lemma_place_kept(a: relay::RelayModel, b: relay::RelayModel, session: Seq<char>)
    requires
        arrives(a, b),
        a.order.contains(session),
    ensures
        place(b, session) == a.order.index_of(session),
{
    let order = drain::enrolled(b.order, b.sessions);
    lemma_enrolled(b.order, b.sessions);
    let i = a.order.index_of(session);
    assert(a.order[i] == session);
    assert(order[i] == session);
    assert(order.contains(session));
    assert(order[order.index_of(session)] == session);
}

/// A session that has something to send and is passed over by a batch comes
/// closer to the front.
pub proof fn law_turn_comes_closer(m: relay::RelayModel, max: nat, session: Seq<char>)
    requires
        sound(m),
        max > 0,
        drain::eligible(m.lanes, session) > 0,
        !serves(m, max, session),
    ensures
        drain::drained(m, max).order.contains(session),
        drain::drained(m, max).order.index_of(session) < place(m, session),
        drain::drained(m, max).lanes[session] == m.lanes[session],
{
    let order = drain::enrolled(m.order, m.sessions);
    let avail = drain::available(m.lanes, order);
    let s = drain::batch(m, max);
    lemma_enrolled(m.order, m.sessions);
    assert(m.lanes.contains_key(session));
    assert(m.sessions.contains(session));
    assert(order.contains(session));
    let q = order.index_of(session);
    assert(order[q] == session);
    assert(avail[q] > 0);
    let at = lemma_batch_point(m, max);
    drain::lemma_taken_laps(avail, at.0, at.1, q);
    assert(at.0 == 0 && at.1 <= q);
    lemma_schedule_whole(avail);
    if s.len() < max {
        assert(s =~= drain::schedule(avail));
        assert(drain::taken(drain::schedule(avail), q) == avail[q]);
        assert(false);
    }
    lemma_lap_positions(avail, 0, at.1);
    assert(s == drain::lap(avail, 0, at.1));
    assert(s[s.len() - 1] == s.last());
    let k = s.last().1 + 1;
    let after = drain::drained(m, max).order;
    assert(after == drain::rotated(order, k));
    drain::lemma_rotated_no_duplicates(order, k);
    assert(after[q - k] == order[q]);
    assert(after.contains(session));
    assert(after[after.index_of(session)] == session);
    assert(m.lanes[session].frames.skip(0) =~= m.lanes[session].frames);
}

proof fn lemma_passed_over(
    rounds: Seq<relay::RelayModel>,
    max: nat,
    session: Seq<char>,
    i: int,
)
    requires
        max > 0,
        0 <= i < rounds.len(),
        forall|j: int|
            0 <= j < rounds.len() ==> sound(#[trigger] rounds[j]) && drain::eligible(
                rounds[j].lanes,
                session,
            ) > 0,
        forall|j: int|
            0 < j < rounds.len() ==> arrives(
                drain::drained(rounds[j - 1], max),
                #[trigger] rounds[j],
            ),
        forall|j: int| 0 <= j < i ==> !serves(#[trigger] rounds[j], max, session),
    ensures
        place(rounds[i], session) <= place(rounds[0], session) - i,
    decreases i,
{
    if i > 0 {
        lemma_passed_over(rounds, max, session, i - 1);
        assert(!serves(rounds[i - 1], max, session));
        assert(sound(rounds[i - 1]));
        law_turn_comes_closer(rounds[i - 1], max, session);
        assert(arrives(drain::drained(rounds[i - 1], max), rounds[i]));
        lemma_place_kept(drain::drained(rounds[i - 1], max), rounds[i], session);
    }
}

/// No session starves another: with `n` sessions in the order of service, a
/// session that has something to send is served within `n` batches of any
/// length, whatever comes in between them.
pub proof fn law_service_comes_round(
    rounds: Seq<relay::RelayModel>,
    max: nat,
    session: Seq<char>,
)
    requires
        max > 0,
        rounds.len() > 0,
        rounds.len() == drain::enrolled(rounds[0].order, rounds[0].sessions).len(),
        forall|j: int|
            0 <= j < rounds.len() ==> sound(#[trigger] rounds[j]) && drain::eligible(
                rounds[j].lanes,
                session,
            ) > 0,
        forall|j: int|
            0 < j < rounds.len() ==> arrives(
                drain::drained(rounds[j - 1], max),
                #[trigger] rounds[j],
            ),
    ensures
        exists|i: int| 0 <= i < rounds.len() && serves(#[trigger] rounds[i], max, session),
{
    if !(exists|i: int| 0 <= i < rounds.len() && serves(#[trigger] rounds[i], max, session)) {
        let n = rounds.len() as int;
        let m = rounds[0];
        assert(sound(m));
        lemma_enrolled(m.order, m.sessions);
        assert(m.lanes.contains_key(session));
        assert(m.sessions.contains(session));
        assert(drain::enrolled(m.order, m.sessions).contains(session));
        lemma_passed_over(rounds, max, session, n - 1);
        let last = rounds[n - 1];
        assert(sound(last));
        assert(!serves(last, max, session));
        law_turn_comes_closer(last, max, session);
        assert(drain::drained(last, max).order.index_of(session) >= 0);
    }
}

/// The relay after `k` batches with nothing coming in between.
pub open spec fn batches(m: relay::RelayModel, max: nat, k: nat) -> relay::RelayModel
    decreases k,
{
    if k == 0 {
        m
    } else {
        drain::drained(batches(m, max, (k - 1) as nat), max)
    }
}

proof fn lemma_batches(m: relay::RelayModel, max: nat, session: Seq<char>, k: nat)
    requires
        sound(m),
        max > 0,
        drain::eligible(m.lanes, session) > 0,
    ensures
        sound(batches(m, max, k)),
        batches(m, max, k).lanes.contains_key(session),
        ({
            let after = batches(m, max, k);
            ||| after.lanes[session].frames.len() < m.lanes[session].frames.len()
            ||| after.lanes[session] == m.lanes[session] && place(after, session) <= place(
                m,
                session,
            ) - k
        }),
    decreases k,
{
    if k > 0 {
        let b = batches(m, max, (k - 1) as nat);
        lemma_batches(m, max, session, (k - 1) as nat);
        lemma_drained_sound(b, max);
        lemma_share_fits(b, max, session);
        if b.lanes[session] == m.lanes[session] && !serves(b, max, session) {
            law_turn_comes_closer(b, max, session);
            let after = drain::drained(b, max);
            lemma_place_kept(after, after, session);
        }
    }
}

/// With `n` sessions in the order of service, a session with something to send
/// has sent something after `n` batches of any length.
pub proof fn law_everyone_is_served_in_time(m: relay::RelayModel, max: nat, session: Seq<char>)
    requires
        sound(m),
        max > 0,
        drain::eligible(m.lanes, session) > 0,
    ensures
        ({
            let n = drain::enrolled(m.order, m.sessions).len();
            batches(m, max, n).lanes[session].frames.len() < m.lanes[session].frames.len()
        }),
{
    let n = drain::enrolled(m.order, m.sessions).len();
    lemma_batches(m, max, session, n);
    lemma_enrolled(m.order, m.sessions);
    assert(m.lanes.contains_key(session));
    assert(m.sessions.contains(session));
    assert(drain::enrolled(m.order, m.sessions).contains(session));
    let after = batches(m, max, n);
    lemma_enrolled(after.order, after.sessions);
    assert(after.sessions.contains(session));
    assert(drain::enrolled(after.order, after.sessions).contains(session));
}

} // verus!
