//! Listeners, their subscribers and copies.

use vstd::prelude::*;

use super::frames;
use crate::dedup::MonotonicClock;
use crate::listen18022;
use crate::listen18022::{DetectedFrame, FrameFilter, Listener, Subscription};
use crate::listen6672;
use crate::listen6672::{Callbacks, Dispatched};

verus! {

/// The key was noted at most 200 milliseconds ago.
pub open spec fn recent(notes: Option<Seq<(u64, u64)>>, key: u64, now: u64) -> bool {
    notes matches Some(n) && exists|i: int|
        0 <= i < n.len() && (#[trigger] n[i]).0 == key && now - n[i].1 <= 200
}

/// A request that is no copy is given with its ends as they were, and waits for every subscriber
/// that wants it and has room; a copy is not given, and nobody hears of it.
pub proof fn law_requests_are_handed_on<C, F: FrameFilter>(
    l: &mut Listener<C, F>,
    src: [u8; 4],
    dst: [u8; 4],
    sp: u16,
    dp: u16,
    p: &[u8],
    now: u64,
    r: Option<DetectedFrame>,
    key: u64,
    req: i64,
    star: bool,
    body: Seq<u8>,
)
    requires
        old(l).wf(),
        call_ensures(Listener::<C, F>::dispatch_at, (l, src, dst, sp, dp, p, now), r),
        call_ensures(listen18022::dedup_key, (src, sp, p), key),
        frames::is_wire_frame(p@, frames::wire_text(req, star, body)),
    ensures
        recent(old(l).notes(), key, now) ==> r is None && final(l)@ == old(l)@,
        !recent(old(l).notes(), key, now) ==> {
            &&& r matches Some(f) && f.req == req && f.body@ == body && f.src_ip == src && f.dst_ip
                == dst && f.src_port == sp && f.dst_port == dp
            &&& final(l)@.len() == old(l)@.len()
            &&& forall|i: int|
                0 <= i < old(l)@.len() ==> {
                    let (was, is) = (old(l)@[i], #[trigger] final(l)@[i]);
                    &&& is.id == was.id && is.closed == was.closed && is.filter == was.filter
                    &&& is.waiting == if !was.closed && was.waiting.len() < 8 && (was.filter matches
                        Some(g) ==> g.picks((r->0)@)) {
                        was.waiting.push((r->0)@)
                    } else {
                        was.waiting
                    }
                }
        },
{
    frames::lemma_wire(p@, req, star, body);
    if old(l).notes() is Some {
        let n = old(l).notes()->0;
        assert(recent(old(l).notes(), key, now) <==> crate::dedup::noted(n, key, now as int));
    }
}

/// Copies are looked for only where there is more than one interface to hear them on.
pub proof fn law_new_listeners<F>(
    slaves: Vec<String>,
    a: Listener<MonotonicClock, F>,
    c: Callbacks,
    b: listen6672::Listener<MonotonicClock>,
)
    requires
        call_ensures(Listener::<MonotonicClock, F>::new, (slaves,), a),
        call_ensures(listen6672::Listener::<MonotonicClock>::new, (slaves, c), b),
    ensures
        a.slaves == slaves && b.slaves == slaves && b.callbacks == c,
        a.dedup is Some <==> slaves@.len() > 1,
        b.dedup is Some <==> slaves@.len() > 1,
        a@.len() == 0,
{
}

/// A new subscriber comes last, under a number of its own, and nothing waits for it.
pub proof fn law_subscribers_are_added<C, F>(
    l: &mut Listener<C, F>,
    filter: Option<F>,
    s: Subscription,
)
    requires
        old(l).wf(),
        call_ensures(Listener::<C, F>::subscribe, (l, filter), s),
    ensures
        final(l)@.len() == old(l)@.len() + 1,
        final(l)@.last().id == s.id && final(l)@.last().filter == filter,
        !final(l)@.last().closed && final(l)@.last().waiting.len() == 0,
        forall|i: int|
            0 <= i < old(l)@.len() ==> #[trigger] final(l)@[i] == old(l)@[i] && old(l)@[i].id
                != s.id,
{
    assert forall|i: int| 0 <= i < old(l)@.len() implies #[trigger] final(l)@[i] == old(l)@[i]
        && old(l)@[i].id != s.id by {
        assert(old(l)@[i].id < old(l).next_sub_id);
    }
}

proof fn lemma_only_place<F>(subs: Seq<listen18022::SubView<F>>, next: usize, id: usize, i: int)
    requires
        listen18022::numbered(subs, next),
        0 <= i < subs.len(),
        subs[i].id == id,
    ensures
        listen18022::place_of(subs, id) == Some(i),
{
    listen18022::lemma_place(subs, id);
    let k = listen18022::place_of(subs, id)->0;
    if k < i {
        assert(subs[k].id != subs[i].id);
    } else if i < k {
        assert(subs[i].id != subs[k].id);
    }
}

/// A subscriber that cancels gets nothing more, but keeps what waits; no other is touched.
pub proof fn law_cancelled_subscribers<C, F>(s: Subscription, l: &mut Listener<C, F>, i: int)
    requires
        old(l).wf(),
        call_ensures(Subscription::cancel::<C, F>, (&s, l), ()),
        0 <= i < old(l)@.len(),
        old(l)@[i].id == s.id,
    ensures
        final(l)@.len() == old(l)@.len(),
        final(l)@[i].closed && final(l)@[i].waiting == old(l)@[i].waiting,
        final(l)@[i].id == s.id,
        forall|j: int| 0 <= j < old(l)@.len() && j != i ==> #[trigger] final(l)@[j] == old(l)@[j],
{
    lemma_only_place(old(l)@, old(l).next_sub_id, s.id, i);
}

/// A subscriber that is closed is gone; the others stay in their order.
pub proof fn law_closed_subscribers<C, F>(s: Subscription, l: &mut Listener<C, F>, i: int)
    requires
        old(l).wf(),
        call_ensures(Subscription::close::<C, F>, (s, l), ()),
        0 <= i < old(l)@.len(),
        old(l)@[i].id == s.id,
    ensures
        final(l)@.len() == old(l)@.len() - 1,
        forall|j: int| 0 <= j < i ==> #[trigger] final(l)@[j] == old(l)@[j],
        forall|j: int| i <= j < final(l)@.len() ==> #[trigger] final(l)@[j] == old(l)@[j + 1],
{
    lemma_only_place(old(l)@, old(l).next_sub_id, s.id, i);
}

/// On the other port too a copy leads to nothing; what is none is taken as if it came alone.
pub proof fn law_key_frames_once<C>(
    l: &mut listen6672::Listener<C>,
    src: [u8; 4],
    sp: u16,
    p: &[u8],
    now: u64,
    d: Dispatched,
    key: u64,
)
    requires
        call_ensures(listen6672::Listener::<C>::dispatch_at, (l, src, sp, p, now), d),
        call_ensures(listen6672::dedup_key, (src, sp, p), key),
    ensures
        recent(old(l).notes(), key, now) ==> d.log is None && d.event is None,
        !recent(old(l).notes(), key, now) && p@.len() != 21 ==> d.log is Some && d.event is None,
        !recent(old(l).notes(), key, now) && p@.len() == 21 && p@[17] == 0 && p@[18] == 0x40
            && p@[0] == 0 && p@[13] == 1 && p@[14] == 0 && p@[15] == 0 && p@[16] == 0 && p@[19]
            == 0x8c ==> d.log is Some && (d.event is Some <==> old(l).callbacks.on_ring),
{
    if old(l).notes() is Some {
        let n = old(l).notes()->0;
        assert(recent(old(l).notes(), key, now) <==> crate::dedup::noted(n, key, now as int));
    }
    if p@.len() == 21 {
        let q = p@.subrange(13, 17);
        assert(q[0] == p@[13] && q[1] == p@[14] && q[2] == p@[15] && q[3] == p@[16]);
        let m = p@.subrange(17, 19);
        assert(m[0] == p@[17] && m[1] == p@[18]);
    }
}

} // verus!
