//! Dropping copies of a frame that several interfaces pick up at nearly the same time.

use vstd::prelude::*;

verus! {

/// How many frames are remembered.
pub const DEDUP_CAPACITY: usize = 64;

/// For how long a frame with the same key counts as a copy, in milliseconds.
pub const DEDUP_WINDOW_MS: u64 = 200;

// ---------------------------------------------------------------------------
// Clock
// ---------------------------------------------------------------------------

/// A source of monotonic milliseconds; only differences matter.
pub trait Clock {
    fn now_ms(&self) -> u64;
}

/// A point of the monotonic clock.
#[verifier::external_type_specification]
#[verifier::external_body]
pub struct ExInstant(std::time::Instant);

/// `std::time::Instant::now` reads the clock, so nothing is said of the result.
pub assume_specification[ std::time::Instant::now ]() -> (r: std::time::Instant)
;

/// `std::time::Instant::elapsed` reads the clock, so nothing is said of the result.
pub assume_specification[ std::time::Instant::elapsed ](i: &std::time::Instant) -> (r:
    std::time::Duration)
;

/// `std::time::Duration::as_millis` gives the whole milliseconds of a length of time. A
/// `Duration` is opaque here, so no clause says how many they are.
pub assume_specification[ std::time::Duration::as_millis ](d: &std::time::Duration) -> (r: u128)
;

/// Whether `clock` reads `now` whenever it is asked.
pub open spec fn reads_only<C: Clock>(clock: C, now: u64) -> bool {
    forall|n: u64| #[trigger] call_ensures(C::now_ms, (&clock,), n) ==> n == now
}

/// The time since it was made.
#[derive(Debug)]
pub struct MonotonicClock {
    start: std::time::Instant,
}

impl MonotonicClock {
    /// When the clock was made.
    pub closed spec fn start(&self) -> std::time::Instant {
        self.start
    }

    /// Whether the clock may read `now`: the whole milliseconds of a time that may have passed
    /// since it was made, cut to 64 bits.
    pub open spec fn may_read(&self, now: u64) -> bool {
        exists|passed: std::time::Duration, ms: u128|
            {
                &&& #[trigger] call_ensures(std::time::Instant::elapsed, (&self.start(),), passed)
                &&& #[trigger] call_ensures(std::time::Duration::as_millis, (&passed,), ms)
                &&& now == ms as u64
            }
    }

    /// A clock that starts at zero now.
    pub fn new() -> (c: Self)
        ensures
            call_ensures(std::time::Instant::now, (), c.start()),
    {
        MonotonicClock { start: std::time::Instant::now() }
    }
}

impl Default for MonotonicClock {
    fn default() -> (c: Self)
        ensures
            call_ensures(std::time::Instant::now, (), c.start()),
    {
        MonotonicClock::new()
    }
}

impl Clock for MonotonicClock {
    fn now_ms(&self) -> (now: u64)
        ensures
            self.may_read(now),
    {
        let passed = self.start.elapsed();
        assert(call_ensures(std::time::Instant::elapsed, (&self.start(),), passed));
        let ms: u128 = passed.as_millis();
        #[verifier::truncate]
        (ms as u64)
    }
}

// ---------------------------------------------------------------------------
// Remembered frames
// ---------------------------------------------------------------------------

/// Whether `key` was noted at most a window before `now`.
pub open spec fn noted(notes: Seq<(u64, u64)>, key: u64, now: int) -> bool {
    exists|i: int|
        0 <= i < notes.len() && (#[trigger] notes[i]).0 == key && notes[i].1 + DEDUP_WINDOW_MS
            >= now
}

/// The notes after `key` has been looked up at `now`: a key that is not noted is added, and the
/// oldest note goes once there are too many.
pub open spec fn notes_after(notes: Seq<(u64, u64)>, key: u64, now: u64) -> Seq<(u64, u64)> {
    if noted(notes, key, now as int) {
        notes
    } else if notes.len() < DEDUP_CAPACITY {
        notes.push((key, now))
    } else {
        notes.skip(1).push((key, now))
    }
}

/// The keys of the last frames with the times at which they came.
#[derive(Debug)]
pub struct Dedup {
    slots: Vec<(u64, u64)>,
    head: usize,
}

impl View for Dedup {
    type V = Seq<(u64, u64)>;

    /// The notes from the oldest to the newest.
    closed spec fn view(&self) -> Seq<(u64, u64)> {
        self.slots@.skip(self.head as int) + self.slots@.take(self.head as int)
    }
}

impl Dedup {
    /// The slots fill up one by one and are then written over in turn.
    #[verifier::type_invariant]
    spec fn is_ring(&self) -> bool {
        &&& self.slots@.len() <= DEDUP_CAPACITY
        &&& self.head < DEDUP_CAPACITY
        &&& self.slots@.len() < DEDUP_CAPACITY ==> self.head == 0
    }

    /// Remembers nothing yet.
    pub fn new() -> (d: Self)
        ensures
            d@ == Seq::<(u64, u64)>::empty(),
    {
        Dedup { slots: Vec::new(), head: 0 }
    }

    /// Whether `key` is noted within the window.
    fn holds(&self, key: u64, now_ms: u64) -> (r: bool)
        ensures
            r == noted(self@, key, now_ms as int),
    {
        let cutoff: u64 = if now_ms < DEDUP_WINDOW_MS {
            0
        } else {
            now_ms - DEDUP_WINDOW_MS
        };
        let ghost slots = self.slots@;
        proof {
            use_type_invariant(self);
            lemma_ring(slots, self.head as int, key, now_ms as int);
        }
        let mut i: usize = 0;
        while i < self.slots.len()
            invariant
                i <= slots.len(),
                self.slots@ == slots,
                noted(slots, key, now_ms as int) == noted(self@, key, now_ms as int),
                cutoff == (if now_ms < DEDUP_WINDOW_MS { 0 } else { now_ms - DEDUP_WINDOW_MS }),
                forall|k: int|
                    0 <= k < i ==> (#[trigger] slots[k]).0 != key || slots[k].1 < cutoff,
            decreases slots.len() - i,
        {
            let (k, t) = self.slots[i];
            if k == key && t >= cutoff {
                assert(slots[i as int].0 == key);
                return true;
            }
            i = i + 1;
        }
        false
    }

    /// Whether `key` was noted within the window. A key that was not is noted at `now_ms`; one
    /// that was keeps its time.
    pub fn seen(&mut self, key: u64, now_ms: u64) -> (r: bool)
        ensures
            r == noted(old(self)@, key, now_ms as int),
            final(self)@ == notes_after(old(self)@, key, now_ms),
    {
        if self.holds(key, now_ms) {
            return true;
        }
        let mut d = Dedup::new();
        std::mem::swap(self, &mut d);
        proof {
            use_type_invariant(&d);
        }
        let ghost notes = d@;
        let mut slots = d.slots;
        let at: usize = d.head;
        if slots.len() < DEDUP_CAPACITY {
            slots.push((key, now_ms));
            *self = Dedup { slots, head: at };
            assert(self@ =~= notes.push((key, now_ms)));
        } else {
            slots.set(at, (key, now_ms));
            let head: usize = if at + 1 == DEDUP_CAPACITY { 0 } else { at + 1 };
            *self = Dedup { slots, head };
            assert(self@ =~= notes.skip(1).push((key, now_ms)));
        }
        false
    }
}

impl Default for Dedup {
    fn default() -> (d: Self)
        ensures
            d@ == Seq::<(u64, u64)>::empty(),
    {
        Dedup::new()
    }
}

/// A ring read from `head` on holds what the slots hold.
proof fn lemma_ring(slots: Seq<(u64, u64)>, head: int, key: u64, now: int)
    requires
        0 <= head <= slots.len(),
    ensures
        noted(slots, key, now) == noted(slots.skip(head) + slots.take(head), key, now),
{
    let notes = slots.skip(head) + slots.take(head);
    if noted(slots, key, now) {
        let k = choose|k: int|
            0 <= k < slots.len() && (#[trigger] slots[k]).0 == key && slots[k].1 + DEDUP_WINDOW_MS
                >= now;
        let j = if k >= head {
            k - head
        } else {
            k + slots.len() - head
        };
        assert(notes[j] == slots[k]);
    }
    if noted(notes, key, now) {
        let j = choose|j: int|
            0 <= j < notes.len() && (#[trigger] notes[j]).0 == key && notes[j].1 + DEDUP_WINDOW_MS
                >= now;
        let k = if j < slots.len() - head {
            j + head
        } else {
            j - (slots.len() - head)
        };
        assert(slots[k] == notes[j]);
    }
}

/// A frame that comes again is a copy until the window ends, and none after: once a key that was
/// not noted has been looked up, looking it up again finds it no more than a window later.
pub proof fn law_copy_is_noted(notes: Seq<(u64, u64)>, key: u64, now: u64, later: u64)
    requires
        !noted(notes, key, now as int),
        now <= later,
    ensures
        noted(notes_after(notes, key, now), key, later as int) <==> later - now <= DEDUP_WINDOW_MS,
{
    let after = notes_after(notes, key, now);
    assert(after.last() == (key, now));
    assert(after[after.len() - 1].0 == key);
    if later - now > DEDUP_WINDOW_MS {
        assert forall|i: int| 0 <= i < after.len() && (#[trigger] after[i]).0 == key implies
            after[i].1 + DEDUP_WINDOW_MS < later by {
            if i < after.len() - 1 {
                let k = if notes.len() < DEDUP_CAPACITY { i } else { i + 1 };
                assert(after[i] == notes[k]);
                assert(notes[k].0 == key);
            }
        }
    }
}

/// Looking a copy up does not put off its expiry: the notes stay as they were, so that a key
/// first seen at `first` is new again after the window, however often copies of it came.
pub proof fn law_copy_does_not_extend(
    notes: Seq<(u64, u64)>,
    key: u64,
    first: u64,
    copy: u64,
    later: u64,
)
    requires
        !noted(notes, key, 0),
        first <= copy <= first + DEDUP_WINDOW_MS,
        later > first + DEDUP_WINDOW_MS,
    ensures
        notes_after(notes_after(notes, key, first), key, copy) == notes_after(notes, key, first),
        !noted(
            notes_after(notes_after(notes, key, first), key, copy),
            key,
            later as int,
        ),
{
    assert(!noted(notes, key, first as int)) by {
        if noted(notes, key, first as int) {
            let i = choose|i: int|
                0 <= i < notes.len() && (#[trigger] notes[i]).0 == key && notes[i].1
                    + DEDUP_WINDOW_MS >= first;
            assert(notes[i].0 == key);
        }
    }
    law_copy_is_noted(notes, key, first, copy);
    let after = notes_after(notes, key, first);
    assert forall|i: int| 0 <= i < after.len() && (#[trigger] after[i]).0 == key implies after[i].1
        + DEDUP_WINDOW_MS < later by {
        if i < after.len() - 1 {
            let k = if notes.len() < DEDUP_CAPACITY { i } else { i + 1 };
            assert(after[i] == notes[k]);
            assert(notes[k].0 == key);
        }
    }
}

/// No more than `DEDUP_CAPACITY` frames are ever remembered.
pub proof fn law_notes_bounded(notes: Seq<(u64, u64)>, key: u64, now: u64)
    requires
        notes.len() <= DEDUP_CAPACITY,
    ensures
        notes_after(notes, key, now).len() <= DEDUP_CAPACITY,
{
}

// ---------------------------------------------------------------------------
// Keys
// ---------------------------------------------------------------------------

/// The FNV-1a offset basis.
const FNV_OFFSET: u64 = 0xcbf2_9ce4_8422_2325;

/// The FNV-1a prime.
const FNV_PRIME: u64 = 0x0000_0100_0000_01b3;

/// The 64-bit FNV-1a hash.
pub open spec fn fnv(data: Seq<u8>) -> u64
    decreases data.len(),
{
    if data.len() == 0 {
        0xcbf2_9ce4_8422_2325
    } else {
        (((fnv(data.drop_last()) ^ (data.last() as u64)) * 0x100_0000_01b3)
            % 0x1_0000_0000_0000_0000) as u64
    }
}

/// The address as a number, first byte highest.
pub open spec fn ip_number(ip: Seq<u8>) -> int {
    ip[0] * 0x100_0000 + ip[1] * 0x1_0000 + ip[2] * 0x100 + ip[3]
}

/// The key of a frame from `ip` and `port`, of whose payload at most `limit` bytes count.
pub open spec fn frame_key(ip: Seq<u8>, port: u16, payload: Seq<u8>, limit: int) -> u64 {
    let head = if payload.len() <= limit {
        payload
    } else {
        payload.take(limit)
    };
    fnv(head) ^ (ip_number(ip) as u64) ^ ((port as u64) << 32u64)
}

/// The 64-bit FNV-1a hash.
pub fn fnv1a_64(data: &[u8]) -> (h: u64)
    ensures
        h == fnv(data@),
{
    let mut h: u64 = FNV_OFFSET;
    let mut i: usize = 0;
    assert(data@.take(0).len() == 0);
    while i < data.len()
        invariant
            i <= data@.len(),
            h == fnv(data@.take(i as int)),
        decreases data@.len() - i,
    {
        let ghost next = data@.take(i + 1);
        assert(next.drop_last() =~= data@.take(i as int));
        h = (h ^ (data[i] as u64)).wrapping_mul(FNV_PRIME);
        i = i + 1;
    }
    assert(data@.take(i as int) =~= data@);
    h
}

/// The key of a frame from `ip` and `port`, of whose payload at most `limit` bytes count.
pub fn key_of(ip: [u8; 4], port: u16, payload: &[u8], limit: usize) -> (k: u64)
    ensures
        k == frame_key(ip@, port, payload@, limit as int),
{
    let hash: u64 = if payload.len() <= limit {
        fnv1a_64(payload)
    } else {
        fnv1a_64(vstd::slice::slice_subrange(payload, 0, limit))
    };
    assert(payload@.len() > limit ==> payload@.subrange(0, limit as int) =~= payload@.take(
        limit as int,
    ));
    let bits: u64 = ip[0] as u64 * 0x100_0000 + ip[1] as u64 * 0x1_0000 + ip[2] as u64 * 0x100
        + ip[3] as u64;
    hash ^ bits ^ ((port as u64) << 32u64)
}

} // verus!
