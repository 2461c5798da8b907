use vstd::prelude::*;
use slotmap::DefaultKey;
use slotmap::SlotMap;
use crate::protocol::ProtocolID;
use crate::query_manager::key_norm;

verus! {

/// The handle of a timer: the 64-bit form of its slot map key.
#[derive(Clone, Copy, Debug, Hash, PartialEq, Eq, Structural)]
pub struct TimerID {
    pub raw: u64,
}

/// Whether a timer fires once or again and again, every so many milliseconds.
#[derive(Clone, Copy, Debug, PartialEq, Eq, Structural)]
pub enum TimerKind {
    OneShot,
    Periodic(u64),
}

/// A timer and the protocol that it belongs to.
#[derive(Clone, Copy, Debug, PartialEq, Eq, Structural)]
pub struct Timer {
    pub kind: TimerKind,
    pub protocol_id: ProtocolID,
}

/// When a timer is due, in milliseconds.
#[derive(Clone, Copy, Debug, PartialEq, Eq, Structural)]
pub struct HeapKey {
    pub id: TimerID,
    pub deadline: u64,
}

/// What the timer service does next.
#[derive(Clone, Copy, Debug, PartialEq, Eq, Structural)]
pub enum TimerStep {
    /// No timer is set: wait for one.
    Idle,
    /// The next timer is due at this time: sleep until then, or until a timer is set.
    Wait(u64),
    /// This timer is due: tell its protocol.
    Expired { id: TimerID, protocol_id: ProtocolID },
    /// A timer that was cancelled came due: nothing to tell.
    Skipped,
}

/// The timers, held in a `slotmap::SlotMap` under its default key type.
#[verifier::external_body]
pub struct TimerSlots {
    inner: SlotMap<DefaultKey, Timer>,
}

/// The timers that a slot map holds, each under the 64-bit form of its key.
pub uninterp spec fn timer_contents(m: TimerSlots) -> Map<u64, Timer>;

/// The number of timers that a slot map holds.
pub uninterp spec fn timer_count(m: TimerSlots) -> nat;

/// No timers.
pub open spec fn no_timers() -> Map<u64, Timer> {
    Map::empty()
}

/// `SlotMap::new`: a map without values.
#[verifier::external_body]
fn timers_new() -> (m: TimerSlots)
    ensures
        timer_contents(m) == no_timers(),
        timer_count(m) == 0,
{
    TimerSlots { inner: SlotMap::new() }
}

/// `SlotMap::len`: the number of values held.
#[verifier::external_body]
fn timers_len(m: &TimerSlots) -> (r: usize)
    ensures
        r == timer_count(*m),
{
    m.inner.len()
}

/// `SlotMap::insert`, which panics once 2^32 - 2 values are held and no
/// slot is free. The value goes in under a key that was not in use; the
/// key's 64-bit form, from `KeyData::as_ffi`, has the lowest version bit set.
#[verifier::external_body]
fn timers_insert(m: &mut TimerSlots, t: Timer) -> (r: u64)
    requires
        timer_count(*old(m)) + 1 < u32::MAX,
    ensures
        !timer_contents(*old(m)).dom().contains(r),
        key_norm(r) == r,
        timer_contents(*final(m)) == timer_contents(*old(m)).insert(r, t),
        timer_count(*final(m)) == timer_count(*old(m)) + 1,
{
    slotmap::Key::data(&m.inner.insert(t)).as_ffi()
}

/// `SlotMap::remove` with the key that `KeyData::from_ffi` reads from
/// `raw`: the value under that key leaves the map and is returned; without
/// one nothing changes.
#[verifier::external_body]
fn timers_remove(m: &mut TimerSlots, raw: u64) -> (r: Option<Timer>)
    ensures
        r.is_some() <==> timer_contents(*old(m)).dom().contains(key_norm(raw)),
        r.is_some() ==> r.unwrap() == timer_contents(*old(m))[key_norm(raw)] && timer_contents(
            *final(m),
        ) == timer_contents(*old(m)).remove(key_norm(raw)) && timer_count(*final(m)) + 1
            == timer_count(*old(m)),
        r.is_none() ==> *final(m) == *old(m),
{
    m.inner.remove(DefaultKey::from(slotmap::KeyData::from_ffi(raw)))
}

/// `SlotMap::get` with the key that `KeyData::from_ffi` reads from `raw`:
/// a copy of the value under that key.
#[verifier::external_body]
fn timers_get(m: &TimerSlots, raw: u64) -> (r: Option<Timer>)
    ensures
        r.is_some() <==> timer_contents(*m).dom().contains(key_norm(raw)),
        r.is_some() ==> r.unwrap() == timer_contents(*m)[key_norm(raw)],
{
    m.inner.get(DefaultKey::from(slotmap::KeyData::from_ffi(raw))).copied()
}

/// The deadlines never decrease along `s`.
pub open spec fn deadlines_sorted(s: Seq<HeapKey>) -> bool {
    forall|i: int, j: int| 0 <= i < j < s.len() ==> (#[trigger] s[i]).deadline <= (#[trigger] s[j]).deadline
}

/// Where a key with `deadline` goes: behind the keys that are due no later.
pub open spec fn heap_place(s: Seq<HeapKey>, deadline: u64) -> int
    decreases s.len(),
{
    if s.len() == 0 {
        0
    } else if s[0].deadline <= deadline {
        1 + heap_place(s.skip(1), deadline)
    } else {
        0
    }
}

/// The point in time `delay` after `now`, or the last point that there is.
pub open spec fn spec_deadline(now: u64, delay: u64) -> u64 {
    if now + delay > u64::MAX {
        u64::MAX
    } else {
        (now + delay) as u64
    }
}

pub proof fn lemma_heap_place(s: Seq<HeapKey>, deadline: u64)
    requires
        deadlines_sorted(s),
    ensures
        0 <= heap_place(s, deadline) <= s.len(),
        forall|j: int| 0 <= j < heap_place(s, deadline) ==> (#[trigger] s[j]).deadline <= deadline,
        forall|j: int| heap_place(s, deadline) <= j < s.len() ==> deadline < (#[trigger] s[j]).deadline,
    decreases s.len(),
{
    if s.len() > 0 {
        let t = s.skip(1);
        assert forall|a: int, b: int| 0 <= a < b < t.len() implies (#[trigger] t[a]).deadline <= (
        #[trigger] t[b]).deadline by {
            assert(t[a] == s[a + 1] && t[b] == s[b + 1]);
        }
        if s[0].deadline <= deadline {
            lemma_heap_place(t, deadline);
            let p = heap_place(s, deadline);
            assert forall|j: int| 0 <= j < p implies (#[trigger] s[j]).deadline <= deadline by {
                if j > 0 {
                    assert(t[j - 1] == s[j]);
                }
            }
            assert forall|j: int| p <= j < s.len() implies deadline < (#[trigger] s[j]).deadline by {
                assert(t[j - 1] == s[j]);
            }
        } else {
            assert forall|j: int| 0 <= j < s.len() implies deadline < (#[trigger] s[j]).deadline by {
                if j > 0 {
                    assert(s[0].deadline <= s[j].deadline);
                }
            }
        }
    }
}

/// Putting a key at its place keeps the deadlines in order.
pub proof fn lemma_heap_insert_sorted(s: Seq<HeapKey>, key: HeapKey)
    requires
        deadlines_sorted(s),
    ensures
        deadlines_sorted(s.insert(heap_place(s, key.deadline), key)),
{
    lemma_heap_place(s, key.deadline);
    let p = heap_place(s, key.deadline);
    let t = s.insert(p, key);
    s.insert_ensures(p, key);
    assert forall|a: int| 0 <= a < t.len() implies (#[trigger] t[a]) == (if a < p {
        s[a]
    } else if a == p {
        key
    } else {
        s[a - 1]
    }) by {
        if a > p {
            assert(t[(a - 1) + 1] == s[a - 1]);
        }
    }
    assert forall|a: int, b: int| 0 <= a < b < t.len() implies (#[trigger] t[a]).deadline <= (
    #[trigger] t[b]).deadline by {
        let sa = if a < p { a } else { a - 1 };
        let sb = if b < p { b } else { b - 1 };
        if a != p && b != p {
            assert(t[a] == s[sa] && t[b] == s[sb]);
            if sa < sb {
                assert(s[sa].deadline <= s[sb].deadline);
            }
        } else if a == p {
            assert(t[b] == s[sb]);
        } else {
            assert(t[a] == s[sa]);
        }
    }
}

/// The timers of the node, ordered by deadline.
pub struct TimerHeap {
    heap: Vec<HeapKey>,
    timers: TimerSlots,
}

impl TimerHeap {
    /// The keys that wait, earliest deadline first.
    pub closed spec fn keys(&self) -> Seq<HeapKey> {
        self.heap@
    }

    /// The timers that are set, by the 64-bit form of their handles.
    pub closed spec fn timers(&self) -> Map<u64, Timer> {
        timer_contents(self.timers)
    }

    /// The number of timers that are set.
    pub closed spec fn count(&self) -> nat {
        timer_count(self.timers)
    }

    /// The keys wait in the order of their deadlines.
    pub open spec fn wf(&self) -> bool {
        deadlines_sorted(self.keys())
    }

    pub fn new() -> (r: Self)
        ensures
            r.wf(),
            r.keys() == Seq::<HeapKey>::empty(),
            r.timers() == no_timers(),
            r.count() == 0,
    {
        Self { heap: Vec::new(), timers: timers_new() }
    }

    /// Sets a timer that is due `delay` milliseconds after `now`. No timer
    /// is set while the collection is full.
    pub fn create(&mut self, protocol_id: ProtocolID, kind: TimerKind, delay: u64, now: u64) -> (r:
        Option<TimerID>)
        requires
            old(self).wf(),
        ensures
            final(self).wf(),
            r.is_none() <==> old(self).count() + 1 >= u32::MAX,
            r.is_none() ==> final(self).keys() == old(self).keys() && final(self).timers() == old(self).timers(),
            r.is_some() ==> !old(self).timers().dom().contains(r.unwrap().raw) && key_norm(
                r.unwrap().raw,
            ) == r.unwrap().raw && final(self).timers() == old(self).timers().insert(
                r.unwrap().raw,
                Timer { kind, protocol_id },
            ) && final(self).keys() == old(self).keys().insert(
                heap_place(old(self).keys(), spec_deadline(now, delay)),
                HeapKey { id: r.unwrap(), deadline: spec_deadline(now, delay) },
            ) && final(self).count() == old(self).count() + 1,
    {
        if timers_len(&self.timers) >= (u32::MAX - 1) as usize {
            return None;
        }
        let deadline = now.saturating_add(delay);
        let raw = timers_insert(&mut self.timers, Timer { kind, protocol_id });
        let id = TimerID { raw };
        self.push_key(HeapKey { id, deadline });
        Some(id)
    }

    /// Cancels a timer. Its key stays and is skipped when it comes due.
    pub fn cancel(&mut self, timer_id: TimerID) -> (r: bool)
        requires
            old(self).wf(),
        ensures
            final(self).wf(),
            final(self).keys() == old(self).keys(),
            r == old(self).timers().dom().contains(key_norm(timer_id.raw)),
            final(self).timers() == old(self).timers().remove(key_norm(timer_id.raw)),
    {
        let gone = timers_remove(&mut self.timers, timer_id.raw);
        proof {
            if gone.is_none() {
                assert(self.timers() =~= old(self).timers().remove(key_norm(timer_id.raw)));
            }
        }
        gone.is_some()
    }

    /// The earliest deadline among the keys that wait.
    pub fn next_deadline(&self) -> (r: Option<u64>)
        ensures
            r == (if self.keys().len() == 0 {
                None
            } else {
                Some(self.keys()[0].deadline)
            }),
    {
        if self.heap.len() == 0 {
            None
        } else {
            Some(self.heap[0].deadline)
        }
    }

    /// One step of the timer service at time `now`. Without keys it is
    /// idle; before the earliest deadline it waits; else the earliest key
    /// leaves: a one-shot timer expires and is gone, a periodic timer
    /// expires and is due again one interval after `now`, and the key of a
    /// cancelled timer is skipped.
    pub fn step(&mut self, now: u64) -> (r: TimerStep)
        requires
            old(self).wf(),
        ensures
            final(self).wf(),
            old(self).keys().len() == 0 ==> r == TimerStep::Idle && final(self).keys() == old(self).keys() && final(self).timers() == old(self).timers(),
            old(self).keys().len() > 0 && old(self).keys()[0].deadline > now ==> r
                == TimerStep::Wait(old(self).keys()[0].deadline) && final(self).keys() == old(self).keys() && final(self).timers() == old(self).timers(),
            old(self).keys().len() > 0 && old(self).keys()[0].deadline <= now ==> fired(
                old(self).keys(),
                old(self).timers(),
                now,
                r,
                final(self).keys(),
                final(self).timers(),
            ),
    {
        if self.heap.len() == 0 {
            return TimerStep::Idle;
        }
        let key = self.heap[0];
        if key.deadline > now {
            return TimerStep::Wait(key.deadline);
        }
        let ghost before = self.heap@;
        let _ = self.heap.remove(0);
        proof {
            let rest = self.heap@;
            assert(rest =~= before.skip(1));
            assert forall|a: int, b: int| 0 <= a < b < rest.len() implies (#[trigger] rest[a]).deadline
                <= (#[trigger] rest[b]).deadline by {
                assert(rest[a] == before[a + 1] && rest[b] == before[b + 1]);
            }
        }
        match timers_get(&self.timers, key.id.raw) {
            None => TimerStep::Skipped,
            Some(timer) => {
                match timer.kind {
                    TimerKind::OneShot => {
                        let _ = timers_remove(&mut self.timers, key.id.raw);
                    },
                    TimerKind::Periodic(period) => {
                        self.push_key(HeapKey { id: key.id, deadline: now.saturating_add(period) });
                    },
                }
                TimerStep::Expired { id: key.id, protocol_id: timer.protocol_id }
            },
        }
    }

    /// Puts a key behind the keys that are due no later.
    fn push_key(&mut self, key: HeapKey)
        requires
            deadlines_sorted(old(self).heap@),
        ensures
            final(self).heap@ == old(self).heap@.insert(
                heap_place(old(self).heap@, key.deadline),
                key,
            ),
            deadlines_sorted(final(self).heap@),
            final(self).timers == old(self).timers,
    {
        let ghost s = self.heap@;
        let mut i: usize = 0;
        assert(s.skip(0) =~= s);
        while i < self.heap.len() && self.heap[i].deadline <= key.deadline
            invariant
                i <= s.len(),
                s == self.heap@,
                heap_place(s, key.deadline) == i + heap_place(s.skip(i as int), key.deadline),
            decreases s.len() - i,
        {
            assert(s.skip(i as int)[0] == s[i as int]);
            assert(s.skip(i as int).skip(1) =~= s.skip(i + 1));
            i += 1;
        }
        proof {
            if i < s.len() {
                assert(s.skip(i as int)[0] == s[i as int]);
            }
            lemma_heap_insert_sorted(s, key);
        }
        self.heap.insert(i, key);
    }
}

/// What the step that takes the earliest key off does: `r` tells whether
/// its timer expired, and the keys and timers are those that remain.
pub open spec fn fired(
    keys: Seq<HeapKey>,
    timers: Map<u64, Timer>,
    now: u64,
    r: TimerStep,
    keys_after: Seq<HeapKey>,
    timers_after: Map<u64, Timer>,
) -> bool {
    let key = keys[0];
    let rest = keys.skip(1);
    let slot = key_norm(key.id.raw);
    if !timers.dom().contains(slot) {
        r == TimerStep::Skipped && keys_after == rest && timers_after == timers
    } else {
        r == (TimerStep::Expired { id: key.id, protocol_id: timers[slot].protocol_id }) && (
        match timers[slot].kind {
            TimerKind::OneShot => keys_after == rest && timers_after == timers.remove(slot),
            TimerKind::Periodic(period) => timers_after == timers && keys_after == rest.insert(
                heap_place(rest, spec_deadline(now, period)),
                HeapKey { id: key.id, deadline: spec_deadline(now, period) },
            ),
        })
    }
}

} // verus!
