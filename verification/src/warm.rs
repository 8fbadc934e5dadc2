//! The warm-up queue: rotates through the enabled sources so that their
//! metadata is refreshed in the background.

use crate::identity::{identity_views, Identity};
use crate::utils::DAY_NS;
use std::collections::VecDeque;
use vstd::prelude::*;

verus! {

/// Entries looked at per heartbeat.
pub const ITEMS_PER_TICK: usize = 3;

/// Queue bound when none is configured.
pub const DEFAULT_MAX_QUEUE_SIZE: usize = 128;

/// One source in the queue.
pub struct Entry {
    /// The source.
    pub cid: Identity,
    /// Time from which the source is due for a refresh.
    pub next: u64,
}

/// Mathematical value of an [`Entry`].
pub struct EntryView {
    pub cid: Seq<u8>,
    pub next: u64,
}

impl View for Entry {
    type V = EntryView;

    open spec fn view(&self) -> EntryView {
        EntryView { cid: self.cid@, next: self.next }
    }
}

/// The values of a list of entries, in order.
pub open spec fn entry_views(q: Seq<Entry>) -> Seq<EntryView> {
    q.map_values(|e: Entry| e@)
}

/// The sources of a list of entries, in order.
pub open spec fn sources(q: Seq<EntryView>) -> Seq<Seq<u8>> {
    q.map_values(|e: EntryView| e.cid)
}

/// `ids` without repetitions: each value at the place of its first
/// occurrence.
pub open spec fn distinct(ids: Seq<Seq<u8>>) -> Seq<Seq<u8>>
    decreases ids.len(),
{
    if ids.len() == 0 {
        ids
    } else if distinct(ids.drop_last()).contains(ids.last()) {
        distinct(ids.drop_last())
    } else {
        distinct(ids.drop_last()).push(ids.last())
    }
}

/// The first `max` values of `s`.
pub open spec fn truncated<A>(s: Seq<A>, max: nat) -> Seq<A> {
    if s.len() <= max {
        s
    } else {
        s.take(max as int)
    }
}

/// True when the source of an entry is due at `now`.
pub open spec fn due(e: EntryView, now: u64) -> bool {
    now >= e.next
}

/// An entry after it was looked at: one that was due is due again a day
/// later.
pub open spec fn served(e: EntryView, now: u64) -> EntryView {
    if due(e, now) {
        EntryView { next: (now + DAY_NS) as u64, ..e }
    } else {
        e
    }
}

/// The queue after its front entry was looked at and moved to the back.
pub open spec fn rotated(q: Seq<EntryView>, now: u64) -> Seq<EntryView> {
    if q.len() == 0 {
        q
    } else {
        q.skip(1).push(served(q[0], now))
    }
}

/// The queue after `steps` entries were looked at.
pub open spec fn rotated_by(q: Seq<EntryView>, now: u64, steps: nat) -> Seq<EntryView>
    decreases steps,
{
    if steps == 0 {
        q
    } else {
        rotated(rotated_by(q, now, (steps - 1) as nat), now)
    }
}

/// The sources found due while `steps` entries were looked at, in order.
pub open spec fn warmed_by(q: Seq<EntryView>, now: u64, steps: nat) -> Seq<Seq<u8>>
    decreases steps,
{
    if steps == 0 {
        Seq::empty()
    } else {
        let before = rotated_by(q, now, (steps - 1) as nat);
        let earlier = warmed_by(q, now, (steps - 1) as nat);
        if before.len() > 0 && due(before[0], now) {
            earlier.push(before[0].cid)
        } else {
            earlier
        }
    }
}

/// A sequence with its first value moved to the back.
pub open spec fn cycled<A>(s: Seq<A>) -> Seq<A> {
    if s.len() == 0 {
        s
    } else {
        s.skip(1).push(s[0])
    }
}

/// [`cycled`], `steps` times.
pub open spec fn cycled_by<A>(s: Seq<A>, steps: nat) -> Seq<A>
    decreases steps,
{
    if steps == 0 {
        s
    } else {
        cycled(cycled_by(s, (steps - 1) as nat))
    }
}

/// Mathematical value of a [`WarmQueue`].
pub struct WarmQueueView {
    /// The entries, front first.
    pub entries: Seq<EntryView>,
    /// The bound on the number of entries.
    pub capacity: nat,
}

/// The warm-up queue.
pub struct WarmQueue {
    queue: VecDeque<Entry>,
    capacity: usize,
}

impl View for WarmQueue {
    type V = WarmQueueView;

    closed spec fn view(&self) -> WarmQueueView {
        WarmQueueView { entries: entry_views(self.queue@), capacity: self.capacity as nat }
    }
}

/// True for a queue that respects its bound and names no source twice.
pub open spec fn well_formed(v: WarmQueueView) -> bool {
    v.entries.len() <= v.capacity && sources(v.entries).no_duplicates()
}

/// Looking at the front entry moves its source to the back and changes no
/// other.
pub proof fn lemma_rotated_sources(q: Seq<EntryView>, now: u64)
    ensures
        sources(rotated(q, now)) == cycled(sources(q)),
        rotated(q, now).len() == q.len(),
{
    if q.len() > 0 {
        assert(sources(rotated(q, now)) =~= cycled(sources(q)));
    }
}

/// Moving the first value to the back introduces no repetition.
pub proof fn lemma_cycled_distinct<A>(s: Seq<A>)
    requires
        s.no_duplicates(),
    ensures
        cycled(s).no_duplicates(),
        cycled(s).len() == s.len(),
{
    if s.len() > 0 {
        let c = cycled(s);
        assert forall|i: int, j: int| 0 <= i < c.len() && 0 <= j < c.len() && i != j implies c[i]
            != c[j] by {
            let a = if i < s.len() - 1 { i + 1 } else { 0 };
            let b = if j < s.len() - 1 { j + 1 } else { 0 };
            assert(c[i] == s[a]);
            assert(c[j] == s[b]);
        }
    }
}

/// Every heartbeat advances the queue by a fixed number of slots whether or
/// not anything was due: the sources are the old ones moved `steps` places,
/// and a well-formed queue stays well-formed.
pub proof fn lemma_fair_rotation(q: Seq<EntryView>, now: u64, steps: nat)
    ensures
        sources(rotated_by(q, now, steps)) == cycled_by(sources(q), steps),
        rotated_by(q, now, steps).len() == q.len(),
        sources(q).no_duplicates() ==> sources(rotated_by(q, now, steps)).no_duplicates(),
    decreases steps,
{
    if steps > 0 {
        let prev = rotated_by(q, now, (steps - 1) as nat);
        lemma_fair_rotation(q, now, (steps - 1) as nat);
        lemma_rotated_sources(prev, now);
        if sources(q).no_duplicates() {
            lemma_cycled_distinct(sources(prev));
        }
    }
}

/// No value occurs twice in [`distinct`], and it holds exactly the values
/// of its argument.
pub proof fn lemma_distinct(ids: Seq<Seq<u8>>)
    ensures
        distinct(ids).no_duplicates(),
        distinct(ids).len() <= ids.len(),
        forall|x: Seq<u8>| distinct(ids).contains(x) <==> ids.contains(x),
    decreases ids.len(),
{
    if ids.len() > 0 {
        let rest = ids.drop_last();
        let last = ids.last();
        lemma_distinct(rest);
        let d = distinct(rest);
        assert forall|x: Seq<u8>| distinct(ids).contains(x) <==> ids.contains(x) by {
            assert(d.contains(x) <==> rest.contains(x));
            if ids.contains(x) {
                let i = choose|i: int| 0 <= i < ids.len() && ids[i] == x;
                if i < ids.len() - 1 {
                    assert(rest[i] == x);
                    assert(rest.contains(x));
                    let k = choose|k: int| 0 <= k < d.len() && d[k] == x;
                    assert(distinct(ids)[k] == x);
                } else if d.contains(last) {
                } else {
                    assert(distinct(ids)[d.len() as int] == x);
                }
                assert(distinct(ids).contains(x));
            }
            if distinct(ids).contains(x) {
                let k = choose|k: int| 0 <= k < distinct(ids).len() && distinct(ids)[k] == x;
                if k < d.len() {
                    assert(d[k] == x);
                    assert(d.contains(x));
                    let i = choose|i: int| 0 <= i < rest.len() && rest[i] == x;
                    assert(ids[i] == x);
                } else {
                    assert(ids[ids.len() - 1] == x);
                }
                assert(ids.contains(x));
            }
        }
        if !d.contains(last) {
            assert forall|i: int, j: int|
                0 <= i < d.push(last).len() && 0 <= j < d.push(last).len() && i != j implies d.push(
                last,
            )[i] != d.push(last)[j] by {
                if i < d.len() {
                    assert(d.contains(d[i]));
                }
                if j < d.len() {
                    assert(d.contains(d[j]));
                }
            }
        }
    }
}

impl WarmQueue {
    #[verifier::type_invariant]
    spec fn inv(self) -> bool {
        well_formed(self@)
    }

    /// An empty queue bounded by `capacity` entries, or by
    /// [`DEFAULT_MAX_QUEUE_SIZE`] when none is given.
    pub fn new(capacity: Option<usize>) -> (q: WarmQueue)
        ensures
            q@.entries == Seq::<EntryView>::empty(),
            q@.capacity == (match capacity {
                Some(n) => n,
                None => DEFAULT_MAX_QUEUE_SIZE,
            }),
    {
        let bound = match capacity {
            Some(n) => n,
            None => DEFAULT_MAX_QUEUE_SIZE,
        };
        let q = WarmQueue { queue: VecDeque::new(), capacity: bound };
        proof {
            assert(entry_views(q.queue@) =~= Seq::<EntryView>::empty());
            assert(sources(q@.entries) =~= Seq::<Seq<u8>>::empty());
        }
        q
    }

    /// Number of entries.
    pub fn len(&self) -> (n: usize)
        ensures
            n == self@.entries.len(),
            well_formed(self@),
    {
        proof {
            use_type_invariant(self);
        }
        self.queue.len()
    }

    /// The sources in the queue, front first.
    pub fn dump(&self) -> (r: Vec<Identity>)
        ensures
            identity_views(r@) == sources(self@.entries),
            well_formed(self@),
    {
        proof {
            use_type_invariant(self);
        }
        let mut out: Vec<Identity> = Vec::new();
        let mut i: usize = 0;
        while i < self.queue.len()
            invariant
                i <= self.queue@.len(),
                out@.len() == i,
                forall|j: int| 0 <= j < i ==> out@[j]@ == self.queue@[j].cid@,
            decreases self.queue@.len() - i,
        {
            out.push(self.queue[i].cid.clone());
            i += 1;
        }
        proof {
            assert(identity_views(out@) =~= sources(self@.entries));
        }
        out
    }

    /// Rebuilds the queue from the enabled sources: the ledgers, then the
    /// exchanges, each source once at the place of its first mention, all
    /// due at `now`, and no more of them than the bound allows.
    pub fn init(&mut self, ledgers: &Vec<Identity>, dexes: &Vec<Identity>, now: u64)
        ensures
            final(self)@.capacity == old(self)@.capacity,
            sources(final(self)@.entries) == truncated(
                distinct(identity_views(ledgers@) + identity_views(dexes@)),
                old(self)@.capacity,
            ),
            forall|i: int|
                0 <= i < final(self)@.entries.len() ==> (#[trigger] final(self)@.entries[i]).next
                    == now,
            well_formed(final(self)@),
    {
        let mut queue: VecDeque<Entry> = VecDeque::new();
        let ghost all = identity_views(ledgers@) + identity_views(dexes@);
        proof {
            assert(sources(entry_views(queue@)) =~= distinct(all.take(0)));
        }
        let mut i: usize = 0;
        while i < ledgers.len()
            invariant
                i <= ledgers@.len(),
                all == identity_views(ledgers@) + identity_views(dexes@),
                sources(entry_views(queue@)) == truncated(
                    distinct(all.take(i as int)),
                    self.capacity as nat,
                ),
                sources(entry_views(queue@)).no_duplicates(),
                forall|j: int| 0 <= j < queue@.len() ==> (#[trigger] queue@[j]).next == now,
            decreases ledgers@.len() - i,
        {
            proof {
                assert(all[i as int] == ledgers@[i as int]@);
            }
            Self::offer(&mut queue, self.capacity, &ledgers[i], now, Ghost(all), Ghost(i as int));
            i += 1;
        }
        let mut k: usize = 0;
        while k < dexes.len()
            invariant
                i == ledgers@.len(),
                k <= dexes@.len(),
                all == identity_views(ledgers@) + identity_views(dexes@),
                sources(entry_views(queue@)) == truncated(
                    distinct(all.take(i + k)),
                    self.capacity as nat,
                ),
                sources(entry_views(queue@)).no_duplicates(),
                forall|j: int| 0 <= j < queue@.len() ==> (#[trigger] queue@[j]).next == now,
            decreases dexes@.len() - k,
        {
            proof {
                assert(all[i + k] == dexes@[k as int]@);
            }
            Self::offer(&mut queue, self.capacity, &dexes[k], now, Ghost(all), Ghost(i + k));
            k += 1;
        }
        proof {
            assert(all.take(i + k) =~= all);
            assert(entry_views(queue@).len() == sources(entry_views(queue@)).len());
            assert forall|j: int| 0 <= j < entry_views(queue@).len() implies (
            #[trigger] entry_views(queue@)[j]).next == now by {
                assert(queue@[j].next == now);
            }
        }
        self.queue = queue;
    }

    /// Appends `cid` unless the queue is full or names it already.
    fn offer(
        queue: &mut VecDeque<Entry>,
        capacity: usize,
        cid: &Identity,
        now: u64,
        Ghost(all): Ghost<Seq<Seq<u8>>>,
        Ghost(at): Ghost<int>,
    )
        requires
            0 <= at < all.len(),
            all[at] == cid@,
            sources(entry_views(old(queue)@)) == truncated(distinct(all.take(at)), capacity as nat),
            sources(entry_views(old(queue)@)).no_duplicates(),
            forall|j: int| 0 <= j < old(queue)@.len() ==> (#[trigger] old(queue)@[j]).next == now,
        ensures
            sources(entry_views(final(queue)@)) == truncated(
                distinct(all.take(at + 1)),
                capacity as nat,
            ),
            sources(entry_views(final(queue)@)).no_duplicates(),
            forall|j: int|
                0 <= j < final(queue)@.len() ==> (#[trigger] final(queue)@[j]).next == now,
    {
        let ghost before = sources(entry_views(queue@));
        let ghost seen = distinct(all.take(at));
        proof {
            assert(all.take(at + 1).drop_last() =~= all.take(at));
            assert(all.take(at + 1).last() == cid@);
            lemma_distinct(all.take(at));
            lemma_distinct(all.take(at + 1));
        }
        if queue.len() >= capacity {
            proof {
                assert(before.len() == queue@.len());
                if seen.contains(cid@) {
                } else {
                    assert(seen.push(cid@).take(capacity as int) =~= seen.take(capacity as int));
                    if seen.len() <= capacity {
                        assert(seen.take(capacity as int) =~= seen);
                    }
                }
            }
            return ;
        }
        proof {
            assert(before.len() == queue@.len());
            assert(before == seen);
        }
        let mut found = false;
        let mut j: usize = 0;
        while j < queue.len()
            invariant
                j <= queue@.len(),
                queue@ == old(queue)@,
                found == exists|k: int| 0 <= k < j && (#[trigger] queue@[k]).cid@ == cid@,
            decreases queue@.len() - j,
        {
            if queue[j].cid.same(cid) {
                found = true;
            }
            j += 1;
        }
        proof {
            if found {
                let k = choose|k: int| 0 <= k < queue@.len() && (#[trigger] queue@[k]).cid@ == cid@;
                assert(before[k] == cid@);
                assert(seen.contains(cid@));
            } else {
                if seen.contains(cid@) {
                    let k = choose|k: int| 0 <= k < seen.len() && seen[k] == cid@;
                    assert(queue@[k].cid@ == cid@);
                }
            }
        }
        if !found {
            queue.push_back(Entry { cid: cid.clone(), next: now });
            proof {
                assert(sources(entry_views(queue@)) =~= seen.push(cid@));
            }
        }
    }

    /// Looks at up to [`ITEMS_PER_TICK`] entries from the front: each one
    /// that is due is rescheduled a day after `now`, and each goes to the
    /// back whether it was due or not. Returns the sources to refresh.
    pub fn tick(&mut self, now: u64) -> (warm: Vec<Identity>)
        requires
            now + DAY_NS <= u64::MAX,
        ensures
            final(self)@.capacity == old(self)@.capacity,
            final(self)@.entries == rotated_by(old(self)@.entries, now, ITEMS_PER_TICK as nat),
            identity_views(warm@) == warmed_by(old(self)@.entries, now, ITEMS_PER_TICK as nat),
            well_formed(final(self)@),
    {
        proof {
            use_type_invariant(&*self);
        }
        let ghost start = self@.entries;
        let mut queue: VecDeque<Entry> = VecDeque::new();
        std::mem::swap(&mut self.queue, &mut queue);
        let mut warm: Vec<Identity> = Vec::new();
        let mut step: usize = 0;
        proof {
            assert(identity_views(warm@) =~= warmed_by(start, now, 0));
        }
        while step < ITEMS_PER_TICK
            invariant
                step <= ITEMS_PER_TICK,
                now + DAY_NS <= u64::MAX,
                entry_views(queue@) == rotated_by(start, now, step as nat),
                identity_views(warm@) == warmed_by(start, now, step as nat),
            decreases ITEMS_PER_TICK - step,
        {
            let ghost before = entry_views(queue@);
            match queue.pop_front() {
                Some(entry) => {
                    let mut entry = entry;
                    proof {
                        assert(before[0] == entry@);
                    }
                    if now >= entry.next {
                        warm.push(entry.cid.clone());
                        entry.next = now + DAY_NS;
                        proof {
                            assert(identity_views(warm@) =~= warmed_by(start, now, step as nat).push(
                                before[0].cid,
                            ));
                        }
                    }
                    queue.push_back(entry);
                    proof {
                        assert(entry_views(queue@) =~= rotated(before, now));
                    }
                },
                None => {
                    proof {
                        assert(before.len() == 0);
                        assert(entry_views(queue@) =~= rotated(before, now));
                    }
                },
            }
            step += 1;
        }
        proof {
            lemma_fair_rotation(start, now, ITEMS_PER_TICK as nat);
        }
        self.queue = queue;
        warm
    }
}

} // verus!
