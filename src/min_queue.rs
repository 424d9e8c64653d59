use binary_heap_plus::{BinaryHeap, MinComparator};
use vstd::multiset::Multiset;
use vstd::prelude::*;

verus! {

/// `binary_heap_plus::BinaryHeap`, held opaque: its entries are named by
/// `heap_items`.
#[verifier::external_type_specification]
#[verifier::external_body]
#[verifier::reject_recursive_types(T)]
#[verifier::reject_recursive_types(C)]
pub struct ExBinaryHeap<T, C>(BinaryHeap<T, C>);

/// `binary_heap_plus::MinComparator`, the reversed order that makes a min-heap.
#[verifier::external_type_specification]
#[verifier::external_body]
pub struct ExMinComparator(MinComparator);

/// An entry of a `MinQueue`: a time key and the index of the entity it stands for.
pub type Entry = (u64, usize);

/// The entries held by a min-heap of `binary_heap_plus`.
pub uninterp spec fn heap_items(h: BinaryHeap<Entry, MinComparator>) -> Multiset<Entry>;

/// The order of tuples as std defines it: lexicographic.
pub open spec fn entry_le(a: Entry, b: Entry) -> bool {
    a.0 < b.0 || (a.0 == b.0 && a.1 <= b.1)
}

/// `x` is a least entry of `m`.
pub open spec fn is_least(m: Multiset<Entry>, x: Entry) -> bool {
    &&& m.contains(x)
    &&& forall|y: Entry| #[trigger] m.contains(y) ==> entry_le(x, y)
}

/// The least entry of `m`, when it has entries.
pub open spec fn least_entry(m: Multiset<Entry>) -> Entry {
    choose|x: Entry| is_least(m, x)
}

/// Whether the least entry of `m` has a key of `now` or earlier.
pub open spec fn is_due(m: Multiset<Entry>, now: u64) -> bool {
    m.len() > 0 && least_entry(m).0 <= now
}

/// Taking least entries from `m` while their key is `now` or earlier, for at
/// most `steps` entries: the indices taken, in order, and what remains.
pub open spec fn take_due(m: Multiset<Entry>, now: u64, steps: nat) -> (Seq<usize>, Multiset<Entry>)
    decreases steps,
{
    if steps == 0 || !is_due(m, now) {
        (Seq::empty(), m)
    } else {
        let x = least_entry(m);
        let rest = take_due(m.remove(x), now, (steps - 1) as nat);
        (seq![x.1] + rest.0, rest.1)
    }
}

/// A multiset has at most one least entry, and `least_entry` is it.
pub proof fn lemma_least_unique(m: Multiset<Entry>, x: Entry)
    requires
        is_least(m, x),
    ensures
        least_entry(m) == x,
{
    let y = least_entry(m);
    assert(is_least(m, y));
    assert(entry_le(x, y) && entry_le(y, x));
}

/// One step of `take_due` from a least entry that is due.
pub proof fn lemma_take_due_step(m: Multiset<Entry>, now: u64, x: Entry)
    requires
        is_least(m, x),
        x.0 <= now,
    ensures
        take_due(m, now, m.len()).0 == seq![x.1] + take_due(m.remove(x), now, m.remove(x).len()).0,
        take_due(m, now, m.len()).1 == take_due(m.remove(x), now, m.remove(x).len()).1,
{
    lemma_least_unique(m, x);
    assert(m.count(x) > 0);
    assert(m.remove(x).len() == m.len() - 1);
}

/// `take_due` takes nothing from a multiset whose least entry is not due.
pub proof fn lemma_take_due_stop(m: Multiset<Entry>, now: u64)
    requires
        m.len() == 0 || exists|x: Entry| is_least(m, x) && now < x.0,
    ensures
        take_due(m, now, m.len()).0 == Seq::<usize>::empty(),
        take_due(m, now, m.len()).1 == m,
{
    if m.len() > 0 {
        let x = choose|x: Entry| is_least(m, x) && now < x.0;
        lemma_least_unique(m, x);
    }
}

/// Relies on `BinaryHeap::new_min`: an empty heap ordered by `MinComparator`.
#[verifier::external_body]
fn heap_new() -> (r: BinaryHeap<Entry, MinComparator>)
    ensures
        heap_items(r) =~= Multiset::<Entry>::empty(),
{
    BinaryHeap::new_min()
}

/// Relies on `BinaryHeap::with_capacity_min`: an empty min-heap with room reserved.
#[verifier::external_body]
fn heap_with_capacity(capacity: usize) -> (r: BinaryHeap<Entry, MinComparator>)
    ensures
        heap_items(r) =~= Multiset::<Entry>::empty(),
{
    BinaryHeap::with_capacity_min(capacity)
}

/// Relies on `BinaryHeap::push`: the item joins the heap.
#[verifier::external_body]
fn heap_push(h: &mut BinaryHeap<Entry, MinComparator>, item: Entry)
    ensures
        heap_items(*final(h)) =~= heap_items(*old(h)).insert(item),
{
    h.push(item)
}

/// Relies on `BinaryHeap::pop`: with `MinComparator` (which reverses `Ord`)
/// it removes and returns a least item, or `None` when the heap is empty.
#[verifier::external_body]
fn heap_pop(h: &mut BinaryHeap<Entry, MinComparator>) -> (r: Option<Entry>)
    ensures
        match r {
            None => heap_items(*old(h)).len() == 0 && heap_items(*final(h)) == heap_items(*old(h)),
            Some(x) => is_least(heap_items(*old(h)), x) && heap_items(*final(h)) =~= heap_items(
                *old(h),
            ).remove(x),
        },
{
    h.pop()
}

/// Relies on `BinaryHeap::peek`: the item that `pop` would return, or `None`
/// when the heap is empty.
#[verifier::external_body]
fn heap_peek(h: &BinaryHeap<Entry, MinComparator>) -> (r: Option<Entry>)
    ensures
        match r {
            None => heap_items(*h).len() == 0,
            Some(x) => is_least(heap_items(*h), x),
        },
{
    h.peek().copied()
}

/// Relies on `BinaryHeap::len`: the number of items.
#[verifier::external_body]
fn heap_len(h: &BinaryHeap<Entry, MinComparator>) -> (r: usize)
    ensures
        r == heap_items(*h).len(),
{
    h.len()
}

/// Relies on `BinaryHeap::clear`: every item is removed.
#[verifier::external_body]
fn heap_clear(h: &mut BinaryHeap<Entry, MinComparator>)
    ensures
        heap_items(*final(h)) =~= Multiset::<Entry>::empty(),
{
    h.clear()
}

/// Relies on `BinaryHeap::capacity`: the room of its vector, never less
/// than the number of items.
#[verifier::external_body]
fn heap_capacity(h: &BinaryHeap<Entry, MinComparator>) -> (r: usize)
    ensures
        r >= heap_items(*h).len(),
{
    h.capacity()
}

/// How many entries may be asked room for: an entry takes at most 16 bytes,
/// and a vector that grows at most doubles the room asked, which must stay
/// within `isize::MAX` bytes.
pub open spec fn room_limit() -> int {
    isize::MAX as int / 32
}

/// Relies on `BinaryHeap::reserve` (the vector's `reserve`, which panics only
/// when the new room exceeds `isize::MAX` bytes): only the room changes.
#[verifier::external_body]
fn heap_reserve(h: &mut BinaryHeap<Entry, MinComparator>, additional: usize)
    requires
        heap_items(*old(h)).len() + additional <= room_limit(),
    ensures
        heap_items(*final(h)) == heap_items(*old(h)),
{
    h.reserve(additional)
}

/// Relies on `BinaryHeap::reserve_exact` (the vector's `reserve_exact`, which
/// panics only when the new room exceeds `isize::MAX` bytes): only the room
/// changes.
#[verifier::external_body]
fn heap_reserve_exact(h: &mut BinaryHeap<Entry, MinComparator>, additional: usize)
    requires
        heap_items(*old(h)).len() + additional <= room_limit(),
    ensures
        heap_items(*final(h)) == heap_items(*old(h)),
{
    h.reserve_exact(additional)
}

/// Relies on `BinaryHeap::shrink_to_fit`: only the room changes.
#[verifier::external_body]
fn heap_shrink_to_fit(h: &mut BinaryHeap<Entry, MinComparator>)
    ensures
        heap_items(*final(h)) == heap_items(*old(h)),
{
    h.shrink_to_fit()
}

/// Relies on `BinaryHeap::shrink_to`: only the room changes.
#[verifier::external_body]
fn heap_shrink_to(h: &mut BinaryHeap<Entry, MinComparator>, min_capacity: usize)
    ensures
        heap_items(*final(h)) == heap_items(*old(h)),
{
    h.shrink_to(min_capacity)
}

/// A min-priority queue of `(key, index)` entries: `pop` and `peek` yield a
/// least entry in the lexicographic order of the tuple.
pub struct MinQueue {
    inner: BinaryHeap<Entry, MinComparator>,
}

impl View for MinQueue {
    type V = Multiset<Entry>;

    closed spec fn view(&self) -> Multiset<Entry> {
        heap_items(self.inner)
    }
}

impl MinQueue {
    pub fn new() -> (r: Self)
        ensures
            r@ =~= Multiset::<Entry>::empty(),
    {
        MinQueue { inner: heap_new() }
    }

    pub fn with_capacity(capacity: usize) -> (r: Self)
        ensures
            r@ =~= Multiset::<Entry>::empty(),
    {
        MinQueue { inner: heap_with_capacity(capacity) }
    }

    /// Removes and returns a least entry, or `None` when the queue is empty.
    pub fn pop(&mut self) -> (r: Option<Entry>)
        ensures
            match r {
                None => old(self)@.len() == 0 && final(self)@ == old(self)@,
                Some(x) => is_least(old(self)@, x) && final(self)@ =~= old(self)@.remove(x),
            },
    {
        heap_pop(&mut self.inner)
    }

    pub fn push(&mut self, item: Entry)
        ensures
            final(self)@ =~= old(self)@.insert(item),
    {
        heap_push(&mut self.inner, item)
    }

    /// A least entry, or `None` when the queue is empty.
    pub fn peek(&self) -> (r: Option<Entry>)
        ensures
            match r {
                None => self@.len() == 0,
                Some(x) => is_least(self@, x),
            },
    {
        heap_peek(&self.inner)
    }

    pub fn len(&self) -> (r: usize)
        ensures
            r == self@.len(),
    {
        heap_len(&self.inner)
    }

    pub fn is_empty(&self) -> (r: bool)
        ensures
            r == (self@.len() == 0),
    {
        self.len() == 0
    }

    /// How many entries the queue can hold without reallocating.
    pub fn capacity(&self) -> (r: usize)
        ensures
            r >= self@.len(),
    {
        heap_capacity(&self.inner)
    }

    /// Makes room for at least `additional` more entries; the entries stay.
    pub fn reserve(&mut self, additional: usize)
        requires
            old(self)@.len() + additional <= room_limit(),
        ensures
            final(self)@ == old(self)@,
    {
        heap_reserve(&mut self.inner, additional)
    }

    /// Makes room for exactly `additional` more entries, as far as the
    /// allocator allows; the entries stay.
    pub fn reserve_exact(&mut self, additional: usize)
        requires
            old(self)@.len() + additional <= room_limit(),
        ensures
            final(self)@ == old(self)@,
    {
        heap_reserve_exact(&mut self.inner, additional)
    }

    /// Gives back unused room; the entries stay.
    pub fn shrink_to_fit(&mut self)
        ensures
            final(self)@ == old(self)@,
    {
        heap_shrink_to_fit(&mut self.inner)
    }

    /// Gives back unused room down to `min_capacity`; the entries stay.
    pub fn shrink_to(&mut self, min_capacity: usize)
        ensures
            final(self)@ == old(self)@,
    {
        heap_shrink_to(&mut self.inner, min_capacity)
    }

    /// Removes every entry.
    pub fn drain(&mut self)
        ensures
            final(self)@ =~= Multiset::<Entry>::empty(),
    {
        heap_clear(&mut self.inner)
    }
}

} // verus!
