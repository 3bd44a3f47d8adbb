//! Threads that wait for a word of memory to change, and how they are woken.
use std::collections::VecDeque;
use vstd::arithmetic::power::pow;
use vstd::arithmetic::power2::{
    is_pow2, is_pow2_equiv, lemma_pow2, lemma_pow2_pos, lemma_pow2_strictly_increases,
    lemma_pow2_unfold, pow2,
};
use vstd::prelude::*;

use crate::error::{Errno, Error};
use crate::task::task::Handle;

verus! {

/// Tells waiters of one futex apart.
pub type FutexBitSet = u32;

pub const FUTEX_BITSET_MATCH_ANY: FutexBitSet = 0xFFFF_FFFF;

/// The addr of a futex, it should be used to mark different futex word.
#[derive(Clone, Copy, PartialEq, Eq, Debug, Structural)]
pub struct FutexKey {
    pub addr: usize,
}

impl FutexKey {
    /// The key of the futex at an address.
    pub fn new(futex_addr: usize) -> (r: FutexKey)
        ensures
            r == (FutexKey { addr: futex_addr }),
    {
        FutexKey { addr: futex_addr }
    }

    /// The address of the futex.
    pub fn addr(&self) -> (r: usize)
        ensures
            r == self.addr,
    {
        self.addr
    }
}

/// A thread that waits for a futex.
#[derive(Clone, Copy, PartialEq, Eq, Debug, Structural)]
pub struct FutexItem {
    pub key: FutexKey,
    pub bitset: FutexBitSet,
    /// The thread.
    pub waiter: Handle,
}

impl FutexItem {
    /// A thread that waits for a futex.
    pub fn new(key: FutexKey, bitset: FutexBitSet, waiter: Handle) -> (r: FutexItem)
        ensures
            r == (FutexItem { key, bitset, waiter }),
    {
        FutexItem { key, bitset, waiter }
    }

    /// Adds the thread to those that are to be woken.
    pub fn wake(&self, woken: &mut Vec<Handle>)
        ensures
            final(woken)@ == old(woken)@.push(self.waiter),
    {
        woken.push(self.waiter);
    }

    /// Lets the thread wait for another futex.
    pub fn rekey(&mut self, new_key: FutexKey)
        ensures
            *final(self) == (FutexItem { key: new_key, ..*old(self) }),
    {
        self.key = new_key;
    }
}

/// The items that a wake-up is for.
pub open spec fn wakes(key: FutexKey, bitset: FutexBitSet) -> spec_fn(FutexItem) -> bool {
    |item: FutexItem| item.key == key && bitset & item.bitset != 0
}

/// The items of a futex.
pub open spec fn waits_for(key: FutexKey) -> spec_fn(FutexItem) -> bool {
    |item: FutexItem| item.key == key
}

/// Parts a queue in what stays and what is taken: of the items that are meant, the first `max`.
pub open spec fn parted(q: Seq<FutexItem>, meant: spec_fn(FutexItem) -> bool, max: nat) -> (
    Seq<FutexItem>,
    Seq<FutexItem>,
)
    decreases q.len(),
{
    if q.len() == 0 {
        (Seq::empty(), Seq::empty())
    } else {
        let (stay, taken) = parted(q.drop_last(), meant, max);
        if taken.len() < max && meant(q.last()) {
            (stay, taken.push(q.last()))
        } else {
            (stay.push(q.last()), taken)
        }
    }
}

/// The items with another key.
pub open spec fn rekeyed(items: Seq<FutexItem>, new_key: FutexKey) -> Seq<FutexItem> {
    items.map_values(|item: FutexItem| FutexItem { key: new_key, ..item })
}

/// A queue in which the first `max` items of a futex wait for another one, and how many they are.
pub open spec fn redirected(q: Seq<FutexItem>, key: FutexKey, new_key: FutexKey, max: nat) -> (
    Seq<FutexItem>,
    nat,
)
    decreases q.len(),
{
    if q.len() == 0 {
        (Seq::empty(), 0)
    } else {
        let (front, count) = redirected(q.drop_last(), key, new_key, max);
        if count < max && q.last().key == key {
            (front.push(FutexItem { key: new_key, ..q.last() }), count + 1)
        } else {
            (front.push(q.last()), count)
        }
    }
}

/// The threads of items.
pub open spec fn waiters(items: Seq<FutexItem>) -> Seq<Handle> {
    items.map_values(|item: FutexItem| item.waiter)
}

/// The queue of the threads that wait for one of some futexes.
pub struct FutexBucket {
    pub queue: VecDeque<FutexItem>,
}

impl View for FutexBucket {
    type V = Seq<FutexItem>;

    open spec fn view(&self) -> Seq<FutexItem> {
        self.queue@
    }
}

impl FutexBucket {
    /// An empty queue.
    pub fn new() -> (r: FutexBucket)
        ensures
            r@ == Seq::<FutexItem>::empty(),
    {
        FutexBucket { queue: VecDeque::new() }
    }

    /// Adds an item at the end.
    pub fn enqueue_item(&mut self, item: FutexItem)
        ensures
            final(self)@ == old(self)@.push(item),
    {
        self.queue.push_back(item);
    }

    /// Takes the first items that a wake-up is for out of the queue, at most `max_count` of them.
    /// Their threads, which are to be woken in this order, are added to `woken`. Tells how many
    /// they are.
    pub fn dequeue_and_wake_items(
        &mut self,
        key: FutexKey,
        max_count: usize,
        bitset: FutexBitSet,
        woken: &mut Vec<Handle>,
    ) -> (count: usize)
        ensures
            ({
                let (stay, taken) = parted(old(self)@, wakes(key, bitset), max_count as nat);
                &&& final(self)@ == stay
                &&& final(woken)@ == old(woken)@ + waiters(taken)
                &&& count == taken.len()
            }),
    {
        let ghost q = self@;
        let ghost woken0 = woken@;
        let mut count: usize = 0;
        let mut stay: VecDeque<FutexItem> = VecDeque::new();
        let len = self.queue.len();
        let mut i: usize = 0;
        assert(woken@ =~= woken0 + waiters(parted(q.take(0), wakes(key, bitset), max_count as nat).1));
        while i < len
            invariant
                len == q.len(),
                i <= len,
                self.queue@ == q,
                ({
                    let (kept, taken) = parted(
                        q.take(i as int),
                        wakes(key, bitset),
                        max_count as nat,
                    );
                    &&& stay@ == kept
                    &&& woken@ == woken0 + waiters(taken)
                    &&& count == taken.len()
                    &&& count <= max_count
                }),
            decreases len - i,
        {
            let item = self.queue[i];
            proof {
                assert(q.take(i + 1).drop_last() =~= q.take(i as int));
                assert(q.take(i + 1).last() == item);
            }
            let ghost before = parted(q.take(i as int), wakes(key, bitset), max_count as nat).1;
            if count >= max_count || key != item.key || (bitset & item.bitset) == 0 {
                stay.push_back(item);
            } else {
                item.wake(woken);
                count += 1;
                assert(waiters(before.push(item)) =~= waiters(before).push(item.waiter));
                assert(woken@ =~= woken0 + waiters(before.push(item)));
            }
            i += 1;
        }
        assert(q.take(len as int) =~= q);
        self.queue = stay;
        count
    }

    /// Lets the first items of a futex wait for another one that belongs to the same queue, at most
    /// `max_count` of them.
    pub fn update_item_keys(&mut self, key: FutexKey, new_key: FutexKey, max_count: usize)
        ensures
            final(self)@ == redirected(old(self)@, key, new_key, max_count as nat).0,
    {
        let ghost q = self@;
        let mut count: usize = 0;
        let mut after: VecDeque<FutexItem> = VecDeque::new();
        let len = self.queue.len();
        let mut i: usize = 0;
        while i < len
            invariant
                len == q.len(),
                i <= len,
                self.queue@ == q,
                (after@, count as nat) == redirected(
                    q.take(i as int),
                    key,
                    new_key,
                    max_count as nat,
                ),
                count <= max_count,
            decreases len - i,
        {
            let mut item = self.queue[i];
            proof {
                assert(q.take(i + 1).drop_last() =~= q.take(i as int));
                assert(q.take(i + 1).last() == item);
            }
            if count < max_count && item.key == key {
                item.rekey(new_key);
                count += 1;
            }
            after.push_back(item);
            i += 1;
        }
        assert(q.take(len as int) =~= q);
        self.queue = after;
    }

    /// Moves the first items of a futex to the end of another queue, where they wait for another
    /// futex, at most `max_nrequeues` of them.
    pub fn requeue_items_to_another_bucket(
        &mut self,
        key: FutexKey,
        another: &mut FutexBucket,
        new_key: FutexKey,
        max_nrequeues: usize,
    )
        ensures
            ({
                let (stay, taken) = parted(old(self)@, waits_for(key), max_nrequeues as nat);
                &&& final(self)@ == stay
                &&& final(another)@ == old(another)@ + rekeyed(taken, new_key)
            }),
    {
        let ghost q = self@;
        let ghost another0 = another@;
        let mut count: usize = 0;
        let mut stay: VecDeque<FutexItem> = VecDeque::new();
        let len = self.queue.len();
        let mut i: usize = 0;
        assert(another@ =~= another0 + rekeyed(
            parted(q.take(0), waits_for(key), max_nrequeues as nat).1,
            new_key,
        ));
        while i < len
            invariant
                len == q.len(),
                i <= len,
                self.queue@ == q,
                ({
                    let (kept, taken) = parted(
                        q.take(i as int),
                        waits_for(key),
                        max_nrequeues as nat,
                    );
                    &&& stay@ == kept
                    &&& another@ == another0 + rekeyed(taken, new_key)
                    &&& count == taken.len()
                    &&& count <= max_nrequeues
                }),
            decreases len - i,
        {
            let item = self.queue[i];
            proof {
                assert(q.take(i + 1).drop_last() =~= q.take(i as int));
                assert(q.take(i + 1).last() == item);
            }
            let ghost before = parted(q.take(i as int), waits_for(key), max_nrequeues as nat).1;
            if count >= max_nrequeues || key != item.key {
                stay.push_back(item);
            } else {
                let mut new_item = item;
                new_item.rekey(new_key);
                another.enqueue_item(new_item);
                count += 1;
                assert(rekeyed(before.push(item), new_key) =~= rekeyed(before, new_key).push(
                    new_item,
                ));
                assert(another@ =~= another0 + rekeyed(before.push(item), new_key));
            }
            i += 1;
        }
        assert(q.take(len as int) =~= q);
        self.queue = stay;
    }
}

/// The smallest power of two that is not less than a number.
pub open spec fn is_next_power_of_two(r: int, n: int) -> bool {
    is_pow2(r) && r >= n && (r == 1 || r / 2 < n)
}

/// The number of queues for a number of CPUs. The same count as that of Linux, to keep the same
/// performance.
pub fn bucket_count(num_cpus: u32) -> (r: usize)
    requires
        num_cpus <= 0x80_0000,
    ensures
        is_next_power_of_two(r as int, 256 * num_cpus),
{
    let n: u64 = 256 * num_cpus as u64;
    let mut r: u64 = 1;
    proof {
        reveal(is_pow2);
    }
    while r < n
        invariant
            n <= 0x8000_0000,
            is_pow2(r as int),
            r == 1 || r / 2 < n,
            1 <= r,
        decreases 2 * n - r,
    {
        assert(is_pow2(r * 2)) by {
            reveal(is_pow2);
            assert((r * 2) / 2 == r);
        }
        r = r * 2;
    }
    r as usize
}

/// The queue that a futex belongs to, out of `size`.
pub open spec fn bucket_of(addr: usize, size: usize) -> usize {
    ((size - 1) as usize) & ((addr >> 2) / size)
}

/// The queues of all futexes.
pub struct FutexBucketVec {
    pub vec: Vec<FutexBucket>,
}

impl View for FutexBucketVec {
    type V = Seq<Seq<FutexItem>>;

    open spec fn view(&self) -> Seq<Seq<FutexItem>> {
        Seq::new(self.vec@.len(), |i: int| self.vec@[i]@)
    }
}

/// Whether every item is in the queue that its futex belongs to.
pub open spec fn buckets_wf(b: Seq<Seq<FutexItem>>) -> bool {
    &&& 0 < b.len() <= usize::MAX
    &&& forall|i: int, j: int|
        0 <= i < b.len() && 0 <= j < b[i].len() ==> bucket_of(
            (#[trigger] b[i][j]).key.addr,
            b.len() as usize,
        ) == i
}

/// A queue number is less than the number of queues.
pub proof fn lemma_bucket_of(addr: usize, size: usize)
    requires
        size > 0,
    ensures
        bucket_of(addr, size) < size,
{
    let m = (size - 1) as usize;
    let x = (addr >> 2) / size;
    assert(m & x <= m) by (bit_vector);
}

impl FutexBucketVec {
    /// Empty queues.
    pub fn new(size: usize) -> (r: FutexBucketVec)
        ensures
            r@ == Seq::new(size as nat, |i: int| Seq::<FutexItem>::empty()),
            size > 0 ==> buckets_wf(r@),
    {
        let mut vec: Vec<FutexBucket> = Vec::new();
        for i in 0..size
            invariant
                vec.len() == i,
                forall|k: int| 0 <= k < i ==> (#[trigger] vec@[k])@ == Seq::<FutexItem>::empty(),
        {
            vec.push(FutexBucket::new());
        }
        let r = FutexBucketVec { vec };
        assert(r@ =~= Seq::new(size as nat, |i: int| Seq::<FutexItem>::empty()));
        r
    }

    /// The number of the queue that a futex belongs to.
    pub fn get_bucket(&self, key: FutexKey) -> (index: usize)
        requires
            self@.len() > 0,
        ensures
            index == bucket_of(key.addr, self@.len() as usize),
            index < self@.len(),
    {
        proof {
            lemma_bucket_of(key.addr, self.vec.len());
        }
        let size = self.size();
        // The addr is the multiples of 4, so we ignore the last 2 bits
        let addr = key.addr() >> 2;
        // simple hash
        (size - 1) & (addr / size)
    }

    fn size(&self) -> (r: usize)
        ensures
            r == self@.len(),
    {
        self.vec.len()
    }
}

/// The queues after the item of a thread was added.
pub open spec fn queued(b: Seq<Seq<FutexItem>>, item: FutexItem) -> Seq<Seq<FutexItem>> {
    let i = bucket_of(item.key.addr, b.len() as usize) as int;
    b.update(i, b[i].push(item))
}

/// The queues after threads that wait for a futex were woken, and the threads, in the order in
/// which they are woken.
pub open spec fn woken_up(
    b: Seq<Seq<FutexItem>>,
    key: FutexKey,
    max_count: nat,
    bitset: FutexBitSet,
) -> (Seq<Seq<FutexItem>>, Seq<Handle>) {
    let i = bucket_of(key.addr, b.len() as usize) as int;
    let (stay, taken) = parted(b[i], wakes(key, bitset), max_count);
    (b.update(i, stay), waiters(taken))
}

/// The queues after threads that wait for a futex were made to wait for another one.
pub open spec fn requeued(
    b: Seq<Seq<FutexItem>>,
    key: FutexKey,
    new_key: FutexKey,
    max_count: nat,
) -> Seq<Seq<FutexItem>> {
    let i = bucket_of(key.addr, b.len() as usize) as int;
    let j = bucket_of(new_key.addr, b.len() as usize) as int;
    if i == j {
        b.update(i, redirected(b[i], key, new_key, max_count).0)
    } else {
        let (stay, taken) = parted(b[i], waits_for(key), max_count);
        b.update(i, stay).update(j, b[j] + rekeyed(taken, new_key))
    }
}

/// Parting a queue adds nothing: what stays and what is taken was there, and what is taken is
/// meant.
proof fn lemma_parted_from(q: Seq<FutexItem>, meant: spec_fn(FutexItem) -> bool, max: nat)
    ensures
        ({
            let (stay, taken) = parted(q, meant, max);
            &&& forall|i: int| 0 <= i < stay.len() ==> q.contains(#[trigger] stay[i])
            &&& forall|i: int|
                0 <= i < taken.len() ==> q.contains(#[trigger] taken[i]) && meant(taken[i])
        }),
    decreases q.len(),
{
    if q.len() > 0 {
        let p = q.drop_last();
        lemma_parted_from(p, meant, max);
        assert(q[q.len() - 1] == q.last());
        assert forall|x: FutexItem| p.contains(x) implies q.contains(x) by {
            let k = choose|k: int| 0 <= k < p.len() && p[k] == x;
            assert(q[k] == x);
        }
        let (stay0, taken0) = parted(p, meant, max);
        let (stay, taken) = parted(q, meant, max);
        assert forall|i: int| 0 <= i < stay.len() implies q.contains(#[trigger] stay[i]) by {
            if i < stay0.len() {
                assert(stay[i] == stay0[i]);
            }
        }
        assert forall|i: int| 0 <= i < taken.len() implies q.contains(#[trigger] taken[i]) && meant(
            taken[i],
        ) by {
            if i < taken0.len() {
                assert(taken[i] == taken0[i]);
            }
        }
    }
}

/// Redirecting a queue keeps its items but for the key of those of one futex.
proof fn lemma_redirected_from(q: Seq<FutexItem>, key: FutexKey, new_key: FutexKey, max: nat)
    ensures
        ({
            let (after, count) = redirected(q, key, new_key, max);
            &&& after.len() == q.len()
            &&& forall|i: int|
                0 <= i < q.len() ==> #[trigger] after[i] == q[i] || (q[i].key == key && after[i]
                    == (FutexItem { key: new_key, ..q[i] }))
        }),
    decreases q.len(),
{
    if q.len() > 0 {
        let p = q.drop_last();
        lemma_redirected_from(p, key, new_key, max);
        let before = redirected(p, key, new_key, max).0;
        let after = redirected(q, key, new_key, max).0;
        assert forall|i: int| 0 <= i < q.len() implies #[trigger] after[i] == q[i] || (q[i].key == key
            && after[i] == (FutexItem { key: new_key, ..q[i] })) by {
            if i < p.len() {
                assert(after[i] == before[i]);
                assert(p[i] == q[i]);
            }
        }
    }
}

/// A queue that only holds items that it held before is still valid.
proof fn lemma_update_wf(b: Seq<Seq<FutexItem>>, i: int, q: Seq<FutexItem>)
    requires
        buckets_wf(b),
        0 <= i < b.len(),
        forall|j: int|
            0 <= j < q.len() ==> bucket_of((#[trigger] q[j]).key.addr, b.len() as usize) == i,
    ensures
        buckets_wf(b.update(i, q)),
{
    let b2 = b.update(i, q);
    assert forall|k: int, j: int| 0 <= k < b2.len() && 0 <= j < b2[k].len() implies bucket_of(
        (#[trigger] b2[k][j]).key.addr,
        b2.len() as usize,
    ) == k by {
        if k != i {
            assert(b2[k][j] == b[k][j]);
        } else {
            assert(b2[k][j] == q[j]);
        }
    }
}

/// Waits for a futex as long as it has a value. The functions `load_prefixed` and `load` read the
/// value, before and while the queue is held. The thread has to wait after the call if it succeeds.
pub fn futex_wait<F: FnOnce(usize) -> i32, G: FnOnce(usize) -> i32>(
    buckets: &mut FutexBucketVec,
    futex_addr: u64,
    futex_val: i32,
    load_prefixed: F,
    load: G,
    waiter: Handle,
) -> (r: Result<(), Error>)
    requires
        buckets_wf(old(buckets)@),
        call_requires(load_prefixed, (futex_addr as usize,)),
        call_ensures(load_prefixed, (futex_addr as usize,), futex_val) ==> call_requires(
            load,
            (futex_addr as usize,),
        ),
    ensures
        waited(
            load_prefixed,
            load,
            old(buckets)@,
            FutexItem {
                key: FutexKey { addr: futex_addr as usize },
                bitset: FUTEX_BITSET_MATCH_ANY,
                waiter,
            },
            futex_val,
            final(buckets)@,
            r,
        ),
        buckets_wf(final(buckets)@),
{
    futex_wait_bitset(
        buckets,
        futex_addr as usize,
        futex_val,
        load_prefixed,
        load,
        FUTEX_BITSET_MATCH_ANY,
        waiter,
    )
}

/// The queues after a thread came to wait: it does if the futex has the value still.
pub open spec fn waiting(b: Seq<Seq<FutexItem>>, item: FutexItem, unchanged: bool) -> (
    Seq<Seq<FutexItem>>,
    Result<(), Error>,
) {
    if unchanged {
        (queued(b, item), Ok(()))
    } else {
        (b, Err(Error { errno: Errno::EAGAIN, msg: None }))
    }
}

/// What comes of waiting for a futex as long as it has a value, for what the two functions that
/// load it give: the second one is asked only if the first gave the value.
pub open spec fn waited<F: FnOnce(usize) -> i32, G: FnOnce(usize) -> i32>(
    load_prefixed: F,
    load: G,
    b: Seq<Seq<FutexItem>>,
    item: FutexItem,
    futex_val: i32,
    after: Seq<Seq<FutexItem>>,
    r: Result<(), Error>,
) -> bool {
    exists|first: i32| #[trigger]
        call_ensures(load_prefixed, (item.key.addr,), first) && if first != futex_val {
            (after, r) == waiting(b, item, false)
        } else {
            exists|second: i32| #[trigger]
                call_ensures(load, (item.key.addr,), second) && (after, r) == waiting(
                    b,
                    item,
                    second == futex_val,
                )
        }
}

/// Waits for a futex as long as it has a value, for a wake-up that is for one of the given bits.
pub fn futex_wait_bitset<F: FnOnce(usize) -> i32, G: FnOnce(usize) -> i32>(
    buckets: &mut FutexBucketVec,
    futex_addr: usize,
    futex_val: i32,
    load_prefixed: F,
    load: G,
    bitset: FutexBitSet,
    waiter: Handle,
) -> (r: Result<(), Error>)
    requires
        buckets_wf(old(buckets)@),
        call_requires(load_prefixed, (futex_addr,)),
        call_ensures(load_prefixed, (futex_addr,), futex_val) ==> call_requires(
            load,
            (futex_addr,),
        ),
    ensures
        waited(
            load_prefixed,
            load,
            old(buckets)@,
            FutexItem { key: FutexKey { addr: futex_addr }, bitset, waiter },
            futex_val,
            final(buckets)@,
            r,
        ),
        buckets_wf(final(buckets)@),
{
    let futex_key = FutexKey::new(futex_addr);
    let ghost item = FutexItem { key: futex_key, bitset, waiter };
    let first = load_prefixed(futex_addr);
    assert(call_ensures(load_prefixed, (item.key.addr,), first));
    if first != futex_val {
        return Err(Error::new(Errno::EAGAIN));
    }
    let second = load(futex_addr);
    assert(call_ensures(load, (item.key.addr,), second));
    enqueue_if_unchanged(buckets, futex_key, futex_val, second, bitset, waiter)
}

/// Adds a thread to the queue of a futex, if the value that was loaded is the one it waits on.
pub fn enqueue_if_unchanged(
    buckets: &mut FutexBucketVec,
    futex_key: FutexKey,
    futex_val: i32,
    loaded: i32,
    bitset: FutexBitSet,
    waiter: Handle,
) -> (r: Result<(), Error>)
    requires
        buckets_wf(old(buckets)@),
    ensures
        (final(buckets)@, r) == waiting(
            old(buckets)@,
            FutexItem { key: futex_key, bitset, waiter },
            loaded == futex_val,
        ),
        buckets_wf(final(buckets)@),
{
    if loaded != futex_val {
        return Err(Error::new(Errno::EAGAIN));
    }
    let ghost b = buckets@;
    let i = buckets.get_bucket(futex_key);
    let item = FutexItem::new(futex_key, bitset, waiter);
    buckets.vec[i].enqueue_item(item);
    proof {
        let q = b[i as int].push(item);
        assert(buckets@ =~= queued(b, item));
        assert forall|j: int| 0 <= j < q.len() implies bucket_of(
            (#[trigger] q[j]).key.addr,
            b.len() as usize,
        ) == i by {
            if j < b[i as int].len() {
                assert(q[j] == b[i as int][j]);
            }
        }
        lemma_update_wf(b, i as int, q);
    }
    Ok(())
}

/// Wakes threads that wait for a futex, at most `max_count` of them. Their number is returned, and
/// they themselves are added to `woken`.
pub fn futex_wake(
    buckets: &mut FutexBucketVec,
    futex_addr: usize,
    max_count: usize,
    woken: &mut Vec<Handle>,
) -> (r: Result<usize, Error>)
    requires
        buckets_wf(old(buckets)@),
    ensures
        ({
            let (b, threads) = woken_up(
                old(buckets)@,
                FutexKey { addr: futex_addr },
                max_count as nat,
                FUTEX_BITSET_MATCH_ANY,
            );
            &&& final(buckets)@ == b
            &&& final(woken)@ == old(woken)@ + threads
            &&& r matches Ok(count) && count == threads.len()
        }),
        buckets_wf(final(buckets)@),
{
    futex_wake_bitset(buckets, futex_addr, max_count, FUTEX_BITSET_MATCH_ANY, woken)
}

/// Wakes threads that wait for a futex with one of the given bits, at most `max_count` of them.
pub fn futex_wake_bitset(
    buckets: &mut FutexBucketVec,
    futex_addr: usize,
    max_count: usize,
    bitset: FutexBitSet,
    woken: &mut Vec<Handle>,
) -> (r: Result<usize, Error>)
    requires
        buckets_wf(old(buckets)@),
    ensures
        ({
            let (b, threads) = woken_up(
                old(buckets)@,
                FutexKey { addr: futex_addr },
                max_count as nat,
                bitset,
            );
            &&& final(buckets)@ == b
            &&& final(woken)@ == old(woken)@ + threads
            &&& r matches Ok(count) && count == threads.len()
        }),
        buckets_wf(final(buckets)@),
{
    let futex_key = FutexKey::new(futex_addr);
    let i = buckets.get_bucket(futex_key);
    Ok(wake_in(buckets, i, futex_key, max_count, bitset, woken))
}

/// Wakes threads in the queue of a futex.
fn wake_in(
    buckets: &mut FutexBucketVec,
    i: usize,
    futex_key: FutexKey,
    max_count: usize,
    bitset: FutexBitSet,
    woken: &mut Vec<Handle>,
) -> (count: usize)
    requires
        buckets_wf(old(buckets)@),
        i == bucket_of(futex_key.addr, old(buckets)@.len() as usize),
        i < old(buckets)@.len(),
    ensures
        ({
            let (b, threads) = woken_up(old(buckets)@, futex_key, max_count as nat, bitset);
            &&& final(buckets)@ == b
            &&& final(woken)@ == old(woken)@ + threads
            &&& count == threads.len()
        }),
        buckets_wf(final(buckets)@),
{
    let ghost b = buckets@;
    let res = buckets.vec[i].dequeue_and_wake_items(futex_key, max_count, bitset, woken);
    proof {
        let q = b[i as int];
        let stay = parted(q, wakes(futex_key, bitset), max_count as nat).0;
        lemma_parted_from(q, wakes(futex_key, bitset), max_count as nat);
        assert(buckets@ =~= b.update(i as int, stay));
        assert forall|j: int| 0 <= j < stay.len() implies bucket_of(
            (#[trigger] stay[j]).key.addr,
            b.len() as usize,
        ) == i by {
            let k = choose|k: int| 0 <= k < q.len() && q[k] == stay[j];
            assert(b[i as int][k] == stay[j]);
        }
        lemma_update_wf(b, i as int, stay);
    }
    res
}

/// The queues after some of the threads that wait for a futex were woken and others were made to
/// wait for another one, and the threads that were woken.
pub open spec fn woken_and_requeued(
    b: Seq<Seq<FutexItem>>,
    key: FutexKey,
    max_nwakes: nat,
    max_nrequeues: nat,
    new_key: FutexKey,
) -> (Seq<Seq<FutexItem>>, Seq<Handle>) {
    let (b1, threads) = woken_up(b, key, max_nwakes, FUTEX_BITSET_MATCH_ANY);
    if key == new_key {
        (b1, threads)
    } else {
        (requeued(b1, key, new_key, max_nrequeues), threads)
    }
}

/// Wakes threads that wait for a futex, at most `max_nwakes` of them, and makes others wait for the
/// one at `futex_new_addr`, at most `max_nrequeues`.
pub fn futex_requeue(
    buckets: &mut FutexBucketVec,
    futex_addr: usize,
    max_nwakes: usize,
    max_nrequeues: usize,
    futex_new_addr: usize,
    woken: &mut Vec<Handle>,
) -> (r: Result<usize, Error>)
    requires
        buckets_wf(old(buckets)@),
    ensures
        ({
            let (b, threads) = woken_and_requeued(
                old(buckets)@,
                FutexKey { addr: futex_addr },
                max_nwakes as nat,
                max_nrequeues as nat,
                FutexKey { addr: futex_new_addr },
            );
            &&& final(buckets)@ == b
            &&& final(woken)@ == old(woken)@ + threads
            &&& r matches Ok(count) && count == threads.len()
        }),
        buckets_wf(final(buckets)@),
{
    if futex_new_addr == futex_addr {
        return futex_wake(buckets, futex_addr, max_nwakes, woken);
    }
    let futex_key = FutexKey::new(futex_addr);
    let futex_new_key = FutexKey::new(futex_new_addr);
    let bucket_idx = buckets.get_bucket(futex_key);
    let new_bucket_idx = buckets.get_bucket(futex_new_key);
    let nwakes = wake_in(
        buckets,
        bucket_idx,
        futex_key,
        max_nwakes,
        FUTEX_BITSET_MATCH_ANY,
        woken,
    );
    let ghost b = buckets@;
    let ghost i = bucket_idx as int;
    let ghost j = new_bucket_idx as int;
    let ghost q = b[i];
    if bucket_idx == new_bucket_idx {
        buckets.vec[bucket_idx].update_item_keys(futex_key, futex_new_key, max_nrequeues);
        proof {
            let after = redirected(q, futex_key, futex_new_key, max_nrequeues as nat).0;
            lemma_redirected_from(q, futex_key, futex_new_key, max_nrequeues as nat);
            assert(buckets@ =~= b.update(i, after));
            assert forall|k: int| 0 <= k < after.len() implies bucket_of(
                (#[trigger] after[k]).key.addr,
                b.len() as usize,
            ) == i by {
                assert(b[i][k] == q[k]);
            }
            lemma_update_wf(b, i, after);
        }
    } else {
        let mut futex_bucket = FutexBucket::new();
        std::mem::swap(&mut futex_bucket, &mut buckets.vec[bucket_idx]);
        futex_bucket.requeue_items_to_another_bucket(
            futex_key,
            &mut buckets.vec[new_bucket_idx],
            futex_new_key,
            max_nrequeues,
        );
        std::mem::swap(&mut futex_bucket, &mut buckets.vec[bucket_idx]);
        proof {
            let (stay, taken) = parted(q, waits_for(futex_key), max_nrequeues as nat);
            lemma_parted_from(q, waits_for(futex_key), max_nrequeues as nat);
            let there = b[j] + rekeyed(taken, futex_new_key);
            assert(buckets@ =~= b.update(i, stay).update(j, there));
            assert forall|k: int| 0 <= k < stay.len() implies bucket_of(
                (#[trigger] stay[k]).key.addr,
                b.len() as usize,
            ) == i by {
                let n = choose|n: int| 0 <= n < q.len() && q[n] == stay[k];
                assert(b[i][n] == stay[k]);
            }
            lemma_update_wf(b, i, stay);
            assert forall|k: int| 0 <= k < there.len() implies bucket_of(
                (#[trigger] there[k]).key.addr,
                b.len() as usize,
            ) == j by {
                if k < b[j].len() {
                    assert(there[k] == b[j][k]);
                }
            }
            lemma_update_wf(b.update(i, stay), j, there);
        }
    }
    Ok(nwakes)
}

// Laws.

/// Of the items that are meant the first are taken, in the order of the queue, as many as there are
/// but no more than `max`.
pub proof fn law_first_are_taken(q: Seq<FutexItem>, meant: spec_fn(FutexItem) -> bool, max: nat)
    ensures
        parted(q, meant, max).1 == q.filter(meant).take(
            if q.filter(meant).len() <= max {
                q.filter(meant).len() as int
            } else {
                max as int
            },
        ),
    decreases q.len(),
{
    reveal(Seq::filter);
    if q.len() > 0 {
        law_first_are_taken(q.drop_last(), meant, max);
        let f0 = q.drop_last().filter(meant);
        let f = q.filter(meant);
        let n = if f.len() <= max {
            f.len() as int
        } else {
            max as int
        };
        let taken = parted(q, meant, max).1;
        assert(taken =~= f.take(n));
    } else {
        assert(parted(q, meant, max).1 =~= q.filter(meant).take(0));
    }
}

/// No item is lost or made up: what stays and what is taken is, taken together, what was there.
pub proof fn law_none_lost(q: Seq<FutexItem>, meant: spec_fn(FutexItem) -> bool, max: nat)
    ensures
        parted(q, meant, max).0.to_multiset().add(parted(q, meant, max).1.to_multiset())
            == q.to_multiset(),
    decreases q.len(),
{
    broadcast use vstd::seq_lib::group_to_multiset_ensures;

    if q.len() > 0 {
        law_none_lost(q.drop_last(), meant, max);
        let (stay0, taken0) = parted(q.drop_last(), meant, max);
        let (stay, taken) = parted(q, meant, max);
        assert(q.drop_last().push(q.last()) =~= q);
        assert(stay.to_multiset().add(taken.to_multiset()) =~= stay0.to_multiset().add(
            taken0.to_multiset(),
        ).insert(q.last()));
    } else {
        let (stay, taken) = parted(q, meant, max);
        assert(stay =~= q);
        assert(taken =~= q);
        assert(stay.to_multiset().add(taken.to_multiset()) =~= q.to_multiset());
    }
}

/// Items that are not meant all stay, in the order of the queue.
pub proof fn law_others_stay(q: Seq<FutexItem>, meant: spec_fn(FutexItem) -> bool, max: nat)
    ensures
        parted(q, meant, max).0.filter(|item: FutexItem| !meant(item)) == q.filter(
            |item: FutexItem| !meant(item),
        ),
    decreases q.len(),
{
    reveal(Seq::filter);
    if q.len() > 0 {
        law_others_stay(q.drop_last(), meant, max);
        let stay0 = parted(q.drop_last(), meant, max).0;
        assert(stay0.push(q.last()).drop_last() =~= stay0);
    }
}

/// A wake-up wakes as many threads as wait for it, but no more than `max_count`: the smaller of the
/// two numbers.
pub proof fn law_wake_count(b: Seq<Seq<FutexItem>>, key: FutexKey, max_count: nat, bitset: FutexBitSet)
    ensures
        ({
            let waiting = b[bucket_of(key.addr, b.len() as usize) as int].filter(
                wakes(key, bitset),
            ).len();
            woken_up(b, key, max_count, bitset).1.len() == if waiting <= max_count {
                waiting
            } else {
                max_count
            }
        }),
{
    let q = b[bucket_of(key.addr, b.len() as usize) as int];
    law_first_are_taken(q, wakes(key, bitset), max_count);
}

/// A thread that waits for a futex is woken by a wake-up that is for it, if that is for at least as
/// many threads as it is for up to this one, in the order of the queue.
pub proof fn law_waiter_is_woken(
    b: Seq<Seq<FutexItem>>,
    key: FutexKey,
    max_count: nat,
    bitset: FutexBitSet,
    k: int,
)
    requires
        ({
            let q = b[bucket_of(key.addr, b.len() as usize) as int];
            &&& 0 <= k < q.len()
            &&& q[k].key == key
            &&& bitset & q[k].bitset != 0
            &&& q.take(k + 1).filter(wakes(key, bitset)).len() <= max_count
        }),
    ensures
        woken_up(b, key, max_count, bitset).1.contains(
            b[bucket_of(key.addr, b.len() as usize) as int][k].waiter,
        ),
{
    let q = b[bucket_of(key.addr, b.len() as usize) as int];
    let meant = wakes(key, bitset);
    law_first_are_taken(q, meant, max_count);
    lemma_filter_at(q, meant, k);
    let taken = parted(q, meant, max_count).1;
    let n = q.take(k).filter(meant).len() as int;
    assert(taken[n] == q[k]);
    assert(waiters(taken)[n] == q[k].waiter);
}

/// A thread that came to wait is woken by a wake-up that is for it, if that is for more threads
/// than it was for already.
pub proof fn law_wake_after_wait(
    b: Seq<Seq<FutexItem>>,
    item: FutexItem,
    max_count: nat,
    bitset: FutexBitSet,
)
    requires
        buckets_wf(b),
        bitset & item.bitset != 0,
        max_count > b[bucket_of(item.key.addr, b.len() as usize) as int].filter(
            wakes(item.key, bitset),
        ).len(),
    ensures
        woken_up(queued(b, item), item.key, max_count, bitset).1.contains(item.waiter),
{
    lemma_bucket_of(item.key.addr, b.len() as usize);
    let i = bucket_of(item.key.addr, b.len() as usize) as int;
    let b2 = queued(b, item);
    let k = b[i].len() as int;
    assert(b2[i][k] == item);
    assert(b2[i].take(k) =~= b[i]);
    lemma_filter_at(b2[i], wakes(item.key, bitset), k);
    law_waiter_is_woken(b2, item.key, max_count, bitset, k);
}

/// A thread that waits for one futex and is made to wait for another one is woken by a wake-up of
/// that one, if at least as many threads are requeued as wait for the first one up to this one, and
/// the wake-up is for as many threads as then wait for it.
pub proof fn law_wake_after_requeue(
    b: Seq<Seq<FutexItem>>,
    key: FutexKey,
    new_key: FutexKey,
    max_nrequeues: nat,
    max_count: nat,
    bitset: FutexBitSet,
    k: int,
)
    requires
        buckets_wf(b),
        key != new_key,
        ({
            let q = b[bucket_of(key.addr, b.len() as usize) as int];
            let j = bucket_of(new_key.addr, b.len() as usize) as int;
            let waiting = requeued(b, key, new_key, max_nrequeues)[j];
            &&& 0 <= k < q.len()
            &&& q[k].key == key
            &&& bitset & q[k].bitset != 0
            &&& q.take(k + 1).filter(waits_for(key)).len() <= max_nrequeues
            &&& waiting.filter(wakes(new_key, bitset)).len() <= max_count
        }),
    ensures
        woken_up(requeued(b, key, new_key, max_nrequeues), new_key, max_count, bitset).1.contains(
            b[bucket_of(key.addr, b.len() as usize) as int][k].waiter,
        ),
{
    let i = bucket_of(key.addr, b.len() as usize) as int;
    let j = bucket_of(new_key.addr, b.len() as usize) as int;
    lemma_bucket_of(key.addr, b.len() as usize);
    lemma_bucket_of(new_key.addr, b.len() as usize);
    let q = b[i];
    let b2 = requeued(b, key, new_key, max_nrequeues);
    let m = if i == j {
        lemma_redirected_at(q, key, new_key, max_nrequeues, k);
        k
    } else {
        let meant = waits_for(key);
        let (stay, taken) = parted(q, meant, max_nrequeues);
        law_first_are_taken(q, meant, max_nrequeues);
        lemma_filter_at(q, meant, k);
        let n = q.take(k).filter(meant).len() as int;
        assert(taken[n] == q[k]);
        assert(b2[j][b[j].len() + n] == rekeyed(taken, new_key)[n]);
        b[j].len() + n
    };
    lemma_filter_at(b2[j], wakes(new_key, bitset), m);
    law_waiter_is_woken(b2, new_key, max_count, bitset, m);
}

/// What is meant is found by a filter, behind what is meant before it.
proof fn lemma_filter_at(q: Seq<FutexItem>, meant: spec_fn(FutexItem) -> bool, k: int)
    requires
        0 <= k < q.len(),
        meant(q[k]),
    ensures
        ({
            let n = q.take(k).filter(meant).len() as int;
            &&& q.take(k + 1).filter(meant).len() == n + 1
            &&& n < q.filter(meant).len()
            &&& q.filter(meant)[n] == q[k]
        }),
    decreases q.len(),
{
    reveal(Seq::filter);
    let p = q.drop_last();
    if k < p.len() {
        lemma_filter_at(p, meant, k);
        assert(p.take(k) =~= q.take(k));
        assert(p.take(k + 1) =~= q.take(k + 1));
    } else {
        assert(q.take(k) =~= p);
        assert(q.take(k + 1) =~= q);
    }
}

/// How many items of a futex are redirected.
proof fn lemma_redirected_count(q: Seq<FutexItem>, key: FutexKey, new_key: FutexKey, max: nat)
    ensures
        redirected(q, key, new_key, max).1 == if q.filter(waits_for(key)).len() <= max {
            q.filter(waits_for(key)).len()
        } else {
            max
        },
    decreases q.len(),
{
    reveal(Seq::filter);
    if q.len() > 0 {
        lemma_redirected_count(q.drop_last(), key, new_key, max);
    }
}

/// An item of a futex is redirected if it is among the first `max` of them.
proof fn lemma_redirected_at(
    q: Seq<FutexItem>,
    key: FutexKey,
    new_key: FutexKey,
    max: nat,
    k: int,
)
    requires
        0 <= k < q.len(),
        q[k].key == key,
        q.take(k + 1).filter(waits_for(key)).len() <= max,
    ensures
        redirected(q, key, new_key, max).0.len() == q.len(),
        redirected(q, key, new_key, max).0[k] == (FutexItem { key: new_key, ..q[k] }),
    decreases q.len(),
{
    let p = q.drop_last();
    lemma_redirected_from(q, key, new_key, max);
    lemma_redirected_from(p, key, new_key, max);
    if k < p.len() {
        assert(p.take(k + 1) =~= q.take(k + 1));
        lemma_redirected_at(p, key, new_key, max, k);
    } else {
        lemma_redirected_count(p, key, new_key, max);
        lemma_filter_at(q, waits_for(key), k);
        assert(q.take(k) =~= p);
    }
}

// Laws on the waiters of one futex.

/// The items that wait for a futex, in the order of its queue.
pub open spec fn queue_of(b: Seq<Seq<FutexItem>>, key: FutexKey) -> Seq<FutexItem> {
    b[bucket_of(key.addr, b.len() as usize) as int].filter(|item: FutexItem| item.key == key)
}

/// The items of a futex that a wake-up for some bits is for, in the order of its queue.
pub open spec fn wakeable(b: Seq<Seq<FutexItem>>, key: FutexKey, bitset: FutexBitSet) -> Seq<
    FutexItem,
> {
    queue_of(b, key).filter(|item: FutexItem| bitset & item.bitset != 0)
}

/// The smaller of two numbers.
pub open spec fn at_most(n: nat, max: nat) -> int {
    if n <= max {
        n as int
    } else {
        max as int
    }
}

/// Two conditions that agree on a queue pick the same items of it.
proof fn lemma_filter_agree(
    q: Seq<FutexItem>,
    a: spec_fn(FutexItem) -> bool,
    c: spec_fn(FutexItem) -> bool,
)
    requires
        forall|i: int| 0 <= i < q.len() ==> a(#[trigger] q[i]) == c(q[i]),
    ensures
        q.filter(a) == q.filter(c),
    decreases q.len(),
{
    reveal(Seq::filter);
    if q.len() > 0 {
        let p = q.drop_last();
        assert forall|i: int| 0 <= i < p.len() implies a(#[trigger] p[i]) == c(p[i]) by {
            assert(p[i] == q[i]);
        }
        lemma_filter_agree(p, a, c);
        assert(a(q[q.len() - 1]) == c(q[q.len() - 1]));
    }
}

/// Picking items and then some of those is picking those that both conditions hold of.
proof fn lemma_filter_twice(
    q: Seq<FutexItem>,
    a: spec_fn(FutexItem) -> bool,
    c: spec_fn(FutexItem) -> bool,
    both: spec_fn(FutexItem) -> bool,
)
    requires
        forall|item: FutexItem| #[trigger] both(item) <==> a(item) && c(item),
    ensures
        q.filter(a).filter(c) == q.filter(both),
    decreases q.len(),
{
    reveal(Seq::filter);
    if q.len() > 0 {
        lemma_filter_twice(q.drop_last(), a, c, both);
        let f = q.drop_last().filter(a);
        assert(both(q.last()) <==> a(q.last()) && c(q.last()));
        assert(f.push(q.last()).drop_last() =~= f);
    }
}

/// A condition that no meant item meets picks the same items of what stays.
proof fn lemma_others_picked(
    q: Seq<FutexItem>,
    meant: spec_fn(FutexItem) -> bool,
    max: nat,
    other: spec_fn(FutexItem) -> bool,
)
    requires
        forall|item: FutexItem| #[trigger] other(item) ==> !meant(item),
    ensures
        parted(q, meant, max).0.filter(other) == q.filter(other),
    decreases q.len(),
{
    reveal(Seq::filter);
    if q.len() > 0 {
        lemma_others_picked(q.drop_last(), meant, max, other);
        let stay0 = parted(q.drop_last(), meant, max).0;
        assert(stay0.push(q.last()).drop_last() =~= stay0);
        assert(other(q.last()) ==> !meant(q.last()));
    }
}

/// Of the meant items those stay that come behind the ones that are taken, in the same order.
proof fn lemma_rest_stays(q: Seq<FutexItem>, meant: spec_fn(FutexItem) -> bool, max: nat)
    ensures
        parted(q, meant, max).0.filter(meant) == q.filter(meant).skip(
            at_most(q.filter(meant).len(), max),
        ),
    decreases q.len(),
{
    reveal(Seq::filter);
    let f = q.filter(meant);
    let n = at_most(f.len(), max);
    if q.len() > 0 {
        let p = q.drop_last();
        lemma_rest_stays(p, meant, max);
        law_first_are_taken(p, meant, max);
        let (stay0, taken0) = parted(p, meant, max);
        let f0 = p.filter(meant);
        assert(stay0.push(q.last()).drop_last() =~= stay0);
        let stay = parted(q, meant, max).0;
        if meant(q.last()) {
            if taken0.len() < max {
                assert(stay.filter(meant) =~= f.skip(n));
            } else {
                assert(stay.filter(meant) =~= f.skip(n));
            }
        } else {
            assert(f == f0);
        }
    } else {
        assert(parted(q, meant, max).0.filter(meant) =~= f.skip(n));
    }
}

/// Redirecting moves the first items of a futex to the other one and leaves the rest, each in the
/// same order.
proof fn lemma_redirected_filters(
    q: Seq<FutexItem>,
    key: FutexKey,
    new_key: FutexKey,
    max: nat,
    old_items: spec_fn(FutexItem) -> bool,
    new_items: spec_fn(FutexItem) -> bool,
)
    requires
        key != new_key,
        forall|item: FutexItem| #[trigger] old_items(item) <==> item.key == key,
        forall|item: FutexItem| #[trigger] new_items(item) <==> item.key == new_key,
    ensures
        ({
            let after = redirected(q, key, new_key, max).0;
            let mine = q.filter(old_items);
            let n = at_most(mine.len(), max);
            &&& redirected(q, key, new_key, max).1 == n
            &&& after.filter(old_items) == mine.skip(n)
            &&& after.filter(new_items).to_multiset() == q.filter(new_items).to_multiset().add(
                rekeyed(mine.take(n), new_key).to_multiset(),
            )
            &&& q.filter(new_items).len() == 0 ==> after.filter(new_items) == rekeyed(
                mine.take(n),
                new_key,
            )
        }),
    decreases q.len(),
{
    reveal(Seq::filter);
    broadcast use vstd::seq_lib::group_to_multiset_ensures;

    let (after, count) = redirected(q, key, new_key, max);
    let mine = q.filter(old_items);
    let n = at_most(mine.len(), max);
    let moved = rekeyed(mine.take(n), new_key);
    if q.len() > 0 {
        let p = q.drop_last();
        let x = q.last();
        lemma_redirected_filters(p, key, new_key, max, old_items, new_items);
        let (after0, count0) = redirected(p, key, new_key, max);
        let mine0 = p.filter(old_items);
        let n0 = at_most(mine0.len(), max);
        let moved0 = rekeyed(mine0.take(n0), new_key);
        assert(after.drop_last() =~= after0);
        assert(old_items(x) <==> x.key == key);
        assert(new_items(x) <==> x.key == new_key);
        if x.key == key {
            assert(mine =~= mine0.push(x));
            if count0 < max {
                let y = FutexItem { key: new_key, ..x };
                assert(new_items(y) && !old_items(y));
                assert(after.filter(old_items) =~= mine.skip(n));
                assert(moved =~= moved0.push(y));
                assert(after.filter(new_items) == after0.filter(new_items).push(y));
                assert(after.filter(new_items).to_multiset() =~= p.filter(
                    new_items,
                ).to_multiset().add(moved.to_multiset()));
            } else {
                assert(after.filter(old_items) =~= mine.skip(n));
                assert(moved =~= moved0);
            }
        } else {
            assert(moved =~= moved0);
            if x.key == new_key {
                assert(after.filter(new_items).to_multiset() =~= p.filter(
                    new_items,
                ).to_multiset().insert(x).add(moved.to_multiset()));
            }
        }
    } else {
        assert(after =~= q);
        assert(after.filter(old_items) =~= mine.skip(n));
        assert(moved =~= Seq::<FutexItem>::empty());
        assert(after.filter(new_items) =~= moved);
        assert(after.filter(new_items).to_multiset() =~= q.filter(new_items).to_multiset().add(
            moved.to_multiset(),
        ));
    }
}

/// Redirecting leaves the items of all other futexes.
proof fn lemma_redirected_others(
    q: Seq<FutexItem>,
    key: FutexKey,
    new_key: FutexKey,
    max: nat,
    other: spec_fn(FutexItem) -> bool,
)
    requires
        forall|item: FutexItem| #[trigger] other(item) ==> item.key != key && item.key != new_key,
    ensures
        redirected(q, key, new_key, max).0.filter(other) == q.filter(other),
    decreases q.len(),
{
    reveal(Seq::filter);
    if q.len() > 0 {
        lemma_redirected_others(q.drop_last(), key, new_key, max, other);
        let after0 = redirected(q.drop_last(), key, new_key, max).0;
        let after = redirected(q, key, new_key, max).0;
        assert(after.drop_last() =~= after0);
        assert(!other(FutexItem { key: new_key, ..q.last() }));
    }
}

/// A thread that comes to wait is the last one of its futex, and the waiters of all other futexes
/// stay as they are. A thread that finds another value changes nothing and is told to try again.
pub proof fn law_wait_is_last(
    b: Seq<Seq<FutexItem>>,
    item: FutexItem,
    unchanged: bool,
    other: FutexKey,
)
    requires
        buckets_wf(b),
        other != item.key,
    ensures
        ({
            let (b2, r) = waiting(b, item, unchanged);
            &&& unchanged <==> r is Ok
            &&& unchanged ==> queue_of(b2, item.key) == queue_of(b, item.key).push(item)
            &&& queue_of(b2, other) == queue_of(b, other)
            &&& !unchanged ==> b2 == b
            &&& r matches Err(e) ==> e.errno == Errno::EAGAIN
        }),
{
    reveal(Seq::filter);
    let i = bucket_of(item.key.addr, b.len() as usize) as int;
    lemma_bucket_of(item.key.addr, b.len() as usize);
    let q = b[i].push(item);
    assert(q.drop_last() =~= b[i]);
    assert(q.last() == item);
    let mine = |x: FutexItem| x.key == item.key;
    let others = |x: FutexItem| x.key == other;
    assert(q.filter(mine) == b[i].filter(mine).push(item));
    assert(q.filter(others) == b[i].filter(others));
    lemma_bucket_of(other.addr, b.len() as usize);
}

/// A thread waits only if both loads gave the value, and is turned away only if one of them gave
/// another one.
pub proof fn law_waits_while_unchanged<F: FnOnce(usize) -> i32, G: FnOnce(usize) -> i32>(
    load_prefixed: F,
    load: G,
    b: Seq<Seq<FutexItem>>,
    item: FutexItem,
    futex_val: i32,
    after: Seq<Seq<FutexItem>>,
    r: Result<(), Error>,
)
    requires
        buckets_wf(b),
        waited(load_prefixed, load, b, item, futex_val, after, r),
    ensures
        r is Ok ==> {
            &&& call_ensures(load_prefixed, (item.key.addr,), futex_val)
            &&& call_ensures(load, (item.key.addr,), futex_val)
            &&& queue_of(after, item.key) == queue_of(b, item.key).push(item)
        },
        r is Err ==> {
            &&& after == b
            &&& {
                ||| exists|other: i32|
                    other != futex_val && #[trigger] call_ensures(
                        load_prefixed,
                        (item.key.addr,),
                        other,
                    )
                ||| exists|other: i32|
                    other != futex_val && #[trigger] call_ensures(load, (item.key.addr,), other)
            }
        },
{
    let other = FutexKey {
        addr: if item.key.addr == 0 {
            1
        } else {
            0
        },
    };
    law_wait_is_last(b, item, true, other);
    law_wait_is_last(b, item, false, other);
    let first = choose|first: i32| #[trigger]
        call_ensures(load_prefixed, (item.key.addr,), first) && if first != futex_val {
            (after, r) == waiting(b, item, false)
        } else {
            exists|second: i32| #[trigger]
                call_ensures(load, (item.key.addr,), second) && (after, r) == waiting(
                    b,
                    item,
                    second == futex_val,
                )
        };
    if first == futex_val {
        let second = choose|second: i32| #[trigger]
            call_ensures(load, (item.key.addr,), second) && (after, r) == waiting(
                b,
                item,
                second == futex_val,
            );
        assert(call_ensures(load, (item.key.addr,), second));
    }
}

/// A wake-up wakes the first of the threads that it is for, in the order of the queue: as many as
/// there are, but no more than `max_count`. All other threads wait on, those of this futex and
/// those of others.
pub proof fn law_wake_takes_first(
    b: Seq<Seq<FutexItem>>,
    key: FutexKey,
    max_count: nat,
    bitset: FutexBitSet,
    other: FutexKey,
)
    requires
        buckets_wf(b),
        other != key,
    ensures
        ({
            let (b2, threads) = woken_up(b, key, max_count, bitset);
            let meant = wakeable(b, key, bitset);
            let n = at_most(meant.len(), max_count);
            &&& threads.len() == n
            &&& forall|k: int| 0 <= k < n ==> #[trigger] threads[k] == meant[k].waiter
            &&& wakeable(b2, key, bitset) == meant.skip(n)
            &&& queue_of(b2, key).filter(|item: FutexItem| bitset & item.bitset == 0) == queue_of(
                b,
                key,
            ).filter(|item: FutexItem| bitset & item.bitset == 0)
            &&& queue_of(b2, other) == queue_of(b, other)
            &&& b2.len() == b.len()
        }),
{
    let i = bucket_of(key.addr, b.len() as usize) as int;
    let j = bucket_of(other.addr, b.len() as usize) as int;
    lemma_bucket_of(key.addr, b.len() as usize);
    lemma_bucket_of(other.addr, b.len() as usize);
    let q = b[i];
    let meant = wakes(key, bitset);
    let stay = parted(q, meant, max_count).0;
    let mine = |item: FutexItem| item.key == key;
    let on = |item: FutexItem| bitset & item.bitset != 0;
    let off = |item: FutexItem| bitset & item.bitset == 0;
    let rest = |item: FutexItem| item.key == key && bitset & item.bitset == 0;
    law_first_are_taken(q, meant, max_count);
    lemma_rest_stays(q, meant, max_count);
    lemma_filter_twice(q, mine, on, meant);
    lemma_filter_twice(stay, mine, on, meant);
    lemma_filter_twice(q, mine, off, rest);
    lemma_filter_twice(stay, mine, off, rest);
    lemma_others_picked(q, meant, max_count, rest);
    if i == j {
        lemma_others_picked(q, meant, max_count, |item: FutexItem| item.key == other);
    }
}

/// Two wake-ups wake together the threads that one wake-up for as many as both wakes, in the same
/// order.
pub proof fn law_wakes_add_up(
    b: Seq<Seq<FutexItem>>,
    key: FutexKey,
    m: nat,
    n: nat,
    bitset: FutexBitSet,
)
    requires
        buckets_wf(b),
    ensures
        ({
            let (b1, first) = woken_up(b, key, m, bitset);
            let (b2, second) = woken_up(b1, key, n, bitset);
            first + second == woken_up(b, key, m + n, bitset).1
        }),
{
    let i = bucket_of(key.addr, b.len() as usize) as int;
    lemma_bucket_of(key.addr, b.len() as usize);
    let (b1, first) = woken_up(b, key, m, bitset);
    let second = woken_up(b1, key, n, bitset).1;
    let meant = wakes(key, bitset);
    let f = b[i].filter(meant);
    law_first_are_taken(b[i], meant, m);
    law_first_are_taken(b[i], meant, m + n);
    law_first_are_taken(b1[i], meant, n);
    lemma_rest_stays(b[i], meant, m);
    assert(first + second =~= woken_up(b, key, m + n, bitset).1);
}

/// A thread is woken only if it waits for the futex with one of the bits.
pub proof fn law_only_waiters_are_woken(
    b: Seq<Seq<FutexItem>>,
    key: FutexKey,
    max_count: nat,
    bitset: FutexBitSet,
    k: int,
)
    requires
        buckets_wf(b),
        0 <= k < woken_up(b, key, max_count, bitset).1.len(),
    ensures
        exists|i: int, j: int|
            0 <= i < b.len() && 0 <= j < b[i].len() && (#[trigger] b[i][j]).key == key && bitset
                & b[i][j].bitset != 0 && b[i][j].waiter == woken_up(b, key, max_count, bitset).1[k],
{
    let i = bucket_of(key.addr, b.len() as usize) as int;
    lemma_bucket_of(key.addr, b.len() as usize);
    let meant = wakes(key, bitset);
    lemma_parted_from(b[i], meant, max_count);
    let taken = parted(b[i], meant, max_count).1;
    assert(b[i].contains(taken[k]) && meant(taken[k]));
    let j = choose|j: int| 0 <= j < b[i].len() && b[i][j] == taken[k];
    assert(b[i][j].key == key);
}

/// Requeueing makes the first of the threads that wait for a futex wait for the other one, as many
/// as there are but no more than `max_count`. The rest wait for the first one still, in the same
/// order, and the waiters of all further futexes stay as they are.
pub proof fn law_requeue_takes_first(
    b: Seq<Seq<FutexItem>>,
    key: FutexKey,
    new_key: FutexKey,
    max_count: nat,
    other: FutexKey,
)
    requires
        buckets_wf(b),
        key != new_key,
        other != key,
        other != new_key,
    ensures
        ({
            let b2 = requeued(b, key, new_key, max_count);
            let mine = queue_of(b, key);
            let n = at_most(mine.len(), max_count);
            let moved = mine.take(n).map_values(
                |item: FutexItem| FutexItem { key: new_key, bitset: item.bitset, waiter: item.waiter },
            );
            &&& queue_of(b2, key) == mine.skip(n)
            &&& queue_of(b2, new_key).to_multiset() == queue_of(b, new_key).to_multiset().add(
                moved.to_multiset(),
            )
            &&& queue_of(b, new_key).len() == 0 ==> queue_of(b2, new_key) == moved
            &&& queue_of(b2, other) == queue_of(b, other)
            &&& b2.len() == b.len()
        }),
{
    let i = bucket_of(key.addr, b.len() as usize) as int;
    let j = bucket_of(new_key.addr, b.len() as usize) as int;
    let k = bucket_of(other.addr, b.len() as usize) as int;
    lemma_bucket_of(key.addr, b.len() as usize);
    lemma_bucket_of(new_key.addr, b.len() as usize);
    lemma_bucket_of(other.addr, b.len() as usize);
    let b2 = requeued(b, key, new_key, max_count);
    let old_items = |item: FutexItem| item.key == key;
    let new_items = |item: FutexItem| item.key == new_key;
    let other_items = |item: FutexItem| item.key == other;
    let mine = queue_of(b, key);
    let n = at_most(mine.len(), max_count);
    let moved = mine.take(n).map_values(
        |item: FutexItem| FutexItem { key: new_key, bitset: item.bitset, waiter: item.waiter },
    );
    assert(moved =~= rekeyed(mine.take(n), new_key));
    if i == j {
        lemma_redirected_filters(b[i], key, new_key, max_count, old_items, new_items);
        if k == i {
            lemma_redirected_others(b[i], key, new_key, max_count, other_items);
        }
    } else {
        let q = b[i];
        let meant = waits_for(key);
        let (stay, taken) = parted(q, meant, max_count);
        law_first_are_taken(q, meant, max_count);
        lemma_rest_stays(q, meant, max_count);
        lemma_filter_agree(q, meant, old_items);
        lemma_filter_agree(stay, meant, old_items);
        assert(taken =~= mine.take(n));
        lemma_all_picked(moved, new_items);
        Seq::filter_distributes_over_add(b[j], moved, new_items);
        Seq::filter_distributes_over_add(b[j], moved, other_items);
        assert(b2[j] == b[j] + moved);
        vstd::seq_lib::lemma_multiset_commutative(b[j].filter(new_items), moved);
        assert(queue_of(b, new_key).len() == 0 ==> queue_of(b2, new_key) =~= moved);
        lemma_others_picked(q, meant, max_count, other_items);
        lemma_none_picked(moved, other_items);
        assert(b[j].filter(other_items) + Seq::<FutexItem>::empty() =~= b[j].filter(other_items));
    }
}

/// A condition that all items meet picks all of them.
proof fn lemma_all_picked(q: Seq<FutexItem>, meant: spec_fn(FutexItem) -> bool)
    requires
        forall|i: int| 0 <= i < q.len() ==> meant(#[trigger] q[i]),
    ensures
        q.filter(meant) == q,
    decreases q.len(),
{
    reveal(Seq::filter);
    if q.len() > 0 {
        let p = q.drop_last();
        assert forall|i: int| 0 <= i < p.len() implies meant(#[trigger] p[i]) by {
            assert(p[i] == q[i]);
        }
        lemma_all_picked(p, meant);
        assert(meant(q[q.len() - 1]));
        assert(p.push(q.last()) =~= q);
    } else {
        assert(q.filter(meant) =~= q);
    }
}

/// A condition that no item meets picks none.
proof fn lemma_none_picked(q: Seq<FutexItem>, meant: spec_fn(FutexItem) -> bool)
    requires
        forall|i: int| 0 <= i < q.len() ==> !meant(#[trigger] q[i]),
    ensures
        q.filter(meant) == Seq::<FutexItem>::empty(),
    decreases q.len(),
{
    reveal(Seq::filter);
    if q.len() > 0 {
        let p = q.drop_last();
        assert forall|i: int| 0 <= i < p.len() implies !meant(#[trigger] p[i]) by {
            assert(p[i] == q[i]);
        }
        lemma_none_picked(p, meant);
        assert(!meant(q[q.len() - 1]));
    } else {
        assert(q.filter(meant) =~= q);
    }
}

/// Waking and requeueing together wakes the first of the threads that wait for the futex, as many
/// as there are but no more than `max_nwakes`. Of those that are left, the first wait for the other
/// futex, as many as there are but no more than `max_nrequeues`, and the rest wait for the first
/// one still. The waiters of all further futexes stay as they are. If both are the same futex, all
/// that are not woken wait for it still. This holds of threads that wait with at least one bit.
pub proof fn law_requeue_wakes_then_moves(
    b: Seq<Seq<FutexItem>>,
    key: FutexKey,
    max_nwakes: nat,
    max_nrequeues: nat,
    new_key: FutexKey,
    other: FutexKey,
)
    requires
        buckets_wf(b),
        other != key,
        other != new_key,
        forall|k: int| 0 <= k < queue_of(b, key).len() ==> (#[trigger] queue_of(b, key)[k]).bitset != 0,
    ensures
        ({
            let (b2, threads) = woken_and_requeued(b, key, max_nwakes, max_nrequeues, new_key);
            let mine = queue_of(b, key);
            let n = at_most(mine.len(), max_nwakes);
            let left = mine.skip(n);
            let m = at_most(left.len(), max_nrequeues);
            let moved = left.take(m).map_values(
                |item: FutexItem| FutexItem { key: new_key, bitset: item.bitset, waiter: item.waiter },
            );
            &&& threads == mine.take(n).map_values(|item: FutexItem| item.waiter)
            &&& threads.len() == n
            &&& key == new_key ==> queue_of(b2, key) == left
            &&& key != new_key ==> {
                &&& queue_of(b2, key) == left.skip(m)
                &&& queue_of(b2, new_key).to_multiset() == queue_of(b, new_key).to_multiset().add(
                    moved.to_multiset(),
                )
                &&& queue_of(b, new_key).len() == 0 ==> queue_of(b2, new_key) == moved
            }
            &&& queue_of(b2, other) == queue_of(b, other)
        }),
{
    let (b1, woken) = woken_up(b, key, max_nwakes, FUTEX_BITSET_MATCH_ANY);
    let mine = queue_of(b, key);
    let on = |item: FutexItem| FUTEX_BITSET_MATCH_ANY & item.bitset != 0;
    let i = bucket_of(key.addr, b.len() as usize) as int;
    lemma_bucket_of(key.addr, b.len() as usize);
    let meant = wakes(key, FUTEX_BITSET_MATCH_ANY);
    let old_items = |item: FutexItem| item.key == key;
    let q = b[i];
    let stay = parted(q, meant, max_nwakes).0;
    assert forall|k: int| 0 <= k < mine.len() implies on(#[trigger] mine[k]) by {
        let x = mine[k].bitset;
        assert(x != 0);
        assert(0xFFFF_FFFFu32 & x != 0) by (bit_vector)
            requires
                x != 0,
        ;
    }
    lemma_all_picked(mine, on);
    lemma_filter_twice(q, old_items, on, meant);
    assert(mine == q.filter(meant));
    assert forall|k: int| 0 <= k < q.len() implies meant(#[trigger] q[k]) == old_items(q[k]) by {
        if old_items(q[k]) {
            lemma_filter_at(q, old_items, k);
            let n = q.take(k).filter(old_items).len() as int;
            assert(mine[n] == q[k]);
            assert(on(mine[n]));
        }
    }
    lemma_parted_from(q, meant, max_nwakes);
    assert forall|k: int| 0 <= k < stay.len() implies meant(#[trigger] stay[k]) == old_items(
        stay[k],
    ) by {
        assert(q.contains(stay[k]));
        let n = choose|n: int| 0 <= n < q.len() && q[n] == stay[k];
        assert(meant(q[n]) == old_items(q[n]));
    }
    lemma_filter_agree(stay, meant, old_items);
    law_first_are_taken(q, meant, max_nwakes);
    lemma_rest_stays(q, meant, max_nwakes);
    let n = at_most(mine.len(), max_nwakes);
    assert(woken =~= mine.take(n).map_values(|item: FutexItem| item.waiter));
    assert(queue_of(b1, key) == mine.skip(n));
    law_wake_takes_first(b, key, max_nwakes, FUTEX_BITSET_MATCH_ANY, other);
    if key != new_key {
        law_wake_takes_first(b, key, max_nwakes, FUTEX_BITSET_MATCH_ANY, new_key);
        assert forall|k: int, j: int| 0 <= k < b1.len() && 0 <= j < b1[k].len() implies bucket_of(
            (#[trigger] b1[k][j]).key.addr,
            b1.len() as usize,
        ) == k by {
            if k == i {
                assert(q.contains(stay[j]));
                let l = choose|l: int| 0 <= l < q.len() && q[l] == stay[j];
                assert(b[i][l] == b1[k][j]);
            } else {
                assert(b1[k][j] == b[k][j]);
            }
        }
        law_requeue_takes_first(b1, key, new_key, max_nrequeues, other);
    }
}

/// Whatever the bits of the waiters, waking and requeueing together wakes as many threads as wait
/// for the futex with at least one bit, but no more than `max_nwakes`, and they are the first ones.
pub proof fn law_requeue_wake_count(
    b: Seq<Seq<FutexItem>>,
    key: FutexKey,
    max_nwakes: nat,
    max_nrequeues: nat,
    new_key: FutexKey,
)
    requires
        buckets_wf(b),
    ensures
        ({
            let threads = woken_and_requeued(b, key, max_nwakes, max_nrequeues, new_key).1;
            let meant = queue_of(b, key).filter(|item: FutexItem| item.bitset != 0);
            &&& threads.len() == at_most(meant.len(), max_nwakes)
            &&& forall|k: int| 0 <= k < threads.len() ==> #[trigger] threads[k] == meant[k].waiter
        }),
{
    let mine = queue_of(b, key);
    let on = |item: FutexItem| FUTEX_BITSET_MATCH_ANY & item.bitset != 0;
    let some = |item: FutexItem| item.bitset != 0;
    assert forall|k: int| 0 <= k < mine.len() implies on(#[trigger] mine[k]) == some(mine[k]) by {
        let x = mine[k].bitset;
        assert(0xFFFF_FFFFu32 & x != 0 <==> x != 0) by (bit_vector);
    }
    lemma_filter_agree(mine, on, some);
    let other = FutexKey {
        addr: if key.addr == 0 {
            1
        } else {
            0
        },
    };
    law_wake_takes_first(b, key, max_nwakes, FUTEX_BITSET_MATCH_ANY, other);
}

/// Addresses of one word of four bytes belong to the same queue. Of a power of two of queues, it is
/// the one that the number of the word, divided by the number of queues, leaves as a rest.
pub proof fn law_word_has_one_queue(a: usize, b: usize, size: usize, n: nat)
    requires
        size > 0,
        a / 4 == b / 4,
        n < 64,
        size == pow2(n),
    ensures
        bucket_of(a, size) == bucket_of(b, size),
        bucket_of(a, size) == (a / 4 / size) % size,
{
    assert(a >> 2 == a / 4 && b >> 2 == b / 4) by (bit_vector);
    let x = (a >> 2) / size;
    let m = (size - 1) as usize;
    assert((m & x) as u64 == (m as u64) & (x as u64)) by (bit_vector);
    assert((m as u64) & (x as u64) == (x as u64) & (m as u64)) by (bit_vector);
    vstd::bits::lemma_u64_low_bits_mask_is_mod(x as u64, n);
}

/// The number of queues is the least power of two that is large enough.
pub proof fn law_next_power_is_least(r: int, n: int, k: nat)
    requires
        is_next_power_of_two(r, n),
        n <= pow2(k),
    ensures
        n <= r <= pow2(k),
        is_pow2(r),
{
    lemma_pow2_pos(k);
    is_pow2_equiv(r);
    let j = choose|j: nat| pow(2, j) == r;
    lemma_pow2(j);
    if j < k {
        lemma_pow2_strictly_increases(j, k);
    } else if j > k {
        lemma_pow2_unfold(j);
        let i = (j - 1) as nat;
        if k < i {
            lemma_pow2_strictly_increases(k, i);
        }
        assert(r / 2 == pow2(i));
        if r == 1 {
            lemma_pow2_pos(i);
        }
    }
}

/// Threads that come over from another queue stand behind all that wait there already, in the order
/// in which they waited. Where both futexes have the same queue, every thread keeps its place in
/// it.
pub proof fn law_requeue_keeps_order(
    b: Seq<Seq<FutexItem>>,
    key: FutexKey,
    new_key: FutexKey,
    max_count: nat,
)
    requires
        buckets_wf(b),
        key != new_key,
    ensures
        ({
            let b2 = requeued(b, key, new_key, max_count);
            let i = bucket_of(key.addr, b.len() as usize) as int;
            let j = bucket_of(new_key.addr, b.len() as usize) as int;
            let mine = queue_of(b, key);
            let n = at_most(mine.len(), max_count);
            &&& i != j ==> {
                &&& b2[j].len() == b[j].len() + n
                &&& b2[j].take(b[j].len() as int) == b[j]
                &&& forall|k: int|
                    0 <= k < n ==> #[trigger] b2[j][b[j].len() + k] == (FutexItem {
                        key: new_key,
                        ..mine[k]
                    })
                &&& b2[i].len() == b[i].len() - n
            }
            &&& i == j ==> b2[i].len() == b[i].len() && forall|k: int|
                0 <= k < b[i].len() ==> #[trigger] b2[i][k] == (FutexItem {
                    key: b2[i][k].key,
                    ..b[i][k]
                })
            &&& forall|k: int| 0 <= k < b.len() && k != i && k != j ==> #[trigger] b2[k] == b[k]
        }),
{
    let i = bucket_of(key.addr, b.len() as usize) as int;
    let j = bucket_of(new_key.addr, b.len() as usize) as int;
    lemma_bucket_of(key.addr, b.len() as usize);
    lemma_bucket_of(new_key.addr, b.len() as usize);
    let b2 = requeued(b, key, new_key, max_count);
    let mine = queue_of(b, key);
    let n = at_most(mine.len(), max_count);
    if i == j {
        lemma_redirected_from(b[i], key, new_key, max_count);
    } else {
        let q = b[i];
        let meant = waits_for(key);
        let (stay, taken) = parted(q, meant, max_count);
        law_first_are_taken(q, meant, max_count);
        lemma_filter_agree(q, meant, |item: FutexItem| item.key == key);
        assert(taken =~= mine.take(n));
        law_none_lost(q, meant, max_count);
        broadcast use vstd::seq_lib::group_to_multiset_ensures;

        assert(stay.to_multiset().add(taken.to_multiset()).len() == stay.len() + taken.len());
        assert(b2[j] == b[j] + rekeyed(taken, new_key));
        assert(b2[j].take(b[j].len() as int) =~= b[j]);
        assert forall|k: int| 0 <= k < n implies #[trigger] b2[j][b[j].len() + k] == (FutexItem {
            key: new_key,
            ..mine[k]
        }) by {
            assert(rekeyed(taken, new_key)[k] == (FutexItem { key: new_key, ..taken[k] }));
        }
    }
}

/// Waking and requeueing together is waking first, with all bits, and then requeueing what is left,
/// unless both futexes are the same: then nothing is requeued.
pub proof fn law_requeue_follows_wake(
    b: Seq<Seq<FutexItem>>,
    key: FutexKey,
    max_nwakes: nat,
    max_nrequeues: nat,
    new_key: FutexKey,
)
    ensures
        ({
            let (after_wake, woken) = woken_up(b, key, max_nwakes, 0xFFFF_FFFF);
            let (after, threads) = woken_and_requeued(b, key, max_nwakes, max_nrequeues, new_key);
            &&& threads == woken
            &&& key.addr == new_key.addr ==> after == after_wake
            &&& key.addr != new_key.addr ==> after == requeued(after_wake, key, new_key, max_nrequeues)
        }),
{
}

} // verus!
