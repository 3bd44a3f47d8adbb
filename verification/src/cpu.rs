//! CPU numbers, sets of CPUs, and data that each CPU has a copy of its own of.
use vstd::prelude::*;

use crate::trap::LocalIrq;

verus! {

/// Returns the number of CPUs, given the count that the boot code recorded: one CPU before it has.
pub fn num_cpus(recorded: &Option<u32>) -> (n: u32)
    ensures
        n == (match *recorded {
            Some(n) => n,
            None => 1u32,
        }),
{
    match recorded {
        Some(n) => *n,
        None => 1,
    }
}

/// A growable row of bits, held in a `bitvec` bit vector.
#[verifier::external_body]
pub struct BitRow {
    inner: bitvec::vec::BitVec,
}

/// The bits that a row holds, in index order.
pub uninterp spec fn row_bits(row: BitRow) -> Seq<bool>;

/// `BitVec::with_capacity`: an empty bit vector. The crate refuses a capacity of more than an
/// eighth of the range of `usize`.
#[verifier::external_body]
fn bits_with_capacity(capacity: usize) -> (row: BitRow)
    requires
        capacity * 8 <= usize::MAX,
    ensures
        row_bits(row) == Seq::<bool>::empty(),
{
    BitRow { inner: bitvec::vec::BitVec::with_capacity(capacity) }
}

/// `BitVec::resize`: cuts the vector to `new_len` bits, or fills it up to them with `value`.
#[verifier::external_body]
fn bits_resize(row: &mut BitRow, new_len: usize, value: bool)
    requires
        new_len * 8 <= usize::MAX,
    ensures
        row_bits(*final(row)).len() == new_len,
        forall|i: int|
            0 <= i < new_len ==> #[trigger] row_bits(*final(row))[i] == if i < row_bits(
                *old(row),
            ).len() {
                row_bits(*old(row))[i]
            } else {
                value
            },
{
    row.inner.resize(new_len, value);
}

/// `BitSlice::set`: writes one bit. The crate panics on an index past the end.
#[verifier::external_body]
fn bits_set(row: &mut BitRow, index: usize, value: bool)
    requires
        index < row_bits(*old(row)).len(),
    ensures
        row_bits(*final(row)) == row_bits(*old(row)).update(index as int, value),
{
    row.inner.set(index, value);
}

/// `BitSlice::fill`: writes every bit, and keeps the length.
#[verifier::external_body]
fn bits_fill(row: &mut BitRow, value: bool)
    ensures
        row_bits(*final(row)) == Seq::new(row_bits(*old(row)).len(), |i: int| value),
{
    row.inner.fill(value);
}

/// `BitSlice::get`: reads one bit, or nothing past the end.
#[verifier::external_body]
fn bits_get(row: &BitRow, index: usize) -> (bit: Option<bool>)
    ensures
        bit == (if index < row_bits(*row).len() {
            Some(row_bits(*row)[index as int])
        } else {
            None
        }),
{
    row.inner.get(index).as_deref().copied()
}

/// `BitSlice::iter_ones`, collected: the index of each set bit once, from the lowest up.
#[verifier::external_body]
fn bits_iter_ones(row: &BitRow) -> (ones: Vec<usize>)
    ensures
        lists_ones(ones@, row_bits(*row)),
{
    row.inner.iter_ones().collect()
}

/// Whether `ones` lists the indices of the set bits of `bits`, each once, in increasing order.
pub open spec fn lists_ones(ones: Seq<usize>, bits: Seq<bool>) -> bool {
    &&& forall|i: int, j: int| 0 <= i < j < ones.len() ==> ones[i] < ones[j]
    &&& forall|i: int| 0 <= i < ones.len() ==> (#[trigger] ones[i]) < bits.len() && bits[ones[i] as int]
    &&& forall|c: usize| c < bits.len() && bits[c as int] ==> #[trigger] ones.contains(c)
}

/// A set of CPUs. Its view has one entry for each CPU of the machine, which says whether that
/// CPU belongs to the set.
pub struct CpuSet {
    bitset: BitRow,
}

impl View for CpuSet {
    type V = Seq<bool>;

    closed spec fn view(&self) -> Seq<bool> {
        row_bits(self.bitset)
    }
}

/// Whether CPU number `cpu` belongs to the set with the view `bits`.
pub open spec fn in_set(bits: Seq<bool>, cpu: int) -> bool {
    0 <= cpu < bits.len() && bits[cpu]
}

impl CpuSet {
    fn new_with(num_cpus: u32, value: bool) -> (set: CpuSet)
        requires
            num_cpus * 8 <= usize::MAX,
        ensures
            set@ == Seq::new(num_cpus as nat, |i: int| value),
    {
        let mut bitset = bits_with_capacity(num_cpus as usize);
        bits_resize(&mut bitset, num_cpus as usize, value);
        let set = CpuSet { bitset };
        assert(set@ =~= Seq::new(num_cpus as nat, |i: int| value));
        set
    }

    /// The set of all CPUs of a machine that has `num_cpus` of them.
    pub fn new_full(num_cpus: u32) -> (set: CpuSet)
        requires
            num_cpus * 8 <= usize::MAX,
        ensures
            set@ == Seq::new(num_cpus as nat, |i: int| true),
    {
        CpuSet::new_with(num_cpus, true)
    }

    /// The empty set, on a machine that has `num_cpus` CPUs.
    pub fn new_empty(num_cpus: u32) -> (set: CpuSet)
        requires
            num_cpus * 8 <= usize::MAX,
        ensures
            set@ == Seq::new(num_cpus as nat, |i: int| false),
    {
        CpuSet::new_with(num_cpus, false)
    }

    /// The set that holds the CPU `cpu_id` alone.
    pub fn single(num_cpus: u32, cpu_id: u32) -> (set: CpuSet)
        requires
            num_cpus * 8 <= usize::MAX,
            cpu_id < num_cpus,
        ensures
            set@ == Seq::new(num_cpus as nat, |i: int| i == cpu_id),
    {
        let mut set = CpuSet::new_empty(num_cpus);
        set.add(cpu_id);
        assert(set@ =~= Seq::new(num_cpus as nat, |i: int| i == cpu_id));
        set
    }

    /// Adds one CPU.
    pub fn add(&mut self, cpu_id: u32)
        requires
            cpu_id < old(self)@.len(),
        ensures
            final(self)@ == old(self)@.update(cpu_id as int, true),
    {
        bits_set(&mut self.bitset, cpu_id as usize, true);
    }

    /// Adds every CPU of a list.
    pub fn add_from_vec(&mut self, cpu_ids: Vec<u32>)
        requires
            forall|i: int| 0 <= i < cpu_ids.len() ==> cpu_ids[i] < old(self)@.len(),
        ensures
            final(self)@ == Seq::new(
                old(self)@.len(),
                |c: int| old(self)@[c] || names(cpu_ids@, c),
            ),
    {
        let ghost before = self@;
        let n: usize = cpu_ids.len();
        for k in 0..n
            invariant
                n == cpu_ids.len(),
                before == old(self)@,
                self@.len() == before.len(),
                forall|i: int| 0 <= i < cpu_ids.len() ==> cpu_ids[i] < before.len(),
                forall|c: int|
                    0 <= c < before.len() ==> (#[trigger] self@[c] <==> before[c] || names(
                        cpu_ids@.take(k as int),
                        c,
                    )),
        {
            proof {
                lemma_names_push(cpu_ids@, k as int);
            }
            self.add(cpu_ids[k]);
        }
        assert(cpu_ids@.take(n as int) =~= cpu_ids@);
        assert(self@ =~= Seq::new(before.len(), |c: int| before[c] || names(cpu_ids@, c)));
    }

    /// Adds every CPU of the machine.
    pub fn add_all(&mut self)
        ensures
            final(self)@ == Seq::new(old(self)@.len(), |c: int| true),
    {
        bits_fill(&mut self.bitset, true);
        assert(self@ =~= Seq::new(old(self)@.len(), |c: int| true));
    }

    /// Takes one CPU out.
    pub fn remove(&mut self, cpu_id: u32)
        requires
            cpu_id < old(self)@.len(),
        ensures
            final(self)@ == old(self)@.update(cpu_id as int, false),
    {
        bits_set(&mut self.bitset, cpu_id as usize, false);
    }

    /// Takes every CPU of a list out.
    pub fn remove_from_vec(&mut self, cpu_ids: Vec<u32>)
        requires
            forall|i: int| 0 <= i < cpu_ids.len() ==> cpu_ids[i] < old(self)@.len(),
        ensures
            final(self)@ == Seq::new(
                old(self)@.len(),
                |c: int| old(self)@[c] && !names(cpu_ids@, c),
            ),
    {
        let ghost before = self@;
        let n: usize = cpu_ids.len();
        for k in 0..n
            invariant
                n == cpu_ids.len(),
                before == old(self)@,
                self@.len() == before.len(),
                forall|i: int| 0 <= i < cpu_ids.len() ==> cpu_ids[i] < before.len(),
                forall|c: int|
                    0 <= c < before.len() ==> (#[trigger] self@[c] <==> before[c] && !names(
                        cpu_ids@.take(k as int),
                        c,
                    )),
        {
            proof {
                lemma_names_push(cpu_ids@, k as int);
            }
            self.remove(cpu_ids[k]);
        }
        assert(cpu_ids@.take(n as int) =~= cpu_ids@);
        assert(self@ =~= Seq::new(before.len(), |c: int| before[c] && !names(cpu_ids@, c)));
    }

    /// Takes every CPU out.
    pub fn clear(&mut self)
        ensures
            final(self)@ == Seq::new(old(self)@.len(), |c: int| false),
    {
        bits_fill(&mut self.bitset, false);
        assert(self@ =~= Seq::new(old(self)@.len(), |c: int| false));
    }

    /// Whether a CPU belongs to the set. A CPU that the machine does not have belongs to none.
    pub fn contains(&self, cpu_id: u32) -> (r: bool)
        ensures
            r == in_set(self@, cpu_id as int),
    {
        match bits_get(&self.bitset, cpu_id as usize) {
            Some(bit) => bit,
            None => false,
        }
    }

    /// The CPUs of the set, from the lowest number up.
    pub fn iter(&self) -> (ones: Vec<usize>)
        ensures
            lists_ones(ones@, self@),
    {
        bits_iter_ones(&self.bitset)
    }
}

impl Default for CpuSet {
    /// A set on a machine without CPUs.
    fn default() -> (set: Self)
        ensures
            set@ == Seq::<bool>::empty(),
    {
        CpuSet { bitset: bits_with_capacity(0) }
    }
}

/// Whether CPU number `c` is on the list `ids`.
pub open spec fn names(ids: Seq<u32>, c: int) -> bool {
    exists|i: int| 0 <= i < ids.len() && #[trigger] ids[i] == c
}

proof fn lemma_names_push(ids: Seq<u32>, k: int)
    requires
        0 <= k < ids.len(),
    ensures
        forall|c: int|
            #[trigger] names(ids.take(k + 1), c) <==> names(ids.take(k), c) || c == ids[k],
{
    assert forall|c: int| #[trigger] names(ids.take(k + 1), c) implies names(ids.take(k), c) || c
        == ids[k] by {
        let i = choose|i: int| 0 <= i < k + 1 && #[trigger] ids.take(k + 1)[i] == c;
        if i < k {
            assert(ids.take(k)[i] == c);
        }
    }
    assert forall|c: int| names(ids.take(k), c) || c == ids[k] implies #[trigger] names(
        ids.take(k + 1),
        c,
    ) by {
        if c == ids[k] {
            assert(ids.take(k + 1)[k] == c);
        } else {
            let i = choose|i: int| 0 <= i < k && #[trigger] ids.take(k)[i] == c;
            assert(ids.take(k + 1)[i] == c);
        }
    }
}

/// A set built with `single` holds that CPU and no other.
pub proof fn law_single_holds_one(num_cpus: u32, cpu_id: u32, other: int)
    requires
        cpu_id < num_cpus,
    ensures
        in_set(Seq::new(num_cpus as nat, |i: int| i == cpu_id), other) <==> other == cpu_id,
{
}

/// Taking out what was just added gives back a set that did not hold it, and changes nothing else.
pub proof fn law_remove_undoes_add(bits: Seq<bool>, cpu_id: u32)
    requires
        cpu_id < bits.len(),
        !in_set(bits, cpu_id as int),
    ensures
        bits.update(cpu_id as int, true).update(cpu_id as int, false) == bits,
{
    assert(bits.update(cpu_id as int, true).update(cpu_id as int, false) =~= bits);
}

/// A value that each CPU has a copy of its own of. It is used with the interrupts of that CPU
/// turned off, so that nothing else on the CPU sees it in the meantime.
pub struct CpuLocal<T>(T);

impl<T> View for CpuLocal<T> {
    type V = T;

    closed spec fn view(&self) -> T {
        self.0
    }
}

/// The flag of a CPU that takes no interrupts.
pub open spec fn irq_off() -> LocalIrq {
    LocalIrq { enabled: false }
}

impl<T> CpuLocal<T> {
    /// The copy of one CPU, with its first value.
    pub fn new(val: T) -> (r: Self)
        ensures
            r@ == val,
    {
        CpuLocal(val)
    }

    /// Hands the value to a function, and the interrupt flag of the CPU, which is off while the
    /// function runs. The flag is afterwards what it was.
    ///
    /// So the value is only used by the current task or interrupt handler in the meantime. The
    /// function should be as short as possible.
    pub fn with<U, F: FnOnce(&T, &LocalIrq) -> U>(&self, irq: &mut LocalIrq, f: F) -> (r: U)
        requires
            call_requires(f, (&self@, &irq_off())),
        ensures
            call_ensures(f, (&self@, &irq_off()), r),
            *final(irq) == *old(irq),
    {
        let guard = irq.disable_local();
        let r = f(&self.0, irq);
        irq.restore(guard);
        r
    }

    /// A copy of the value.
    pub fn get(&self) -> (r: T) where T: Copy
        ensures
            r == self@,
    {
        self.0
    }

    /// Replaces the value.
    pub fn set(&mut self, value: T)
        ensures
            final(self)@ == value,
    {
        self.0 = value;
    }

    /// Replaces the value and gives back the one before.
    pub fn replace(&mut self, value: T) -> (r: T)
        ensures
            r == old(self)@,
            final(self)@ == value,
    {
        let mut other = value;
        std::mem::swap(&mut self.0, &mut other);
        other
    }

    /// Takes the value out and leaves the default of its type.
    pub fn take(&mut self) -> (r: T) where T: Default
        ensures
            r == old(self)@,
            call_ensures(T::default, (), final(self)@),
    {
        let fresh = T::default();
        self.replace(fresh)
    }

    /// Hands the value to a function that reads it, with interrupts off while it runs.
    pub fn with_borrow<R, F: FnOnce(&T, &LocalIrq) -> R>(&self, irq: &mut LocalIrq, f: F) -> (r: R)
        requires
            call_requires(f, (&self@, &irq_off())),
        ensures
            call_ensures(f, (&self@, &irq_off()), r),
            *final(irq) == *old(irq),
    {
        self.with(irq, f)
    }

    /// Hands the value to a function that may change it, with interrupts off while it runs.
    pub fn with_borrow_mut<R, F: FnOnce(&mut T, &LocalIrq) -> R>(
        &mut self,
        irq: &mut LocalIrq,
        f: F,
    ) -> (r: R)
        requires
            forall|m: &mut T| *m == old(self)@ ==> call_requires(f, (m, &irq_off())),
        ensures
            exists|m: &mut T|
                *m == old(self)@ && *final(m) == final(self)@ && call_ensures(
                    f,
                    (m, &irq_off()),
                    r,
                ),
            *final(irq) == *old(irq),
    {
        let guard = irq.disable_local();
        let r = f(&mut self.0, irq);
        irq.restore(guard);
        r
    }
}

/// A CPU belongs to a set exactly if the machine has it and its bit is set, and a list of the set
/// names exactly the CPUs that belong to it.
pub proof fn law_list_names_members(ones: Seq<usize>, bits: Seq<bool>, c: usize)
    requires
        lists_ones(ones, bits),
    ensures
        in_set(bits, c as int) <==> c < bits.len() && bits[c as int],
        in_set(bits, c as int) <==> ones.contains(c),
        ones.no_duplicates(),
{
    if ones.contains(c) {
        let i = choose|i: int| 0 <= i < ones.len() && ones[i] == c;
        assert(bits[ones[i] as int]);
    }
}

} // verus!
