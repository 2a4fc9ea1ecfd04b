//! Pooled per-frame storage: objects are bucketed by power-of-two size class and
//! recycled from one frame to the next instead of being rebuilt.

use vstd::prelude::*;
use vstd::std_specs::bits::u64_leading_zeros;
use vstd::std_specs::bits::axiom_u64_leading_zeros;

verus! {

/// Handle to an object handed out by a `StorageAllocator` in the current frame.
#[derive(Clone, Copy, PartialEq, Eq, Debug)]
pub struct StorageID {
    pub bucket: usize,
    pub index: usize,
}

/// Objects of one size class: those free for reuse and those handed out this frame.
pub struct StorageAllocatorBucket<S> {
    pub free: Vec<S>,
    pub in_use: Vec<S>,
}

/// A pool of objects bucketed by power-of-two size class.
pub struct StorageAllocator<S> {
    pub buckets: Vec<StorageAllocatorBucket<S>>,
    pub min_size_class: usize,
    /// How many objects the pool has built through a constructor so far.
    pub constructed: Ghost<nat>,
}

/// The number of bits needed to write `size`.
pub open spec fn bit_length(size: u64) -> int {
    64 - u64_leading_zeros(size)
}

/// The size class of a request of `size`: its bit length, at least `min`.
pub open spec fn size_class_of(size: u64, min: int) -> int {
    if bit_length(size) > min { bit_length(size) } else { min }
}

/// The bucket that serves a request of `size`.
pub open spec fn bucket_of(size: u64, min: int) -> int {
    size_class_of(size, min) - min
}

/// The capacity requested from the constructor for a request of `size`.
pub open spec fn capacity_of(size: u64, min: int) -> u64 {
    1u64 << (size_class_of(size, min) as u64)
}

/// Free and in-use counts of bucket `b` of a pool whose counts are `m`
/// (buckets past the end are empty).
pub open spec fn counts_at(m: Seq<(nat, nat)>, b: int) -> (nat, nat) {
    if 0 <= b < m.len() { m[b] } else { (0, 0) }
}

/// Counts after one request served by bucket `b`.
pub open spec fn alloc_model(m: Seq<(nat, nat)>, b: int) -> Seq<(nat, nat)> {
    let len = if b + 1 > m.len() { b + 1 } else { m.len() as int };
    Seq::new(len as nat, |i: int| if i == b {
        let c = counts_at(m, b);
        (if c.0 > 0 { (c.0 - 1) as nat } else { 0 }, c.1 + 1)
    } else {
        counts_at(m, i)
    })
}

/// Whether a request served by bucket `b` has to build a new object.
pub open spec fn builds(m: Seq<(nat, nat)>, b: int) -> bool {
    counts_at(m, b).0 == 0
}

/// Counts after the end of a frame: everything in use becomes free.
pub open spec fn end_frame_model(m: Seq<(nat, nat)>) -> Seq<(nat, nat)> {
    Seq::new(m.len(), |i: int| ((m[i].0 + m[i].1) as nat, 0nat))
}

/// Counts after serving the requests of buckets `bs` in order.
pub open spec fn run_model(m: Seq<(nat, nat)>, bs: Seq<int>) -> Seq<(nat, nat)>
    decreases bs.len(),
{
    if bs.len() == 0 {
        m
    } else {
        run_model(alloc_model(m, bs[0]), bs.drop_first())
    }
}

/// How many objects serving the requests of buckets `bs` builds.
pub open spec fn built_by(m: Seq<(nat, nat)>, bs: Seq<int>) -> nat
    decreases bs.len(),
{
    if bs.len() == 0 {
        0
    } else {
        (if builds(m, bs[0]) { 1nat } else { 0nat }) + built_by(alloc_model(m, bs[0]), bs.drop_first())
    }
}

/// How many of the requests `bs` bucket `b` serves.
pub open spec fn count_of(bs: Seq<int>, b: int) -> nat
    decreases bs.len(),
{
    if bs.len() == 0 {
        0
    } else {
        (if bs[0] == b { 1nat } else { 0nat }) + count_of(bs.drop_first(), b)
    }
}

/// The buckets that serve requests of `sizes`.
pub open spec fn buckets_of(sizes: Seq<u64>, min: int) -> Seq<int> {
    Seq::new(sizes.len(), |i: int| bucket_of(sizes[i], min))
}

impl<S> StorageAllocator<S> {
    /// Free and in-use counts of each bucket.
    pub open spec fn counts(&self) -> Seq<(nat, nat)> {
        Seq::new(self.buckets@.len(), |i: int| (
            self.buckets@[i].free@.len(),
            self.buckets@[i].in_use@.len(),
        ))
    }

    /// Whether `id` names an object handed out in the current frame.
    pub open spec fn valid_id(&self, id: StorageID) -> bool {
        &&& id.bucket < self.buckets@.len()
        &&& id.index < self.buckets@[id.bucket as int].in_use@.len()
    }

    /// The object that `id` names.
    pub open spec fn object(&self, id: StorageID) -> S {
        self.buckets@[id.bucket as int].in_use@[id.index as int]
    }

    /// An empty pool whose smallest size class is `min_size_class`.
    pub fn new(min_size_class: usize) -> (r: StorageAllocator<S>)
        ensures
            r.min_size_class == min_size_class,
            r.buckets@.len() == 0,
            r.constructed@ == 0,
    {
        StorageAllocator { buckets: Vec::new(), min_size_class, constructed: Ghost(0) }
    }

    /// Hands out an object of at least `size` units for the current frame, reusing a
    /// free object of the same size class if there is one and calling `allocator`
    /// with the class's capacity otherwise.
    pub fn allocate<F: FnOnce(u64) -> S>(&mut self, size: u64, allocator: F) -> (r: StorageID)
        requires
            old(self).min_size_class < 64,
            size < 0x8000_0000_0000_0000,
            allocator.requires((capacity_of(size, old(self).min_size_class as int),)),
        ensures
            r.bucket as int == bucket_of(size, old(self).min_size_class as int),
            final(self).min_size_class == old(self).min_size_class,
            final(self).counts() == alloc_model(old(self).counts(), r.bucket as int),
            final(self).valid_id(r),
            r.index + 1 == final(self).buckets@[r.bucket as int].in_use@.len(),
            forall|id: StorageID| old(self).valid_id(id) ==> final(self).valid_id(id)
                && final(self).object(id) == old(self).object(id),
            builds(old(self).counts(), r.bucket as int) ==> allocator.ensures(
                (capacity_of(size, old(self).min_size_class as int),),
                final(self).object(r),
            ),
            !builds(old(self).counts(), r.bucket as int) ==> final(self).object(r)
                == old(self).buckets@[r.bucket as int].free@.last(),
            final(self).constructed@ == old(self).constructed@ + if builds(
                old(self).counts(),
                r.bucket as int,
            ) {
                1nat
            } else {
                0nat
            },
            capacity_of(size, old(self).min_size_class as int) > size,
            forall|i: int| 0 <= i < old(self).buckets@.len() && i != r.bucket ==> #[trigger] final(self).buckets@[i]
                == old(self).buckets@[i],
            forall|i: int| old(self).buckets@.len() <= i < final(self).buckets@.len() && i != r.bucket
                ==> (#[trigger] final(self).buckets@[i]).free@.len() == 0 && final(self).buckets@[i].in_use@.len() == 0,
            !builds(old(self).counts(), r.bucket as int) ==> final(self).buckets@[r.bucket as int].free@
                == old(self).buckets@[r.bucket as int].free@.drop_last(),
            builds(old(self).counts(), r.bucket as int) ==> final(self).buckets@[r.bucket as int].free@.len() == 0,
            final(self).buckets@[r.bucket as int].in_use@ == (if r.bucket < old(self).buckets@.len() {
                old(self).buckets@[r.bucket as int].in_use@
            } else {
                Seq::empty()
            }).push(final(self).object(r)),
    {
        let lz = size.leading_zeros();
        proof {
            broadcast use axiom_u64_leading_zeros;
            let l = u64_leading_zeros(size);
            if l == 0 {
                assert((size >> 63u64) & 1u64 != 0u64);
                assert(size < 0x8000_0000_0000_0000u64 ==> (size >> 63u64) & 1u64 == 0u64) by (bit_vector);
            }
        }
        let bits = 64 - lz as usize;
        let size_class = if bits > self.min_size_class { bits } else { self.min_size_class };
        let bucket_index = size_class - self.min_size_class;
        let capacity = 1u64 << (size_class as u64);
        proof {
            let k = (64 - u64_leading_zeros(size)) as u64;
            let c = size_class as u64;
            assert(size >> k == 0);
            assert(k < 64 && (size >> k) == 0 ==> size < (1u64 << k)) by (bit_vector);
            assert(k <= c && c < 64 ==> (1u64 << k) <= (1u64 << c)) by (bit_vector);
        }
        let ghost old_counts = self.counts();
        while self.buckets.len() < bucket_index + 1
            invariant
                self.min_size_class == old(self).min_size_class,
                self.constructed == old(self).constructed,
                bucket_index < usize::MAX,
                self.buckets@.len() >= old(self).buckets@.len(),
                forall|i: int| 0 <= i < old(self).buckets@.len() ==> self.buckets@[i]
                    == old(self).buckets@[i],
                forall|i: int| old(self).buckets@.len() <= i < self.buckets@.len()
                    ==> self.buckets@[i].free@.len() == 0 && self.buckets@[i].in_use@.len() == 0,
                self.buckets@.len() <= (if bucket_index + 1 > old(self).buckets@.len() {
                    bucket_index + 1
                } else {
                    old(self).buckets@.len() as int
                }),
            decreases bucket_index + 1 - self.buckets.len(),
        {
            self.buckets.push(StorageAllocatorBucket { free: Vec::new(), in_use: Vec::new() });
        }
        let ghost mid = self.buckets@;
        let ghost old_free = self.buckets@[bucket_index as int].free@;
        let bucket = &mut self.buckets[bucket_index];
        let popped = bucket.free.pop();
        match popped {
            Some(storage) => {
                bucket.in_use.push(storage);
            },
            None => {
                let storage = allocator(capacity);
                bucket.in_use.push(storage);
                proof {
                    self.constructed@ = self.constructed@ + 1;
                }
            },
        }
        let index = bucket.in_use.len() - 1;
        proof {
            assert(self.counts() =~= alloc_model(old_counts, bucket_index as int));
        }
        StorageID { bucket: bucket_index, index }
    }

    /// The object that `storage_id` names.
    pub fn get(&self, storage_id: StorageID) -> (r: &S)
        requires
            self.valid_id(storage_id),
        ensures
            *r == self.object(storage_id),
    {
        &self.buckets[storage_id.bucket].in_use[storage_id.index]
    }

    /// Ends the frame: every object handed out becomes free for reuse, none is dropped.
    pub fn end_frame(&mut self)
        ensures
            final(self).min_size_class == old(self).min_size_class,
            final(self).constructed == old(self).constructed,
            final(self).buckets@.len() == old(self).buckets@.len(),
            forall|i: int| 0 <= i < final(self).buckets@.len() ==> {
                &&& final(self).buckets@[i].free@ == old(self).buckets@[i].free@ + old(self).buckets@[i].in_use@
                &&& final(self).buckets@[i].in_use@.len() == 0
            },
            final(self).counts() == end_frame_model(old(self).counts()),
    {
        let n = self.buckets.len();
        let mut i: usize = 0;
        while i < n
            invariant
                0 <= i <= n,
                n == self.buckets@.len(),
                self.buckets@.len() == old(self).buckets@.len(),
                self.min_size_class == old(self).min_size_class,
                self.constructed == old(self).constructed,
                forall|j: int| 0 <= j < i ==> {
                    &&& self.buckets@[j].free@ == old(self).buckets@[j].free@ + old(self).buckets@[j].in_use@
                    &&& self.buckets@[j].in_use@.len() == 0
                },
                forall|j: int| i <= j < n ==> self.buckets@[j] == old(self).buckets@[j],
            decreases n - i,
        {
            let bucket = &mut self.buckets[i];
            let mut in_use: Vec<S> = Vec::new();
            std::mem::swap(&mut bucket.in_use, &mut in_use);
            bucket.free.append(&mut in_use);
            i = i + 1;
        }
        assert(self.counts() =~= end_frame_model(old(self).counts()));
    }
}

/// Serving requests raises the in-use count of each bucket by the requests it serves.
pub proof fn lemma_run_in_use(m: Seq<(nat, nat)>, bs: Seq<int>, b: int)
    requires
        forall|i: int| 0 <= i < bs.len() ==> bs[i] >= 0,
    ensures
        counts_at(run_model(m, bs), b).1 == counts_at(m, b).1 + count_of(bs, b),
        run_model(m, bs).len() >= m.len(),
    decreases bs.len(),
{
    if bs.len() > 0 {
        let m1 = alloc_model(m, bs[0]);
        assert(forall|i: int| 0 <= i < bs.drop_first().len() ==> bs.drop_first()[i] == bs[i + 1]);
        lemma_run_in_use(m1, bs.drop_first(), b);
    }
}

/// Where every bucket holds at least as many free objects as it serves requests,
/// serving them builds nothing.
pub proof fn lemma_enough_free_builds_nothing(m: Seq<(nat, nat)>, bs: Seq<int>)
    requires
        forall|i: int| 0 <= i < bs.len() ==> bs[i] >= 0,
        forall|b: int| counts_at(m, b).0 >= #[trigger] count_of(bs, b),
    ensures
        built_by(m, bs) == 0,
    decreases bs.len(),
{
    if bs.len() > 0 {
        let b0 = bs[0];
        let rest = bs.drop_first();
        let m1 = alloc_model(m, b0);
        assert(count_of(bs, b0) >= 1);
        assert(forall|i: int| 0 <= i < rest.len() ==> rest[i] == bs[i + 1]);
        assert forall|b: int| counts_at(m1, b).0 >= #[trigger] count_of(rest, b) by {
            assert(count_of(bs, b) == (if b0 == b { 1nat } else { 0nat }) + count_of(rest, b));
            assert(counts_at(m, b).0 >= count_of(bs, b));
        }
        lemma_enough_free_builds_nothing(m1, rest);
    }
}

/// Objects are recycled, not rebuilt: after serving any list of requests and ending
/// the frame, serving the same requests again builds no object, whatever the pool
/// held before.
pub proof fn lemma_same_requests_after_end_frame_build_nothing(
    m: Seq<(nat, nat)>,
    sizes: Seq<u64>,
    min_size_class: int,
)
    requires
        0 <= min_size_class < 64,
    ensures
        built_by(end_frame_model(run_model(m, buckets_of(sizes, min_size_class))), buckets_of(sizes, min_size_class)) == 0,
        built_by(m, buckets_of(sizes, min_size_class)) <= sizes.len(),
{
    let bs = buckets_of(sizes, min_size_class);
    broadcast use axiom_u64_leading_zeros;
    assert forall|i: int| 0 <= i < bs.len() implies bs[i] >= 0 by {
        assert(bs[i] == bucket_of(sizes[i], min_size_class));
    }
    let after = run_model(m, bs);
    let m2 = end_frame_model(after);
    assert forall|b: int| counts_at(m2, b).0 >= #[trigger] count_of(bs, b) by {
        lemma_run_in_use(m, bs, b);
        if 0 <= b < after.len() {
            assert(counts_at(m2, b).0 == counts_at(after, b).0 + counts_at(after, b).1);
        } else {
            lemma_count_outside(m, bs, b);
        }
    }
    lemma_enough_free_builds_nothing(m2, bs);
    lemma_built_at_most(m, bs);
}

/// A bucket past the end of the counts after serving `bs` serves none of `bs`.
proof fn lemma_count_outside(m: Seq<(nat, nat)>, bs: Seq<int>, b: int)
    requires
        forall|i: int| 0 <= i < bs.len() ==> bs[i] >= 0,
        !(0 <= b < run_model(m, bs).len()),
    ensures
        count_of(bs, b) == 0,
    decreases bs.len(),
{
    if bs.len() > 0 {
        let m1 = alloc_model(m, bs[0]);
        let rest = bs.drop_first();
        assert(forall|i: int| 0 <= i < rest.len() ==> rest[i] == bs[i + 1]);
        lemma_run_in_use(m1, rest, b);
        assert(m1.len() > bs[0]);
        lemma_count_outside(m1, rest, b);
    }
}

/// Serving `bs` builds at most one object per request.
proof fn lemma_built_at_most(m: Seq<(nat, nat)>, bs: Seq<int>)
    ensures
        built_by(m, bs) <= bs.len(),
    decreases bs.len(),
{
    if bs.len() > 0 {
        lemma_built_at_most(alloc_model(m, bs[0]), bs.drop_first());
    }
}

} // verus!
