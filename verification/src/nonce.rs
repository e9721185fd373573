//! Nonce distributor: hands out each trial identifier of a job once, from one
//! cursor or from several interleaved shards of the nonce space.

use vstd::arithmetic::div_mod::{
    lemma_basic_div, lemma_div_is_ordered, lemma_div_minus_one, lemma_div_pos_is_pos,
    lemma_fundamental_div_mod, lemma_mod_bound, lemma_mod_decreases, lemma_mod_multiples_basic,
};
use vstd::arithmetic::mul::{
    lemma_mul_inequality, lemma_mul_is_commutative, lemma_mul_is_distributive_add_other_way,
    lemma_mul_nonnegative,
};
use vstd::prelude::*;

verus! {

/// One past the largest nonce.
pub open spec fn nonce_space() -> int {
    0x1_0000_0000_0000_0000
}

/// The first value that is no nonce of a job with the upper bound `bound`.
pub open spec fn nonce_limit(bound: Option<u64>) -> int {
    match bound {
        Some(b) => b as int,
        None => nonce_space(),
    }
}

/// How many of `first, first + stride, first + 2 * stride, ...` lie below
/// `limit`.
pub open spec fn shard_len(first: int, limit: int, stride: int) -> nat {
    if first < limit && stride > 0 {
        ((limit - 1 - first) / stride + 1) as nat
    } else {
        0
    }
}

/// The nonces `first, first + stride, ...` below `limit`, in the order in
/// which they are issued.
pub open spec fn shard_nonces(first: int, limit: int, stride: int) -> Seq<u64> {
    Seq::new(shard_len(first, limit, stride), |k: int| (first + k * stride) as u64)
}

/// The nonces of shard `index` when the nonces from `origin` up to `bound`
/// are dealt out to `count` shards in turn.
pub open spec fn partition_nonces(origin: u64, bound: Option<u64>, count: int, index: int) -> Seq<
    u64,
> {
    shard_nonces(origin + index, nonce_limit(bound), count)
}

/// Every nonce of a shard lies between its first nonce and the limit.
pub proof fn lemma_shard_bounds(first: int, limit: int, stride: int, k: int)
    requires
        stride > 0,
        0 <= k < shard_len(first, limit, stride),
    ensures
        first <= first + k * stride < limit,
{
    let x = limit - 1 - first;
    let q = x / stride;
    lemma_fundamental_div_mod(x, stride);
    lemma_mod_bound(x, stride);
    lemma_mul_inequality(k, q, stride);
    lemma_mul_is_commutative(q, stride);
    lemma_mul_nonnegative(k, stride);
}

/// A shard that is not exhausted starts with its first nonce, and what
/// follows is the shard that starts one stride later.
pub proof fn lemma_shard_advance(first: int, limit: int, stride: int)
    requires
        stride > 0,
        first < limit,
    ensures
        shard_nonces(first, limit, stride).len() >= 1,
        shard_nonces(first, limit, stride)[0] == first as u64,
        shard_nonces(first + stride, limit, stride) =~= shard_nonces(
            first,
            limit,
            stride,
        ).drop_first(),
{
    let x = limit - 1 - first;
    lemma_div_pos_is_pos(x, stride);
    if first + stride < limit {
        lemma_div_minus_one(x, stride);
        assert(limit - 1 - (first + stride) == -stride + x);
    } else {
        lemma_basic_div(x, stride);
        assert(x / stride == 0);
    }
    let rest = shard_nonces(first + stride, limit, stride);
    let whole = shard_nonces(first, limit, stride);
    assert(rest.len() == whole.len() - 1);
    assert forall|k: int| 0 <= k < rest.len() implies rest[k] == whole.drop_first()[k] by {
        lemma_mul_is_distributive_add_other_way(stride, k, 1);
        assert((k + 1) * stride == k * stride + stride);
    }
}

/// A value is a nonce of a shard exactly if it lies between the shard's first
/// nonce and the limit, a whole number of strides after the first.
pub proof fn lemma_shard_membership(first: int, limit: int, stride: int, n: u64)
    requires
        0 <= first,
        limit <= nonce_space(),
        stride > 0,
    ensures
        shard_nonces(first, limit, stride).contains(n) <==> (first <= n < limit && (n - first)
            % stride == 0),
{
    let shard = shard_nonces(first, limit, stride);
    if shard.contains(n) {
        let k = choose|k: int| 0 <= k < shard.len() && shard[k] == n;
        lemma_shard_bounds(first, limit, stride, k);
        lemma_mod_multiples_basic(k, stride);
        assert(n - first == k * stride);
    }
    if first <= n < limit && (n - first) % stride == 0 {
        let k = (n - first) / stride;
        lemma_fundamental_div_mod(n - first, stride);
        lemma_mul_is_commutative(stride, k);
        lemma_div_pos_is_pos(n - first, stride);
        lemma_div_is_ordered(n - first, limit - 1 - first, stride);
        assert(0 <= k < shard.len());
        assert(shard[k] == n);
    }
}

/// The nonces of a shard come in strictly increasing order, so none occurs
/// twice.
pub proof fn lemma_shard_increasing(first: int, limit: int, stride: int)
    requires
        0 <= first,
        limit <= nonce_space(),
        stride > 0,
    ensures
        forall|a: int, b: int|
            0 <= a < b < shard_nonces(first, limit, stride).len() ==> shard_nonces(
                first,
                limit,
                stride,
            )[a] < shard_nonces(first, limit, stride)[b],
        shard_nonces(first, limit, stride).no_duplicates(),
{
    let shard = shard_nonces(first, limit, stride);
    assert forall|a: int, b: int| 0 <= a < b < shard.len() implies shard[a] < shard[b] by {
        lemma_shard_bounds(first, limit, stride, a);
        lemma_shard_bounds(first, limit, stride, b);
        assert(a * stride < b * stride) by (nonlinear_arith)
            requires
                a < b,
                stride > 0,
        ;
    }
    assert forall|a: int, b: int| 0 <= a < shard.len() && 0 <= b < shard.len() && a != b implies shard[a]
        != shard[b] by {
        if a < b {
            assert(shard[a] < shard[b]);
        } else {
            assert(shard[b] < shard[a]);
        }
    }
}

/// No nonce belongs to two shards of one job.
pub proof fn lemma_partitions_disjoint(
    origin: u64,
    bound: Option<u64>,
    count: int,
    i: int,
    j: int,
    n: u64,
)
    requires
        0 <= i < count,
        0 <= j < count,
        i != j,
    ensures
        !(partition_nonces(origin, bound, count, i).contains(n) && partition_nonces(
            origin,
            bound,
            count,
            j,
        ).contains(n)),
{
    let limit = nonce_limit(bound);
    lemma_shard_membership(origin + i, limit, count, n);
    lemma_shard_membership(origin + j, limit, count, n);
    if partition_nonces(origin, bound, count, i).contains(n) && partition_nonces(
        origin,
        bound,
        count,
        j,
    ).contains(n) {
        let a = n - (origin + i);
        let b = n - (origin + j);
        lemma_fundamental_div_mod(a, count);
        lemma_fundamental_div_mod(b, count);
        let qa = a / count;
        let qb = b / count;
        assert(false) by (nonlinear_arith)
            requires
                a == count * qa,
                b == count * qb,
                a - b == j - i,
                0 <= i < count,
                0 <= j < count,
                i != j,
        ;
    }
}

/// No nonce of a job is issued twice: two places in the shards of one job
/// hold different nonces, unless they are the same place of the same shard.
pub proof fn lemma_nonces_issued_once(
    origin: u64,
    bound: Option<u64>,
    count: int,
    i: int,
    a: int,
    j: int,
    b: int,
)
    requires
        0 <= i < count,
        0 <= j < count,
        0 <= a < partition_nonces(origin, bound, count, i).len(),
        0 <= b < partition_nonces(origin, bound, count, j).len(),
        i != j || a != b,
    ensures
        partition_nonces(origin, bound, count, i)[a] != partition_nonces(origin, bound, count, j)[b],
{
    let first = partition_nonces(origin, bound, count, i);
    let second = partition_nonces(origin, bound, count, j);
    if i == j {
        lemma_shard_increasing(origin + i, nonce_limit(bound), count);
    } else {
        lemma_partitions_disjoint(origin, bound, count, i, j, first[a]);
        assert(first.contains(first[a]));
        if first[a] == second[b] {
            assert(second.contains(first[a]));
        }
    }
}

/// Every nonce from `origin` up to the bound belongs to a shard, and a shard
/// holds no other value.
pub proof fn lemma_partitions_cover(origin: u64, bound: Option<u64>, count: int, n: u64)
    requires
        count > 0,
    ensures
        (origin <= n < nonce_limit(bound)) <==> (exists|i: int|
            0 <= i < count && #[trigger] partition_nonces(origin, bound, count, i).contains(n)),
{
    let limit = nonce_limit(bound);
    if origin <= n < limit {
        let x = n - origin;
        let i = x % count;
        lemma_mod_bound(x, count);
        lemma_mod_decreases(x as nat, count as nat);
        lemma_fundamental_div_mod(x, count);
        lemma_mul_is_commutative(count, x / count);
        lemma_mod_multiples_basic(x / count, count);
        assert(n - (origin + i) == (x / count) * count);
        lemma_shard_membership(origin + i, limit, count, n);
        assert(partition_nonces(origin, bound, count, i).contains(n));
    }
    if exists|i: int|
        0 <= i < count && #[trigger] partition_nonces(origin, bound, count, i).contains(n) {
        let i = choose|i: int|
            0 <= i < count && #[trigger] partition_nonces(origin, bound, count, i).contains(n);
        lemma_shard_membership(origin + i, limit, count, n);
    }
}

/// A cursor into one shard of the nonce space.
pub struct NonceIterator {
    /// The next nonce to issue, unless the nonce space ended before it.
    cursor: Option<u64>,
    /// The first value that is not issued any more, if there is one.
    bound: Option<u64>,
    /// The distance between two nonces of this shard.
    stride: u64,
}

impl View for NonceIterator {
    type V = Seq<u64>;

    /// The nonces that are still to be issued, in order.
    closed spec fn view(&self) -> Seq<u64> {
        match self.cursor {
            Some(c) => shard_nonces(c as int, nonce_limit(self.bound), self.stride as int),
            None => Seq::empty(),
        }
    }
}

impl NonceIterator {
    /// The stride is positive.
    pub closed spec fn wf(&self) -> bool {
        self.stride >= 1
    }

    /// Issues `start`, `start + 1`, ... without an upper bound.
    pub fn from_u64(start: u64) -> (nonces: NonceIterator)
        ensures
            nonces.wf(),
            nonces@ == shard_nonces(start as int, nonce_space(), 1),
    {
        NonceIterator { cursor: Some(start), bound: None, stride: 1 }
    }

    /// Issues `start`, `start + 1`, ... up to `end`, which is not issued.
    pub fn bounded(start: u64, end: u64) -> (nonces: NonceIterator)
        ensures
            nonces.wf(),
            nonces@ == shard_nonces(start as int, end as int, 1),
    {
        NonceIterator { cursor: Some(start), bound: Some(end), stride: 1 }
    }

    /// Deals the nonces from `origin` up to `bound` out to `count` shards in
    /// turn: shard `i` issues `origin + i`, `origin + i + count`, ...
    pub fn partitions(origin: u64, bound: Option<u64>, count: u32) -> (shards: Vec<NonceIterator>)
        ensures
            shards@.len() == count,
            forall|i: int|
                0 <= i < count ==> (#[trigger] shards@[i]).wf() && shards@[i]@ == partition_nonces(
                    origin,
                    bound,
                    count as int,
                    i,
                ),
    {
        let mut shards: Vec<NonceIterator> = Vec::new();
        let mut i: u32 = 0;
        while i < count
            invariant
                i <= count,
                shards@.len() == i,
                forall|j: int|
                    0 <= j < i ==> (#[trigger] shards@[j]).wf() && shards@[j]@ == partition_nonces(
                        origin,
                        bound,
                        count as int,
                        j,
                    ),
            decreases count - i,
        {
            let offset: u64 = i as u64;
            let cursor = if origin <= u64::MAX - offset {
                Some((origin + offset) as u64)
            } else {
                None
            };
            let shard = NonceIterator { cursor, bound, stride: count as u64 };
            assert(shard@ =~= partition_nonces(origin, bound, count as int, i as int));
            shards.push(shard);
            i = i + 1;
        }
        shards
    }

    /// Whether no nonce is left to issue.
    pub fn is_empty(&self) -> (empty: bool)
        requires
            self.wf(),
        ensures
            empty == (self@.len() == 0),
    {
        match self.cursor {
            None => true,
            Some(c) => {
                proof {
                    if (c as int) < nonce_limit(self.bound) {
                        lemma_shard_advance(
                            c as int,
                            nonce_limit(self.bound),
                            self.stride as int,
                        );
                    }
                }
                match self.bound {
                    Some(b) => c >= b,
                    None => false,
                }
            },
        }
    }

    /// Issues the next nonce. Once it has answered `None` it does so for
    /// ever; a nonce that was issued is never issued again.
    pub fn next(&mut self) -> (nonce: Option<u64>)
        requires
            old(self).wf(),
        ensures
            final(self).wf(),
            match nonce {
                Some(n) => {
                    &&& old(self)@.len() > 0
                    &&& n == old(self)@[0]
                    &&& final(self)@ == old(self)@.drop_first()
                    &&& !final(self)@.contains(n)
                },
                None => old(self)@.len() == 0 && final(self)@ == old(self)@,
            },
    {
        match self.cursor {
            None => None,
            Some(c) => {
                let exhausted = match self.bound {
                    Some(b) => c >= b,
                    None => false,
                };
                if exhausted {
                    None
                } else {
                    let ghost limit = nonce_limit(self.bound);
                    let ghost stride = self.stride as int;
                    proof {
                        lemma_shard_advance(c as int, limit, stride);
                        lemma_shard_increasing(c as int, limit, stride);
                        let before = shard_nonces(c as int, limit, stride);
                        assert forall|k: int| 0 <= k < before.drop_first().len() implies before.drop_first()[k]
                            != before[0] by {
                            assert(before.drop_first()[k] == before[k + 1]);
                        }
                    }
                    if c <= u64::MAX - self.stride {
                        self.cursor = Some(c + self.stride);
                    } else {
                        self.cursor = None;
                        assert(shard_nonces(c + stride, limit, stride) =~= Seq::<u64>::empty());
                    }
                    Some(c)
                }
            },
        }
    }
}

} // verus!
