//! Random selection helpers. The one call into the `rand` crate sits
//! behind [`rand_below`]; everything built on top of it is verified for
//! every value that call may return.

use rand::Rng;
use vstd::multiset::Multiset;
use vstd::prelude::*;

verus! {

broadcast use vstd::seq_lib::group_to_multiset_ensures;

/// Relies on `rand::Rng::gen_range` over `0..n`: it panics only on an
/// empty range and returns a value of the range, here below `n`.
#[verifier::external_body]
pub(crate) fn rand_below(n: usize) -> (r: usize)
    requires
        n > 0,
    ensures
        r < n,
{
    rand::thread_rng().gen_range(0..n)
}

/// A uniformly chosen element of a non-empty pool.
pub(crate) fn pick_char(pool: &Vec<char>) -> (c: char)
    requires
        pool@.len() > 0,
    ensures
        pool@.contains(c),
{
    let i = rand_below(pool.len());
    let c = pool[i];
    assert(pool@[i as int] == c);
    c
}

/// Removes and returns a uniformly chosen element of a non-empty pool.
pub(crate) fn draw_char(pool: &mut Vec<char>) -> (c: char)
    requires
        old(pool)@.len() > 0,
    ensures
        exists|j: int|
            0 <= j < old(pool)@.len() && c == old(pool)@[j] && final(pool)@ == old(
                pool,
            )@.remove(j),
{
    let i = rand_below(pool.len());
    let c = pool.remove(i);
    assert(c == old(pool)@[i as int] && pool@ == old(pool)@.remove(i as int));
    c
}

/// Random reordering: repeatedly removes a uniformly chosen element and
/// appends it, so the result holds the same strings, by character content,
/// as the input.
pub(crate) fn shuffle(v: Vec<String>) -> (r: Vec<String>)
    ensures
        r@.len() == v@.len(),
        r.deep_view().to_multiset() == v.deep_view().to_multiset(),
{
    let ghost total = v.deep_view().to_multiset();
    let mut pool = v;
    let mut out: Vec<String> = Vec::new();
    while pool.len() > 0
        invariant
            out@.len() + pool@.len() == total.len(),
            out.deep_view().to_multiset().add(pool.deep_view().to_multiset()) == total,
        decreases pool@.len(),
    {
        let ghost pool_pre = pool.deep_view();
        let ghost out_pre = out.deep_view();
        let j = rand_below(pool.len());
        let s = pool.remove(j);
        out.push(s);
        proof {
            assert(pool.deep_view() =~= pool_pre.remove(j as int));
            assert(out.deep_view() =~= out_pre.push(s.deep_view()));
            assert(s.deep_view() == pool_pre[j as int]);
            assert(pool_pre.contains(pool_pre[j as int]));
            assert(pool_pre.to_multiset().count(s.deep_view()) > 0);
            assert(out.deep_view().to_multiset() =~= out_pre.to_multiset().insert(
                s.deep_view(),
            ));
            assert(pool.deep_view().to_multiset() =~= pool_pre.to_multiset().remove(
                s.deep_view(),
            ));
            assert(out.deep_view().to_multiset().add(pool.deep_view().to_multiset()) =~= total);
        }
    }
    proof {
        assert(pool.deep_view() =~= Seq::<Seq<char>>::empty());
        assert(pool.deep_view().to_multiset() =~= Multiset::<Seq<char>>::empty());
        assert(out.deep_view().to_multiset() =~= total);
    }
    out
}

} // verus!
