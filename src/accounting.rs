use vstd::prelude::*;

use crate::types::Vault;

verus! {

/// Sum of the vaults' total amounts.
pub open spec fn total_sum(vs: Seq<Vault>) -> int
    decreases vs.len(),
{
    if vs.len() == 0 {
        0
    } else {
        total_sum(vs.drop_last()) + vs.last().total_amount
    }
}

/// Sum of the vaults' released amounts.
pub open spec fn released_sum(vs: Seq<Vault>) -> int
    decreases vs.len(),
{
    if vs.len() == 0 {
        0
    } else {
        released_sum(vs.drop_last()) + vs.last().released_amount
    }
}

/// Sum of the amounts still locked in the vaults.
pub open spec fn locked_sum(vs: Seq<Vault>) -> int
    decreases vs.len(),
{
    if vs.len() == 0 {
        0
    } else {
        locked_sum(vs.drop_last()) + vs.last().locked()
    }
}

/// Sum of a sequence of amounts.
pub open spec fn amount_sum(s: Seq<i128>) -> int
    decreases s.len(),
{
    if s.len() == 0 {
        0
    } else {
        amount_sum(s.drop_last()) + s.last()
    }
}

/// Every vault is well formed.
pub open spec fn all_well_formed(vs: Seq<Vault>) -> bool {
    forall|i: int| 0 <= i < vs.len() ==> (#[trigger] vs[i]).well_formed()
}

/// What is locked and what is released together make up the totals.
pub proof fn lemma_locked_plus_released(vs: Seq<Vault>)
    ensures
        locked_sum(vs) + released_sum(vs) == total_sum(vs),
    decreases vs.len(),
{
    if vs.len() > 0 {
        lemma_locked_plus_released(vs.drop_last());
    }
}

/// Appending a vault adds its total.
pub proof fn lemma_total_push(vs: Seq<Vault>, v: Vault)
    ensures
        total_sum(vs.push(v)) == total_sum(vs) + v.total_amount,
{
    assert(vs.push(v).drop_last() =~= vs);
}

/// The totals' sum depends on the totals alone.
pub proof fn lemma_total_same(a: Seq<Vault>, b: Seq<Vault>)
    requires
        a.len() == b.len(),
        forall|i: int| 0 <= i < a.len() ==> (#[trigger] a[i]).total_amount == b[i].total_amount,
    ensures
        total_sum(a) == total_sum(b),
    decreases a.len(),
{
    if a.len() > 0 {
        lemma_total_same(a.drop_last(), b.drop_last());
    }
}

/// Over well-formed vaults, each prefix's locked and released sums are
/// non-negative and bounded by the totals' sum.
pub proof fn lemma_prefix_bounds(vs: Seq<Vault>, n: int)
    requires
        all_well_formed(vs),
        0 <= n <= vs.len(),
    ensures
        0 <= locked_sum(vs.take(n)),
        0 <= released_sum(vs.take(n)),
        locked_sum(vs.take(n)) + released_sum(vs.take(n)) <= total_sum(vs),
    decreases vs.len() - n,
{
    assert(all_well_formed(vs.take(n))) by {
        assert forall|i: int| 0 <= i < n implies (#[trigger] vs.take(n)[i]).well_formed() by {
            assert(vs.take(n)[i] == vs[i]);
        }
    }
    lemma_nonneg(vs.take(n));
    lemma_locked_plus_released(vs.take(n));
    if n == vs.len() {
        assert(vs.take(n) =~= vs);
    } else {
        lemma_prefix_bounds(vs, n + 1);
        lemma_take_step(vs, n);
        assert(vs[n].well_formed());
    }
}

/// Over well-formed vaults, locked and released sums are non-negative.
pub proof fn lemma_nonneg(vs: Seq<Vault>)
    requires
        all_well_formed(vs),
    ensures
        0 <= locked_sum(vs),
        0 <= released_sum(vs),
    decreases vs.len(),
{
    if vs.len() > 0 {
        assert(vs[vs.len() - 1].well_formed());
        lemma_nonneg(vs.drop_last());
    }
}

/// Extending a prefix by one element adds that element.
pub proof fn lemma_take_step(vs: Seq<Vault>, n: int)
    requires
        0 <= n < vs.len(),
    ensures
        locked_sum(vs.take(n + 1)) == locked_sum(vs.take(n)) + vs[n].locked(),
        released_sum(vs.take(n + 1)) == released_sum(vs.take(n)) + vs[n].released_amount,
{
    assert(vs.take(n + 1).drop_last() =~= vs.take(n));
}

/// Extending a prefix of amounts by one element adds that element.
pub proof fn lemma_amount_take_step(s: Seq<i128>, n: int)
    requires
        0 <= n < s.len(),
    ensures
        amount_sum(s.take(n + 1)) == amount_sum(s.take(n)) + s[n],
{
    assert(s.take(n + 1).drop_last() =~= s.take(n));
}

/// Over positive amounts, a prefix sums to no more than the whole.
pub proof fn lemma_amount_prefix_le(s: Seq<i128>, n: int)
    requires
        0 <= n <= s.len(),
        forall|i: int| 0 <= i < s.len() ==> #[trigger] s[i] > 0,
    ensures
        amount_sum(s.take(n)) <= amount_sum(s),
    decreases s.len() - n,
{
    if n == s.len() {
        assert(s.take(n) =~= s);
    } else {
        lemma_amount_prefix_le(s, n + 1);
        lemma_amount_take_step(s, n);
    }
}

} // verus!
