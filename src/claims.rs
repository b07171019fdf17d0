use vstd::prelude::*;

use crate::accounting::{all_well_formed, lemma_total_same, total_sum};
use crate::types::{Vault, VestingError};

verus! {

/// The vaults after claiming `amount` from vault `id`, or why that is refused.
pub open spec fn claim_outcome(vs: Seq<Vault>, id: u64, amount: i128) -> Result<Seq<Vault>, VestingError> {
    if !(1 <= id <= vs.len()) {
        Err(VestingError::NotFound)
    } else if !vs[id - 1].is_initialized {
        Err(VestingError::NotInitialized)
    } else if amount <= 0 {
        Err(VestingError::InvalidAmount)
    } else if amount > vs[id - 1].locked() {
        Err(VestingError::InsufficientVaultBalance)
    } else {
        Ok(vs.update(
            id - 1,
            Vault { released_amount: (vs[id - 1].released_amount + amount) as i128, ..vs[id - 1] },
        ))
    }
}

/// The vaults after the first `n` claims of `ids`/`amounts`, applied in
/// order, or the first refusal among them.
pub open spec fn claims_outcome(vs: Seq<Vault>, ids: Seq<u64>, amounts: Seq<i128>, n: nat) -> Result<
    Seq<Vault>,
    VestingError,
>
    decreases n,
{
    if n == 0 {
        Ok(vs)
    } else {
        match claims_outcome(vs, ids, amounts, (n - 1) as nat) {
            Ok(w) => claim_outcome(w, ids[n - 1], amounts[n - 1]),
            Err(e) => Err(e),
        }
    }
}

/// `b` differs from `a` at most in released amounts, none of which fell.
pub open spec fn only_released_grew(a: Seq<Vault>, b: Seq<Vault>) -> bool {
    &&& a.len() == b.len()
    &&& forall|i: int|
        0 <= i < a.len() ==> {
            &&& #[trigger] b[i] == Vault { released_amount: b[i].released_amount, ..a[i] }
            &&& a[i].released_amount <= b[i].released_amount
        }
}

/// A successful claim keeps the vaults well formed and only raises one
/// released amount.
pub proof fn lemma_claim_outcome(vs: Seq<Vault>, id: u64, amount: i128)
    requires
        all_well_formed(vs),
        claim_outcome(vs, id, amount) is Ok,
    ensures
        all_well_formed(claim_outcome(vs, id, amount)->Ok_0),
        only_released_grew(vs, claim_outcome(vs, id, amount)->Ok_0),
{
    let w = claim_outcome(vs, id, amount)->Ok_0;
    assert(vs[id - 1].well_formed());
    assert forall|i: int| 0 <= i < w.len() implies (#[trigger] w[i]).well_formed() by {
        if i != id - 1 {
            assert(w[i] == vs[i]);
        }
    }
}

/// Raising released amounts only is transitive.
pub proof fn lemma_grew_trans(a: Seq<Vault>, b: Seq<Vault>, c: Seq<Vault>)
    requires
        only_released_grew(a, b),
        only_released_grew(b, c),
    ensures
        only_released_grew(a, c),
{
    assert forall|i: int| 0 <= i < a.len() implies {
        &&& #[trigger] c[i] == Vault { released_amount: c[i].released_amount, ..a[i] }
        &&& a[i].released_amount <= c[i].released_amount
    } by {
        assert(b[i] == Vault { released_amount: b[i].released_amount, ..a[i] });
        assert(c[i] == Vault { released_amount: c[i].released_amount, ..b[i] });
    }
}

/// Raising released amounts leaves the totals' sum as it was.
pub proof fn lemma_grew_total(a: Seq<Vault>, b: Seq<Vault>)
    requires
        only_released_grew(a, b),
    ensures
        total_sum(a) == total_sum(b),
{
    assert forall|i: int| 0 <= i < a.len() implies (#[trigger] a[i]).total_amount == b[i].total_amount by {
        assert(b[i] == Vault { released_amount: b[i].released_amount, ..a[i] });
    }
    lemma_total_same(a, b);
}

/// Once a claim in a sequence is refused, the sequence is refused with it.
pub proof fn lemma_claims_refusal_sticks(vs: Seq<Vault>, ids: Seq<u64>, amounts: Seq<i128>, k: nat, n: nat)
    requires
        k <= n,
        claims_outcome(vs, ids, amounts, k) is Err,
    ensures
        claims_outcome(vs, ids, amounts, n) == claims_outcome(vs, ids, amounts, k),
    decreases n - k,
{
    if k < n {
        lemma_claims_refusal_sticks(vs, ids, amounts, k, (n - 1) as nat);
    }
}

/// Applies one claim to `vs`, or leaves it as it was and says why not.
pub fn apply_claim(vs: &mut Vec<Vault>, id: u64, amount: i128) -> (r: Result<(), VestingError>)
    requires
        all_well_formed(old(vs)@),
    ensures
        match claim_outcome(old(vs)@, id, amount) {
            Ok(w) => r is Ok && final(vs)@ == w,
            Err(e) => r == Err::<(), VestingError>(e) && final(vs)@ == old(vs)@,
        },
        all_well_formed(final(vs)@),
        only_released_grew(old(vs)@, final(vs)@),
{
    if id == 0 || id as u128 > vs.len() as u128 {
        return Err(VestingError::NotFound);
    }
    let i: usize = (id - 1) as usize;
    let mut v = vs[i];
    if !v.is_initialized {
        return Err(VestingError::NotInitialized);
    }
    if amount <= 0 {
        return Err(VestingError::InvalidAmount);
    }
    assert(all_well_formed(vs@) ==> vs@[i as int].well_formed());
    let available = v.available();
    if amount > available {
        return Err(VestingError::InsufficientVaultBalance);
    }
    v.released_amount = v.released_amount + amount;
    proof {
        lemma_claim_outcome(vs@, id, amount);
    }
    vs[i] = v;
    assert(vs@ == claim_outcome(old(vs)@, id, amount)->Ok_0);
    Ok(())
}

} // verus!
