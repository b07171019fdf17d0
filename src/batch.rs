use vstd::prelude::*;

use crate::accounting::{amount_sum, lemma_amount_prefix_le, lemma_amount_take_step};
use crate::contract::{vaults_advance, VestingContract};
use crate::types::{Address, BatchCreateData, Vault, VestingError};

verus! {

/// The vaults that a batch creates, in input order.
pub open spec fn batch_vaults(
    recipients: Seq<Address>,
    amounts: Seq<i128>,
    start_times: Seq<u64>,
    end_times: Seq<u64>,
    eager: bool,
) -> Seq<Vault> {
    Seq::new(
        recipients.len(),
        |k: int|
            Vault {
                owner: recipients[k],
                total_amount: amounts[k],
                released_amount: 0,
                start_time: start_times[k],
                end_time: end_times[k],
                is_initialized: eager,
            },
    )
}

/// The `n` ids that follow `count`, in order.
pub open spec fn ids_after(count: nat, n: nat) -> Seq<u64> {
    Seq::new(n, |k: int| (count + k + 1) as u64)
}

impl VestingContract {
    /// The refusal that a batch creation meets, if any.
    pub open spec fn batch_error(self, caller: Address, batch: BatchCreateData) -> Option<VestingError> {
        let n = batch.recipients@.len();
        if self.auth_error(caller) is Some {
            self.auth_error(caller)
        } else if batch.amounts@.len() != n || batch.start_times@.len() != n || batch.end_times@.len() != n {
            Some(VestingError::LengthMismatch)
        } else if exists|k: int| 0 <= k < n && #[trigger] batch.amounts@[k] <= 0 {
            Some(VestingError::InvalidAmount)
        } else if amount_sum(batch.amounts@) > self.admin_balance {
            Some(VestingError::InsufficientBalance)
        } else if self.vaults@.len() + n > u64::MAX {
            Some(VestingError::IdSpaceExhausted)
        } else {
            None
        }
    }

    /// Creates one vault per entry of `batch_data`, as one unit.
    fn batch_create(&mut self, caller: Address, batch_data: BatchCreateData, eager: bool) -> (r: Result<
        Vec<u64>,
        VestingError,
    >)
        requires
            old(self).wf(),
        ensures
            final(self).wf(),
            vaults_advance(old(self).vaults@, final(self).vaults@),
            r is Ok <==> old(self).batch_error(caller, batch_data) is None,
            r is Err ==> Some(r->Err_0) == old(self).batch_error(caller, batch_data) && final(self)@ == old(self)@,
            r is Ok ==> {
                let ids = r->Ok_0@;
                let b = batch_data;
                &&& ids == ids_after(old(self).vaults@.len(), b.recipients@.len())
                &&& final(self).vaults@ == old(self).vaults@ + batch_vaults(
                    b.recipients@,
                    b.amounts@,
                    b.start_times@,
                    b.end_times@,
                    eager,
                )
                &&& final(self).index_log@ == if eager {
                    old(self).index_log@ + ids
                } else {
                    old(self).index_log@
                }
                &&& final(self).admin_balance == old(self).admin_balance - amount_sum(b.amounts@)
                &&& final(self).admin == old(self).admin
                &&& final(self).proposed_admin == old(self).proposed_admin
                &&& final(self).initial_supply == old(self).initial_supply
            },
    {
        self.require_admin(caller)?;
        let n = batch_data.recipients.len();
        if batch_data.amounts.len() != n || batch_data.start_times.len() != n || batch_data.end_times.len() != n {
            return Err(VestingError::LengthMismatch);
        }
        let mut k: usize = 0;
        while k < n
            invariant
                n == batch_data.recipients@.len() == batch_data.amounts@.len(),
                n == batch_data.start_times@.len() == batch_data.end_times@.len(),
                *self == *old(self),
                self.wf(),
                self.auth_error(caller) is None,
                k <= n,
                forall|j: int| 0 <= j < k ==> #[trigger] batch_data.amounts@[j] > 0,
            decreases n - k,
        {
            if batch_data.amounts[k] <= 0 {
                return Err(VestingError::InvalidAmount);
            }
            k = k + 1;
        }
        let mut total: i128 = 0;
        k = 0;
        while k < n
            invariant
                n == batch_data.recipients@.len() == batch_data.amounts@.len(),
                n == batch_data.start_times@.len() == batch_data.end_times@.len(),
                *self == *old(self),
                self.wf(),
                self.auth_error(caller) is None,
                k <= n,
                forall|j: int| 0 <= j < n ==> #[trigger] batch_data.amounts@[j] > 0,
                total == amount_sum(batch_data.amounts@.take(k as int)),
                0 <= total,
                k > 0 ==> total <= self.admin_balance,
            decreases n - k,
        {
            let a = batch_data.amounts[k];
            proof {
                lemma_amount_take_step(batch_data.amounts@, k as int);
            }
            if a > self.admin_balance - total {
                proof {
                    lemma_amount_prefix_le(batch_data.amounts@, k + 1);
                }
                return Err(VestingError::InsufficientBalance);
            }
            total = total + a;
            k = k + 1;
        }
        assert(batch_data.amounts@.take(n as int) =~= batch_data.amounts@);
        if total > self.admin_balance {
            return Err(VestingError::InsufficientBalance);
        }
        if n as u64 > u64::MAX - self.vaults.len() as u64 {
            return Err(VestingError::IdSpaceExhausted);
        }
        let ghost pre = *self;
        let ghost news = batch_vaults(
            batch_data.recipients@,
            batch_data.amounts@,
            batch_data.start_times@,
            batch_data.end_times@,
            eager,
        );
        let mut ids: Vec<u64> = Vec::new();
        k = 0;
        while k < n
            invariant
                n == batch_data.recipients@.len() == batch_data.amounts@.len(),
                n == batch_data.start_times@.len() == batch_data.end_times@.len(),
                n == news.len(),
                news == batch_vaults(
                    batch_data.recipients@,
                    batch_data.amounts@,
                    batch_data.start_times@,
                    batch_data.end_times@,
                    eager,
                ),
                pre.wf(),
                pre.vaults@.len() + n <= u64::MAX,
                amount_sum(batch_data.amounts@) <= pre.admin_balance,
                forall|j: int| 0 <= j < n ==> #[trigger] batch_data.amounts@[j] > 0,
                k <= n,
                self.wf(),
                self.vaults@ == pre.vaults@ + news.take(k as int),
                ids@ == ids_after(pre.vaults@.len(), k as nat),
                self.index_log@ == if eager {
                    pre.index_log@ + ids@
                } else {
                    pre.index_log@
                },
                self.admin_balance == pre.admin_balance - amount_sum(batch_data.amounts@.take(k as int)),
                self.admin == pre.admin,
                self.proposed_admin == pre.proposed_admin,
                self.initial_supply == pre.initial_supply,
            decreases n - k,
        {
            proof {
                lemma_amount_take_step(batch_data.amounts@, k as int);
                lemma_amount_prefix_le(batch_data.amounts@, k + 1);
            }
            let id = self.push_vault(
                batch_data.recipients[k],
                batch_data.amounts[k],
                batch_data.start_times[k],
                batch_data.end_times[k],
                eager,
            );
            ids.push(id);
            k = k + 1;
            assert(self.vaults@ =~= pre.vaults@ + news.take(k as int));
            assert(ids@ =~= ids_after(pre.vaults@.len(), k as nat));
            assert(eager ==> self.index_log@ =~= pre.index_log@ + ids@);
        }
        assert(news.take(n as int) =~= news);
        assert(batch_data.amounts@.take(n as int) =~= batch_data.amounts@);
        Ok(ids)
    }

    /// Creates one unindexed vault per entry of `batch_data`, with ids that
    /// follow the current count in input order, as one unit. Admin only; the
    /// four lists must have one length, every amount must be positive, and
    /// their sum covered by the admin balance, from which it is debited.
    pub fn batch_create_vaults_lazy(&mut self, caller: Address, batch_data: BatchCreateData) -> (r: Result<
        Vec<u64>,
        VestingError,
    >)
        requires
            old(self).wf(),
        ensures
            final(self).wf(),
            vaults_advance(old(self).vaults@, final(self).vaults@),
            r is Ok <==> old(self).batch_error(caller, batch_data) is None,
            r is Err ==> Some(r->Err_0) == old(self).batch_error(caller, batch_data) && final(self)@ == old(self)@,
            r is Ok ==> {
                let ids = r->Ok_0@;
                let b = batch_data;
                &&& ids == ids_after(old(self).vaults@.len(), b.recipients@.len())
                &&& final(self).vaults@ == old(self).vaults@ + batch_vaults(
                    b.recipients@,
                    b.amounts@,
                    b.start_times@,
                    b.end_times@,
                    false,
                )
                &&& final(self).index_log@ == old(self).index_log@
                &&& final(self).admin_balance == old(self).admin_balance - amount_sum(b.amounts@)
                &&& final(self).admin == old(self).admin
                &&& final(self).proposed_admin == old(self).proposed_admin
                &&& final(self).initial_supply == old(self).initial_supply
            },
    {
        self.batch_create(caller, batch_data, false)
    }

    /// As `batch_create_vaults_lazy`, but each vault is indexed under its
    /// recipient at once.
    pub fn batch_create_vaults_full(&mut self, caller: Address, batch_data: BatchCreateData) -> (r: Result<
        Vec<u64>,
        VestingError,
    >)
        requires
            old(self).wf(),
        ensures
            final(self).wf(),
            vaults_advance(old(self).vaults@, final(self).vaults@),
            r is Ok <==> old(self).batch_error(caller, batch_data) is None,
            r is Err ==> Some(r->Err_0) == old(self).batch_error(caller, batch_data) && final(self)@ == old(self)@,
            r is Ok ==> {
                let ids = r->Ok_0@;
                let b = batch_data;
                &&& ids == ids_after(old(self).vaults@.len(), b.recipients@.len())
                &&& final(self).vaults@ == old(self).vaults@ + batch_vaults(
                    b.recipients@,
                    b.amounts@,
                    b.start_times@,
                    b.end_times@,
                    true,
                )
                &&& final(self).index_log@ == old(self).index_log@ + ids
                &&& final(self).admin_balance == old(self).admin_balance - amount_sum(b.amounts@)
                &&& final(self).admin == old(self).admin
                &&& final(self).proposed_admin == old(self).proposed_admin
                &&& final(self).initial_supply == old(self).initial_supply
            },
    {
        self.batch_create(caller, batch_data, true)
    }
}

} // verus!
