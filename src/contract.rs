use vstd::prelude::*;

use crate::accounting::{
    all_well_formed, lemma_locked_plus_released, lemma_prefix_bounds, lemma_take_step,
    lemma_total_push, lemma_total_same, locked_sum, released_sum, total_sum,
};
use crate::claims::{
    apply_claim, claim_outcome, claims_outcome, lemma_claims_refusal_sticks, lemma_grew_total,
    lemma_grew_trans, only_released_grew,
};
use crate::index::{ids_owned, lemma_ids_owned_members, lemma_ids_owned_push};
use crate::types::{Address, Vault, VestingError};

verus! {

/// Raising released amounts, and nothing else, keeps the ledger's invariant.
proof fn lemma_grew_keeps_wf(pre: VestingContract, post: VestingContract)
    requires
        pre.wf(),
        post@ == (LedgerView { vaults: post.vaults@, ..pre@ }),
        only_released_grew(pre.vaults@, post.vaults@),
        all_well_formed(post.vaults@),
    ensures
        post.wf(),
{
    lemma_grew_total(pre.vaults@, post.vaults@);
    assert forall|i: int| 0 <= i < pre.vaults@.len() implies
        (#[trigger] post.vaults@[i]).is_initialized == pre.vaults@[i].is_initialized by {
        assert(post.vaults@[i] == Vault { released_amount: post.vaults@[i].released_amount, ..pre.vaults@[i] });
    }
    assert forall|k: int| 0 <= k < post.index_log@.len() implies {
        let id = #[trigger] post.index_log@[k];
        &&& 1 <= id <= post.vaults@.len()
        &&& post.vaults@[id - 1].is_initialized
    } by {
        let id = pre.index_log@[k];
        assert(pre.vaults@[id - 1].is_initialized);
    }
    assert forall|i: int|
        0 <= i < post.vaults@.len() && (#[trigger] post.vaults@[i]).is_initialized
            implies post.index_log@.contains((i + 1) as u64) by {
        assert(pre.vaults@[i].is_initialized);
    }
}

/// The ledger's state as mathematical values.
pub struct LedgerView {
    pub admin: Option<Address>,
    pub proposed_admin: Option<Address>,
    pub initial_supply: i128,
    pub admin_balance: i128,
    pub vaults: Seq<Vault>,
    pub index_log: Seq<u64>,
}

/// The ledger's state after materializing vault `id`: an existing vault
/// that is not yet materialized is marked so and its id is appended to the
/// index; otherwise nothing changes.
pub open spec fn materialized(v: LedgerView, id: u64) -> LedgerView {
    if 1 <= id <= v.vaults.len() && !v.vaults[id - 1].is_initialized {
        LedgerView {
            vaults: v.vaults.update(id - 1, Vault { is_initialized: true, ..v.vaults[id - 1] }),
            index_log: v.index_log.push(id),
            ..v
        }
    } else {
        v
    }
}

/// Materializing a vault twice does what materializing it once does, and
/// afterwards the vault's id stands in its owner's index exactly once.
pub proof fn lemma_materialize_twice(s: VestingContract, id: u64)
    requires
        s.wf(),
        s.has_vault(id),
    ensures
        materialized(materialized(s@, id), id) == materialized(s@, id),
        ids_owned(materialized(s@, id).index_log, materialized(s@, id).vaults, s.vault(id).owner).contains(id),
        ids_owned(materialized(s@, id).index_log, materialized(s@, id).vaults, s.vault(id).owner).no_duplicates(),
{
    let m = materialized(s@, id);
    let owner = s.vault(id).owner;
    assert(m.vaults[id - 1].owner == owner);
    if s.vault(id).is_initialized {
        assert(s.index_log@.contains(id)) by {
            assert(s.vaults@[id - 1].is_initialized);
            assert(((id - 1) + 1) as u64 == id);
        }
    } else {
        assert(!s.index_log@.contains(id)) by {
            if s.index_log@.contains(id) {
                let k = choose|k: int| 0 <= k < s.index_log@.len() && s.index_log@[k] == id;
                assert(s.vaults@[s.index_log@[k] - 1].is_initialized);
            }
        }
        assert(m.index_log[m.index_log.len() - 1] == id);
    }
    lemma_ids_owned_members(m.index_log, m.vaults, owner);
}

/// `b` extends `a`: no vault is removed, each keeps its owner, total and
/// time window, its released amount does not fall, and a materialized vault
/// stays materialized.
pub open spec fn vaults_advance(a: Seq<Vault>, b: Seq<Vault>) -> bool {
    &&& a.len() <= b.len()
    &&& forall|i: int|
        0 <= i < a.len() ==> {
            &&& (#[trigger] b[i]).owner == a[i].owner
            &&& b[i].total_amount == a[i].total_amount
            &&& b[i].start_time == a[i].start_time
            &&& b[i].end_time == a[i].end_time
            &&& a[i].released_amount <= b[i].released_amount
            &&& a[i].is_initialized ==> b[i].is_initialized
        }
}

/// In every well-formed state, and so in every state that the operations
/// reach from `new`, what is locked, what is released and the admin balance
/// add up to the initial supply.
pub proof fn lemma_conservation(s: VestingContract)
    requires
        s.wf(),
    ensures
        locked_sum(s.vaults@) + released_sum(s.vaults@) + s.admin_balance == s.initial_supply,
{
    lemma_locked_plus_released(s.vaults@);
}

/// The state of the vesting ledger.
///
/// Vault `id` is stored at position `id - 1` of `vaults`, so ids run from 1
/// to the vault count without gaps. `index_log` lists the materialized vault
/// ids in the order in which they were indexed; an owner's index is the part
/// of it that names the owner's vaults.
pub struct VestingContract {
    pub admin: Option<Address>,
    pub proposed_admin: Option<Address>,
    pub initial_supply: i128,
    pub admin_balance: i128,
    pub vaults: Vec<Vault>,
    pub index_log: Vec<u64>,
}

impl View for VestingContract {
    type V = LedgerView;

    open spec fn view(&self) -> LedgerView {
        LedgerView {
            admin: self.admin,
            proposed_admin: self.proposed_admin,
            initial_supply: self.initial_supply,
            admin_balance: self.admin_balance,
            vaults: self.vaults@,
            index_log: self.index_log@,
        }
    }
}

impl VestingContract {
    /// Number of vaults created so far, which is also the highest id.
    pub open spec fn vault_count(self) -> nat {
        self.vaults@.len()
    }

    /// Whether `id` names an existing vault.
    pub open spec fn has_vault(self, id: u64) -> bool {
        1 <= id <= self.vaults@.len()
    }

    /// The vault with id `id`.
    pub open spec fn vault(self, id: u64) -> Vault {
        self.vaults@[id - 1]
    }

    /// The ids indexed under `owner`, in the order they were indexed.
    pub open spec fn owner_index(self, owner: Address) -> Seq<u64> {
        ids_owned(self.index_log@, self.vaults@, owner)
    }

    /// The invariant that every operation keeps.
    pub open spec fn wf(self) -> bool {
        &&& self.admin_balance < 0 ==> self.vaults@.len() == 0
        &&& all_well_formed(self.vaults@)
        &&& total_sum(self.vaults@) + self.admin_balance == self.initial_supply
        &&& self.vaults@.len() <= u64::MAX
        &&& self.index_log@.no_duplicates()
        &&& forall|k: int|
            0 <= k < self.index_log@.len() ==> {
                let id = #[trigger] self.index_log@[k];
                &&& 1 <= id <= self.vaults@.len()
                &&& self.vaults@[id - 1].is_initialized
            }
        &&& forall|i: int|
            0 <= i < self.vaults@.len() && (#[trigger] self.vaults@[i]).is_initialized
                ==> self.index_log@.contains((i + 1) as u64)
        &&& self.admin is None ==> {
            &&& self.proposed_admin is None
            &&& self.vaults@.len() == 0
            &&& self.index_log@.len() == 0
            &&& self.initial_supply == 0
            &&& self.admin_balance == 0
        }
    }

    /// The refusal that an admin-only operation meets from `caller`, if any.
    pub open spec fn auth_error(self, caller: Address) -> Option<VestingError> {
        match self.admin {
            None => Some(VestingError::NotInitialized),
            Some(a) => if a == caller {
                None
            } else {
                Some(VestingError::Unauthorized)
            },
        }
    }

    /// The refusal that creating one vault of `amount` meets, if any.
    pub open spec fn create_error(self, caller: Address, amount: i128) -> Option<VestingError> {
        if self.auth_error(caller) is Some {
            self.auth_error(caller)
        } else if amount <= 0 {
            Some(VestingError::InvalidAmount)
        } else if amount > self.admin_balance {
            Some(VestingError::InsufficientBalance)
        } else if self.vaults@.len() >= u64::MAX {
            Some(VestingError::IdSpaceExhausted)
        } else {
            None
        }
    }

    /// An uninitialized ledger: no admin, no supply, no vaults.
    pub fn new() -> (r: Self)
        ensures
            r.wf(),
            r.admin is None,
            r.proposed_admin is None,
            r.initial_supply == 0,
            r.admin_balance == 0,
            r.vaults@.len() == 0,
            r.index_log@.len() == 0,
    {
        VestingContract {
            admin: None,
            proposed_admin: None,
            initial_supply: 0,
            admin_balance: 0,
            vaults: Vec::new(),
            index_log: Vec::new(),
        }
    }

    /// Sets the admin and the supply, all of it unallocated. A ledger is
    /// initialized once: a second call is refused.
    pub fn initialize(&mut self, admin: Address, initial_supply: i128) -> (r: Result<(), VestingError>)
        requires
            old(self).wf(),
        ensures
            final(self).wf(),
            r is Ok <==> old(self).admin is None,
            r is Err ==> r->Err_0 == VestingError::AlreadyInitialized && final(self)@ == old(self)@,
            r is Ok ==> {
                &&& final(self).admin == Some(admin)
                &&& final(self).proposed_admin is None
                &&& final(self).initial_supply == initial_supply
                &&& final(self).admin_balance == initial_supply
                &&& final(self).vaults@.len() == 0
                &&& final(self).index_log@.len() == 0
            },
    {
        if self.admin.is_some() {
            return Err(VestingError::AlreadyInitialized);
        }
        self.admin = Some(admin);
        self.initial_supply = initial_supply;
        self.admin_balance = initial_supply;
        Ok(())
    }

    /// Admits `caller` only if it is the current admin.
    pub fn require_admin(&self, caller: Address) -> (r: Result<(), VestingError>)
        ensures
            r is Ok <==> self.auth_error(caller) is None,
            r is Err ==> Some(r->Err_0) == self.auth_error(caller),
    {
        match self.admin {
            None => Err(VestingError::NotInitialized),
            Some(a) => if a == caller {
                Ok(())
            } else {
                Err(VestingError::Unauthorized)
            },
        }
    }

    /// The admin proposes a successor, replacing any earlier proposal.
    pub fn propose_new_admin(&mut self, caller: Address, new_admin: Address) -> (r: Result<(), VestingError>)
        requires
            old(self).wf(),
        ensures
            final(self).wf(),
            r is Ok <==> old(self).auth_error(caller) is None,
            r is Err ==> Some(r->Err_0) == old(self).auth_error(caller) && final(self)@ == old(self)@,
            r is Ok ==> final(self)@ == (LedgerView {
                proposed_admin: Some(new_admin),
                ..old(self)@
            }),
    {
        self.require_admin(caller)?;
        self.proposed_admin = Some(new_admin);
        Ok(())
    }

    /// The proposed admin takes over; the proposal is cleared.
    pub fn accept_ownership(&mut self, caller: Address) -> (r: Result<(), VestingError>)
        requires
            old(self).wf(),
        ensures
            final(self).wf(),
            old(self).proposed_admin is None ==> r == Err::<(), VestingError>(VestingError::NoProposal),
            old(self).proposed_admin is Some && old(self).proposed_admin != Some(caller)
                ==> r == Err::<(), VestingError>(VestingError::Unauthorized),
            r is Ok <==> old(self).proposed_admin == Some(caller),
            r is Err ==> final(self)@ == old(self)@,
            r is Ok ==> final(self)@ == (LedgerView {
                admin: Some(caller),
                proposed_admin: None,
                ..old(self)@
            }),
    {
        match self.proposed_admin {
            None => Err(VestingError::NoProposal),
            Some(p) => if p == caller {
                self.admin = Some(p);
                self.proposed_admin = None;
                Ok(())
            } else {
                Err(VestingError::Unauthorized)
            },
        }
    }

    /// The current admin.
    pub fn get_admin(&self) -> (r: Result<Address, VestingError>)
        ensures
            match self.admin {
                Some(a) => r == Ok::<Address, VestingError>(a),
                None => r == Err::<Address, VestingError>(VestingError::NotInitialized),
            },
    {
        match self.admin {
            Some(a) => Ok(a),
            None => Err(VestingError::NotInitialized),
        }
    }

    /// The pending proposal, if any.
    pub fn get_proposed_admin(&self) -> (r: Option<Address>)
        ensures
            r == self.proposed_admin,
    {
        self.proposed_admin
    }

    /// Funds and stores one vault; an eager vault is indexed at once.
    fn create_vault(
        &mut self,
        caller: Address,
        owner: Address,
        amount: i128,
        start_time: u64,
        end_time: u64,
        eager: bool,
    ) -> (r: Result<u64, VestingError>)
        requires
            old(self).wf(),
        ensures
            final(self).wf(),
            vaults_advance(old(self).vaults@, final(self).vaults@),
            r is Ok <==> old(self).create_error(caller, amount) is None,
            r is Err ==> Some(r->Err_0) == old(self).create_error(caller, amount) && final(self)@ == old(self)@,
            r is Ok ==> {
                let id = r->Ok_0;
                &&& id == old(self).vaults@.len() + 1
                &&& final(self).vaults@ == old(self).vaults@.push(
                    Vault {
                        owner,
                        total_amount: amount,
                        released_amount: 0,
                        start_time,
                        end_time,
                        is_initialized: eager,
                    },
                )
                &&& final(self).index_log@ == if eager {
                    old(self).index_log@.push(id)
                } else {
                    old(self).index_log@
                }
                &&& final(self).admin_balance == old(self).admin_balance - amount
                &&& final(self).admin == old(self).admin
                &&& final(self).proposed_admin == old(self).proposed_admin
                &&& final(self).initial_supply == old(self).initial_supply
            },
    {
        self.require_admin(caller)?;
        if amount <= 0 {
            return Err(VestingError::InvalidAmount);
        }
        if amount > self.admin_balance {
            return Err(VestingError::InsufficientBalance);
        }
        if self.vaults.len() as u64 == u64::MAX {
            return Err(VestingError::IdSpaceExhausted);
        }
        Ok(self.push_vault(owner, amount, start_time, end_time, eager))
    }

    /// Debits `amount` and stores one vault with the next id; an eager
    /// vault is indexed at once.
    pub(crate) fn push_vault(&mut self, owner: Address, amount: i128, start_time: u64, end_time: u64, eager: bool) -> (id: u64)
        requires
            old(self).wf(),
            0 < amount <= old(self).admin_balance,
            old(self).vaults@.len() < u64::MAX,
        ensures
            final(self).wf(),
            vaults_advance(old(self).vaults@, final(self).vaults@),
            id == old(self).vaults@.len() + 1,
            final(self).vaults@ == old(self).vaults@.push(
                Vault {
                    owner,
                    total_amount: amount,
                    released_amount: 0,
                    start_time,
                    end_time,
                    is_initialized: eager,
                },
            ),
            final(self).index_log@ == if eager {
                old(self).index_log@.push(id)
            } else {
                old(self).index_log@
            },
            final(self).admin_balance == old(self).admin_balance - amount,
            final(self).admin == old(self).admin,
            final(self).proposed_admin == old(self).proposed_admin,
            final(self).initial_supply == old(self).initial_supply,
    {
        let id: u64 = self.vaults.len() as u64 + 1;
        let vault = Vault {
            owner,
            total_amount: amount,
            released_amount: 0,
            start_time,
            end_time,
            is_initialized: eager,
        };
        proof {
            lemma_total_push(self.vaults@, vault);
        }
        let ghost pre = *self;
        self.admin_balance = self.admin_balance - amount;
        self.vaults.push(vault);
        if eager {
            self.index_log.push(id);
        }
        proof {
            assert(!pre.index_log@.contains(id)) by {
                if pre.index_log@.contains(id) {
                    let k = choose|k: int| 0 <= k < pre.index_log@.len() && pre.index_log@[k] == id;
                    assert(1 <= pre.index_log@[k] <= pre.vaults@.len());
                }
            }
            assert forall|i: int|
                0 <= i < self.vaults@.len() && (#[trigger] self.vaults@[i]).is_initialized
                    implies self.index_log@.contains((i + 1) as u64) by {
                if i < pre.vaults@.len() {
                    assert(pre.vaults@[i] == self.vaults@[i]);
                    assert(pre.index_log@.contains((i + 1) as u64));
                    let k = choose|k: int| 0 <= k < pre.index_log@.len() && pre.index_log@[k] == (i + 1) as u64;
                    assert(self.index_log@[k] == (i + 1) as u64);
                } else {
                    assert(self.index_log@[self.index_log@.len() - 1] == id);
                }
            }
            assert forall|k: int| 0 <= k < self.index_log@.len() implies {
                let j = #[trigger] self.index_log@[k];
                &&& 1 <= j <= self.vaults@.len()
                &&& self.vaults@[j - 1].is_initialized
            } by {
                if k < pre.index_log@.len() {
                    assert(self.index_log@[k] == pre.index_log@[k]);
                    let j = pre.index_log@[k];
                    assert(self.vaults@[j - 1] == pre.vaults@[j - 1]);
                }
            }
        }
        id
    }

    /// Creates a vault of `amount` for `owner` and indexes it under the
    /// owner at once. Admin only; the amount must be positive and covered
    /// by the admin balance, from which it is debited.
    pub fn create_vault_full(
        &mut self,
        caller: Address,
        owner: Address,
        amount: i128,
        start_time: u64,
        end_time: u64,
    ) -> (r: Result<u64, VestingError>)
        requires
            old(self).wf(),
        ensures
            final(self).wf(),
            vaults_advance(old(self).vaults@, final(self).vaults@),
            r is Ok <==> old(self).create_error(caller, amount) is None,
            r is Err ==> Some(r->Err_0) == old(self).create_error(caller, amount) && final(self)@ == old(self)@,
            r is Ok ==> {
                let id = r->Ok_0;
                &&& id == old(self).vaults@.len() + 1
                &&& final(self).vaults@ == old(self).vaults@.push(
                    Vault {
                        owner,
                        total_amount: amount,
                        released_amount: 0,
                        start_time,
                        end_time,
                        is_initialized: true,
                    },
                )
                &&& final(self).index_log@ == old(self).index_log@.push(id)
                &&& final(self).admin_balance == old(self).admin_balance - amount
                &&& final(self).admin == old(self).admin
                &&& final(self).proposed_admin == old(self).proposed_admin
                &&& final(self).initial_supply == old(self).initial_supply
            },
    {
        self.create_vault(caller, owner, amount, start_time, end_time, true)
    }

    /// Creates a vault of `amount` for `owner` without indexing it; it is
    /// materialized later. Admin only, funded as `create_vault_full`.
    pub fn create_vault_lazy(
        &mut self,
        caller: Address,
        owner: Address,
        amount: i128,
        start_time: u64,
        end_time: u64,
    ) -> (r: Result<u64, VestingError>)
        requires
            old(self).wf(),
        ensures
            final(self).wf(),
            vaults_advance(old(self).vaults@, final(self).vaults@),
            r is Ok <==> old(self).create_error(caller, amount) is None,
            r is Err ==> Some(r->Err_0) == old(self).create_error(caller, amount) && final(self)@ == old(self)@,
            r is Ok ==> {
                let id = r->Ok_0;
                &&& id == old(self).vaults@.len() + 1
                &&& final(self).vaults@ == old(self).vaults@.push(
                    Vault {
                        owner,
                        total_amount: amount,
                        released_amount: 0,
                        start_time,
                        end_time,
                        is_initialized: false,
                    },
                )
                &&& final(self).index_log@ == old(self).index_log@
                &&& final(self).admin_balance == old(self).admin_balance - amount
                &&& final(self).admin == old(self).admin
                &&& final(self).proposed_admin == old(self).proposed_admin
                &&& final(self).initial_supply == old(self).initial_supply
            },
    {
        self.create_vault(caller, owner, amount, start_time, end_time, false)
    }

    /// Claims `claim_amount` from vault `vault_id`: the vault must exist and
    /// be materialized, the amount must be positive and no more than what is
    /// still locked in it. Returns the amount claimed.
    pub fn claim_tokens(&mut self, vault_id: u64, claim_amount: i128) -> (r: Result<i128, VestingError>)
        requires
            old(self).wf(),
        ensures
            final(self).wf(),
            vaults_advance(old(self).vaults@, final(self).vaults@),
            match claim_outcome(old(self).vaults@, vault_id, claim_amount) {
                Ok(w) => {
                    &&& r == Ok::<i128, VestingError>(claim_amount)
                    &&& final(self).vaults@ == w
                    &&& final(self)@ == (LedgerView { vaults: final(self).vaults@, ..old(self)@ })
                },
                Err(e) => r == Err::<i128, VestingError>(e) && final(self)@ == old(self)@,
            },
            only_released_grew(old(self).vaults@, final(self).vaults@),
    {
        let ghost pre = *self;
        match apply_claim(&mut self.vaults, vault_id, claim_amount) {
            Ok(()) => {
                proof {
                    lemma_grew_keeps_wf(pre, *self);
                }
                Ok(claim_amount)
            },
            Err(e) => Err(e),
        }
    }

    /// Claims `claim_amounts[i]` from vault `vault_ids[i]` for every `i`, in
    /// order, as one unit: if any claim is refused, no vault changes and the
    /// first refusal is returned. The two lists must have one equal, non-zero
    /// length. Returns the amounts claimed.
    pub fn claim_all(&mut self, vault_ids: Vec<u64>, claim_amounts: Vec<i128>) -> (r: Result<
        Vec<i128>,
        VestingError,
    >)
        requires
            old(self).wf(),
        ensures
            final(self).wf(),
            vaults_advance(old(self).vaults@, final(self).vaults@),
            vault_ids@.len() != claim_amounts@.len() ==> r == Err::<Vec<i128>, VestingError>(
                VestingError::LengthMismatch,
            ),
            vault_ids@.len() == claim_amounts@.len() == 0 ==> r == Err::<Vec<i128>, VestingError>(
                VestingError::EmptyBatch,
            ),
            vault_ids@.len() == claim_amounts@.len() > 0 ==> match claims_outcome(
                old(self).vaults@,
                vault_ids@,
                claim_amounts@,
                vault_ids@.len(),
            ) {
                Ok(w) => {
                    &&& r is Ok
                    &&& r->Ok_0@ == claim_amounts@
                    &&& final(self).vaults@ == w
                    &&& final(self)@ == (LedgerView { vaults: final(self).vaults@, ..old(self)@ })
                },
                Err(e) => r is Err && r->Err_0 == e,
            },
            r is Err ==> final(self)@ == old(self)@,
            only_released_grew(old(self).vaults@, final(self).vaults@),
    {
        if vault_ids.len() != claim_amounts.len() {
            return Err(VestingError::LengthMismatch);
        }
        if vault_ids.len() == 0 {
            return Err(VestingError::EmptyBatch);
        }
        let n = vault_ids.len();
        let mut work: Vec<Vault> = Vec::new();
        let mut j: usize = 0;
        while j < self.vaults.len()
            invariant
                j <= self.vaults@.len(),
                work@ == self.vaults@.take(j as int),
            decreases self.vaults@.len() - j,
        {
            work.push(self.vaults[j]);
            j = j + 1;
            assert(work@ =~= self.vaults@.take(j as int));
        }
        assert(work@ =~= self.vaults@);
        let mut results: Vec<i128> = Vec::new();
        let mut i: usize = 0;
        while i < n
            invariant
                n == vault_ids@.len() == claim_amounts@.len(),
                i <= n,
                *self == *old(self),
                self.wf(),
                claims_outcome(self.vaults@, vault_ids@, claim_amounts@, i as nat) == Ok::<
                    Seq<Vault>,
                    VestingError,
                >(work@),
                all_well_formed(work@),
                only_released_grew(self.vaults@, work@),
                results@ == claim_amounts@.take(i as int),
            decreases n - i,
        {
            let ghost before = work@;
            let id = vault_ids[i];
            let amount = claim_amounts[i];
            match apply_claim(&mut work, id, amount) {
                Ok(()) => {},
                Err(e) => {
                    proof {
                        lemma_claims_refusal_sticks(
                            self.vaults@,
                            vault_ids@,
                            claim_amounts@,
                            (i + 1) as nat,
                            n as nat,
                        );
                    }
                    return Err(e);
                },
            }
            proof {
                lemma_grew_trans(self.vaults@, before, work@);
            }
            results.push(amount);
            i = i + 1;
            assert(results@ =~= claim_amounts@.take(i as int));
        }
        assert(results@ =~= claim_amounts@);
        let ghost pre = *self;
        self.vaults = work;
        proof {
            lemma_grew_keeps_wf(pre, *self);
        }
        Ok(results)
    }

    /// Materializes vault `vault_id`: marks it initialized and appends it to
    /// its owner's index. Returns whether that happened; a vault that is
    /// missing or already materialized is left as it is.
    pub fn initialize_vault_metadata(&mut self, vault_id: u64) -> (r: bool)
        requires
            old(self).wf(),
        ensures
            final(self).wf(),
            vaults_advance(old(self).vaults@, final(self).vaults@),
            r == (old(self).has_vault(vault_id) && !old(self).vault(vault_id).is_initialized),
            final(self)@ == materialized(old(self)@, vault_id),
    {
        if vault_id == 0 || vault_id as u128 > self.vaults.len() as u128 {
            return false;
        }
        let i: usize = (vault_id - 1) as usize;
        let mut v = self.vaults[i];
        if v.is_initialized {
            return false;
        }
        let ghost pre = *self;
        proof {
            assert(!pre.index_log@.contains(vault_id)) by {
                if pre.index_log@.contains(vault_id) {
                    let k = choose|k: int| 0 <= k < pre.index_log@.len() && pre.index_log@[k] == vault_id;
                    assert(pre.vaults@[pre.index_log@[k] - 1].is_initialized);
                }
            }
        }
        v.is_initialized = true;
        self.vaults[i] = v;
        self.index_log.push(vault_id);
        proof {
            assert forall|j: int| 0 <= j < self.vaults@.len() implies
                (#[trigger] self.vaults@[j]).total_amount == pre.vaults@[j].total_amount by {}
            lemma_total_same(pre.vaults@, self.vaults@);
            assert forall|j: int| 0 <= j < self.vaults@.len() implies (#[trigger] self.vaults@[j]).well_formed() by {
                assert(pre.vaults@[j].well_formed());
            }
            assert forall|j: int|
                0 <= j < self.vaults@.len() && (#[trigger] self.vaults@[j]).is_initialized
                    implies self.index_log@.contains((j + 1) as u64) by {
                if j == i {
                    assert(self.index_log@[self.index_log@.len() - 1] == vault_id);
                } else {
                    assert(pre.vaults@[j].is_initialized);
                    let k = choose|k: int| 0 <= k < pre.index_log@.len() && pre.index_log@[k] == (j + 1) as u64;
                    assert(self.index_log@[k] == (j + 1) as u64);
                }
            }
            assert forall|k: int| 0 <= k < self.index_log@.len() implies {
                let x = #[trigger] self.index_log@[k];
                &&& 1 <= x <= self.vaults@.len()
                &&& self.vaults@[x - 1].is_initialized
            } by {
                if k < pre.index_log@.len() {
                    assert(self.index_log@[k] == pre.index_log@[k]);
                    let x = pre.index_log@[k];
                    assert(pre.vaults@[x - 1].is_initialized);
                }
            }
            assert(self@ == materialized(pre@, vault_id));
        }
        true
    }

    /// Reads vault `vault_id`, materializing it first if it is not yet. A
    /// missing vault gets `NotFound` and changes nothing.
    pub fn get_vault(&mut self, vault_id: u64) -> (r: Result<Vault, VestingError>)
        requires
            old(self).wf(),
        ensures
            final(self).wf(),
            vaults_advance(old(self).vaults@, final(self).vaults@),
            final(self)@ == materialized(old(self)@, vault_id),
            old(self).has_vault(vault_id) ==> r == Ok::<Vault, VestingError>(
                Vault { is_initialized: true, ..old(self).vault(vault_id) },
            ),
            !old(self).has_vault(vault_id) ==> r == Err::<Vault, VestingError>(VestingError::NotFound),
    {
        if vault_id == 0 || vault_id as u128 > self.vaults.len() as u128 {
            return Err(VestingError::NotFound);
        }
        self.initialize_vault_metadata(vault_id);
        let v = self.vaults[(vault_id - 1) as usize];
        proof {
            assert(self.vaults@[vault_id - 1].is_initialized);
        }
        Ok(v)
    }

    /// The ids indexed under `user`, in the order they were indexed. Every
    /// vault found there is already materialized, so reading it changes
    /// nothing.
    pub fn get_user_vaults(&self, user: Address) -> (r: Vec<u64>)
        requires
            self.wf(),
        ensures
            r@ == self.owner_index(user),
            forall|k: int| 0 <= k < r@.len() ==> self.has_vault(#[trigger] r@[k]) && self.vault(r@[k]).is_initialized,
    {
        let mut r: Vec<u64> = Vec::new();
        let mut k: usize = 0;
        while k < self.index_log.len()
            invariant
                self.wf(),
                k <= self.index_log@.len(),
                r@ == ids_owned(self.index_log@.take(k as int), self.vaults@, user),
            decreases self.index_log@.len() - k,
        {
            let id = self.index_log[k];
            proof {
                assert(self.index_log@.take(k + 1) =~= self.index_log@.take(k as int).push(id));
                lemma_ids_owned_push(self.index_log@.take(k as int), self.vaults@, user, id);
                assert(self.index_log@[k as int] == id);
                assert(1 <= id <= self.vaults@.len());
            }
            let len = self.vaults.len();
            assert(id - 1 < len);
            let i: usize = (id - 1) as usize;
            if self.vaults[i].owner == user {
                r.push(id);
            }
            k = k + 1;
        }
        assert(self.index_log@.take(k as int) =~= self.index_log@);
        proof {
            lemma_ids_owned_members(self.index_log@, self.vaults@, user);
            assert forall|k: int| 0 <= k < r@.len() implies self.has_vault(#[trigger] r@[k]) && self.vault(r@[k]).is_initialized by {
                assert(r@.contains(r@[k]));
            }
        }
        r
    }

    /// The amounts locked in all vaults, released from all vaults, and left
    /// with the admin.
    pub fn get_contract_state(&self) -> (r: (i128, i128, i128))
        requires
            self.wf(),
        ensures
            r.0 == locked_sum(self.vaults@),
            r.1 == released_sum(self.vaults@),
            r.2 == self.admin_balance,
    {
        let mut locked: i128 = 0;
        let mut claimed: i128 = 0;
        let mut k: usize = 0;
        while k < self.vaults.len()
            invariant
                self.wf(),
                k <= self.vaults@.len(),
                locked == locked_sum(self.vaults@.take(k as int)),
                claimed == released_sum(self.vaults@.take(k as int)),
            decreases self.vaults@.len() - k,
        {
            let v = self.vaults[k];
            proof {
                lemma_take_step(self.vaults@, k as int);
                lemma_prefix_bounds(self.vaults@, k + 1);
                assert(v.well_formed());
            }
            locked = locked + v.available();
            claimed = claimed + v.released_amount;
            k = k + 1;
        }
        assert(self.vaults@.take(k as int) =~= self.vaults@);
        (locked, claimed, self.admin_balance)
    }

    /// Whether locked, released and unallocated amounts add up to the
    /// initial supply; in a well-formed ledger they always do.
    pub fn check_invariant(&self) -> (r: bool)
        requires
            self.wf(),
        ensures
            r == (locked_sum(self.vaults@) + released_sum(self.vaults@) + self.admin_balance == self.initial_supply),
            r,
    {
        let (locked, claimed, balance) = self.get_contract_state();
        proof {
            lemma_conservation(*self);
            lemma_prefix_bounds(self.vaults@, self.vaults@.len() as int);
            assert(self.vaults@.take(self.vaults@.len() as int) =~= self.vaults@);
        }
        locked + claimed + balance == self.initial_supply
    }

    /// Whether the ledger satisfies its invariant, for a ledger assembled
    /// from stored parts.
    pub fn is_well_formed(&self) -> (r: bool)
        ensures
            r == self.wf(),
    {
        let len = self.vaults.len();
        if len as u128 > u64::MAX as u128 {
            return false;
        }
        if self.admin.is_none() {
            if self.proposed_admin.is_some() || len != 0 || self.index_log.len() != 0
                || self.initial_supply != 0 || self.admin_balance != 0 {
                return false;
            }
        }
        if self.admin_balance < 0 && len > 0 {
            return false;
        }
        let mut i: usize = 0;
        while i < len
            invariant
                len == self.vaults@.len(),
                i <= len,
                forall|j: int| 0 <= j < i ==> (#[trigger] self.vaults@[j]).well_formed(),
            decreases len - i,
        {
            let v = self.vaults[i];
            if v.released_amount < 0 || v.released_amount > v.total_amount {
                assert(!self.vaults@[i as int].well_formed());
                return false;
            }
            i = i + 1;
        }
        assert(all_well_formed(self.vaults@));
        let mut total: i128 = 0;
        i = 0;
        while i < len
            invariant
                len == self.vaults@.len(),
                i <= len,
                all_well_formed(self.vaults@),
                self.admin_balance < 0 ==> len == 0,
                total == total_sum(self.vaults@.take(i as int)),
                0 <= total,
            decreases len - i,
        {
            let t = self.vaults[i].total_amount;
            proof {
                assert(self.vaults@.take(i + 1).drop_last() =~= self.vaults@.take(i as int));
                assert(self.vaults@[i as int].well_formed());
            }
            if t > i128::MAX - total {
                proof {
                    lemma_prefix_bounds(self.vaults@, i + 1);
                    lemma_locked_plus_released(self.vaults@.take(i + 1));
                }
                return false;
            }
            total = total + t;
            i = i + 1;
        }
        assert(self.vaults@.take(len as int) =~= self.vaults@);
        if self.admin_balance >= 0 {
            if total > i128::MAX - self.admin_balance {
                return false;
            }
            if total + self.admin_balance != self.initial_supply {
                return false;
            }
        } else if self.admin_balance != self.initial_supply {
            return false;
        }
        let mut seen: Vec<bool> = Vec::new();
        i = 0;
        while i < len
            invariant
                len == self.vaults@.len(),
                i <= len,
                seen@.len() == i,
                forall|j: int| 0 <= j < i ==> !(#[trigger] seen@[j]),
            decreases len - i,
        {
            seen.push(false);
            i = i + 1;
        }
        let log_len = self.index_log.len();
        let mut k: usize = 0;
        while k < log_len
            invariant
                len == self.vaults@.len(),
                log_len == self.index_log@.len(),
                k <= log_len,
                seen@.len() == len,
                forall|j: int|
                    0 <= j < len ==> (#[trigger] seen@[j] <==> exists|q: int|
                        0 <= q < k && self.index_log@[q] == j + 1),
                forall|p: int, q: int|
                    0 <= p < k && 0 <= q < k && p != q ==> self.index_log@[p] != self.index_log@[q],
                forall|q: int|
                    0 <= q < k ==> {
                        let id = #[trigger] self.index_log@[q];
                        &&& 1 <= id <= self.vaults@.len()
                        &&& self.vaults@[id - 1].is_initialized
                    },
            decreases log_len - k,
        {
            let id = self.index_log[k];
            if id == 0 || id as u128 > len as u128 {
                assert(!self.wf()) by {
                    if self.wf() {
                        assert(self.index_log@[k as int] == id);
                    }
                }
                return false;
            }
            let j: usize = (id - 1) as usize;
            if !self.vaults[j].is_initialized {
                assert(!self.wf()) by {
                    if self.wf() {
                        assert(self.index_log@[k as int] == id);
                    }
                }
                return false;
            }
            if seen[j] {
                assert(!self.wf()) by {
                    assert(seen@[j as int]);
                    let q = choose|q: int| 0 <= q < k && self.index_log@[q] == j + 1;
                    assert(self.index_log@[q] == self.index_log@[k as int]);
                }
                return false;
            }
            seen[j] = true;
            proof {
                assert forall|x: int| 0 <= x < len implies (#[trigger] seen@[x] <==> exists|q: int|
                    0 <= q < k + 1 && self.index_log@[q] == x + 1) by {
                    if x == j {
                        assert(self.index_log@[k as int] == x + 1);
                    } else if seen@[x] {
                        let q = choose|q: int| 0 <= q < k && self.index_log@[q] == x + 1;
                        assert(0 <= q < k + 1 && self.index_log@[q] == x + 1);
                    }
                }
                assert forall|p: int, q: int|
                    0 <= p < k + 1 && 0 <= q < k + 1 && p != q implies self.index_log@[p] != self.index_log@[q] by {
                    if q == k && p < k && self.index_log@[p] == self.index_log@[q] {
                        assert(self.index_log@[p] == j + 1);
                    }
                    if p == k && q < k && self.index_log@[p] == self.index_log@[q] {
                        assert(self.index_log@[q] == j + 1);
                    }
                }
            }
            k = k + 1;
        }
        assert(self.index_log@.no_duplicates());
        i = 0;
        while i < len
            invariant
                len == self.vaults@.len(),
                log_len == self.index_log@.len(),
                i <= len,
                seen@.len() == len,
                forall|j: int|
                    0 <= j < len ==> (#[trigger] seen@[j] <==> exists|q: int|
                        0 <= q < log_len && self.index_log@[q] == j + 1),
                forall|j: int|
                    0 <= j < i && (#[trigger] self.vaults@[j]).is_initialized
                        ==> self.index_log@.contains((j + 1) as u64),
            decreases len - i,
        {
            if self.vaults[i].is_initialized && !seen[i] {
                assert(!self.wf()) by {
                    if self.wf() {
                        assert(self.vaults@[i as int].is_initialized);
                        assert(self.index_log@.contains((i + 1) as u64));
                        let q = choose|q: int| 0 <= q < log_len && self.index_log@[q] == (i + 1) as u64;
                        assert(seen@[i as int]);
                    }
                }
                return false;
            }
            proof {
                if self.vaults@[i as int].is_initialized {
                    assert(seen@[i as int]);
                    let q = choose|q: int| 0 <= q < log_len && self.index_log@[q] == i + 1;
                    assert(self.index_log@[q] == (i + 1) as u64);
                }
            }
            i = i + 1;
        }
        true
    }
}

} // verus!
