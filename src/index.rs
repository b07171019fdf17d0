use vstd::prelude::*;

use crate::types::{Address, Vault};

verus! {

/// The ids among `log` whose vault belongs to `owner`, in the order of `log`.
pub open spec fn ids_owned(log: Seq<u64>, vaults: Seq<Vault>, owner: Address) -> Seq<u64>
    decreases log.len(),
{
    if log.len() == 0 {
        Seq::empty()
    } else {
        let prev = ids_owned(log.drop_last(), vaults, owner);
        if vaults[log.last() - 1].owner == owner {
            prev.push(log.last())
        } else {
            prev
        }
    }
}

/// Appending an id to the log appends it to its owner's index only.
pub proof fn lemma_ids_owned_push(log: Seq<u64>, vaults: Seq<Vault>, owner: Address, id: u64)
    ensures
        ids_owned(log.push(id), vaults, owner) == if vaults[id - 1].owner == owner {
            ids_owned(log, vaults, owner).push(id)
        } else {
            ids_owned(log, vaults, owner)
        },
{
    assert(log.push(id).drop_last() =~= log);
}

/// An owner's index holds ids of the log only, each once if the log has no
/// repeats, and every logged id of the owner's vaults.
pub proof fn lemma_ids_owned_members(log: Seq<u64>, vaults: Seq<Vault>, owner: Address)
    ensures
        forall|x: u64| #[trigger] ids_owned(log, vaults, owner).contains(x) ==> log.contains(x),
        forall|x: u64|
            log.contains(x) && vaults[x - 1].owner == owner ==> #[trigger] ids_owned(log, vaults, owner).contains(x),
        log.no_duplicates() ==> ids_owned(log, vaults, owner).no_duplicates(),
    decreases log.len(),
{
    if log.len() > 0 {
        let prev = log.drop_last();
        lemma_ids_owned_members(prev, vaults, owner);
        assert(log =~= prev.push(log.last()));
        lemma_ids_owned_push(prev, vaults, owner, log.last());
        assert forall|x: u64| #[trigger] ids_owned(log, vaults, owner).contains(x) implies log.contains(x) by {
            if x != log.last() {
                assert(ids_owned(prev, vaults, owner).contains(x));
                let k = choose|k: int| 0 <= k < prev.len() && prev[k] == x;
                assert(log[k] == x);
            } else {
                assert(log[log.len() - 1] == x);
            }
        }
        assert forall|x: u64|
            log.contains(x) && vaults[x - 1].owner == owner implies #[trigger] ids_owned(log, vaults, owner).contains(x) by {
            let k = choose|k: int| 0 <= k < log.len() && log[k] == x;
            if k < log.len() - 1 {
                assert(prev[k] == x);
                assert(ids_owned(prev, vaults, owner).contains(x));
                let q = choose|q: int| 0 <= q < ids_owned(prev, vaults, owner).len() && ids_owned(prev, vaults, owner)[q] == x;
                assert(ids_owned(log, vaults, owner)[q] == x);
            } else {
                let o = ids_owned(log, vaults, owner);
                assert(o[o.len() - 1] == x);
            }
        }
        if log.no_duplicates() {
            assert(prev.no_duplicates()) by {
                assert forall|a: int, b: int| 0 <= a < prev.len() && 0 <= b < prev.len() && a != b implies prev[a] != prev[b] by {
                    assert(prev[a] == log[a] && prev[b] == log[b]);
                }
            }
            if vaults[log.last() - 1].owner == owner {
                assert(!ids_owned(prev, vaults, owner).contains(log.last())) by {
                    if ids_owned(prev, vaults, owner).contains(log.last()) {
                        let k = choose|k: int| 0 <= k < prev.len() && prev[k] == log.last();
                        assert(log[k] == log[log.len() - 1]);
                    }
                }
            }
        }
    }
}

} // verus!
