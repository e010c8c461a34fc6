use vstd::prelude::*;
use crate::cache::TxCache;
use crate::updates::{BlockchainUpdates, delta_sum, has_update, pending_token_delta};
use crate::world::{
    World, account_index, account_matches, applied_all, balance_of, has_account, record_of,
    total_balance,
};

verus! {

/// Conservation of the native currency. A cache opened on a world that records
/// only transfers (each keeps the sum of pending native changes as it was)
/// exports updates whose native changes sum to zero, so the world that applies
/// them ends with the same sum of native balances as before.
pub proof fn lemma_transfers_conserve_supply(
    before: World,
    opened: TxCache,
    closed: TxCache,
    updates: BlockchainUpdates,
    after: World,
)
    requires
        opened.world_spec() == before,
        opened.pending().len() == 0,
        closed.world_spec() == before,
        delta_sum(closed.pending()) == delta_sum(opened.pending()),
        updates@ == closed.pending(),
        total_balance(after@) == total_balance(before@) + delta_sum(updates@),
    ensures
        total_balance(after@) == total_balance(before@),
{
    assert(delta_sum(opened.pending()) == 0);
}

/// Isolation: a cache with nothing pending reads exactly what the world holds.
pub proof fn lemma_fresh_cache_reads_world(c: TxCache)
    requires
        c.pending().len() == 0,
    ensures
        forall|a: Seq<u8>| #[trigger] c.balance_spec(a) == balance_of(c.world_spec()@, a),
        forall|a: Seq<u8>, id: Seq<u8>, n: u64|
            #[trigger] c.token_spec(a, id, n) == record_of(c.world_spec()@, a).token_spec(id, n),
        forall|a: Seq<u8>, k: Seq<u8>|
            #[trigger] c.storage_spec(a, k) == record_of(c.world_spec()@, a).storage_spec(k),
{
    assert forall|a: Seq<u8>| !has_update(c.pending(), a) by {
    }
    assert forall|a: Seq<u8>, id: Seq<u8>, n: u64|
        pending_token_delta(c.pending(), a, id, n) == 0 by {
        assert(!has_update(c.pending(), a));
    }
}


/// Committing makes the cache's view the world's: after the world applies
/// what a cache exported, it holds the same accounts, and each reads the
/// native balance, token amounts and storage values that the cache showed.
pub proof fn lemma_commit_matches_cache(c: TxCache, updates: BlockchainUpdates, after: World)
    requires
        c.wf(),
        updates@ == c.pending(),
        applied_all(c.world_spec()@, updates@, after@),
    ensures
        forall|a: Seq<u8>| #[trigger] has_account(after@, a) == c.known(a),
        forall|a: Seq<u8>| c.known(a) ==> #[trigger] balance_of(after@, a) == c.balance_spec(a),
        forall|a: Seq<u8>, id: Seq<u8>, n: u64|
            c.known(a) ==> #[trigger] record_of(after@, a).token_spec(id, n) == c.token_spec(a, id, n),
        forall|a: Seq<u8>, k: Seq<u8>|
            c.known(a) ==> #[trigger] record_of(after@, a).storage_spec(k) == c.storage_spec(a, k),
{
    c.lemma_wf();
    let s = c.world_spec()@;
    let t = after@;
    assert forall|j: int| 0 <= j < s.len() implies #[trigger] t[j].address == s[j].address by {
        if has_update(updates@, s[j].address@) {
        }
    }
    assert forall|a: Seq<u8>| c.known(a) implies has_account(t, a) && record_of(t, a) == t[account_index(
        s,
        a,
    )] by {
        let i = account_index(s, a);
        assert(account_matches(t[i], a));
        let k = account_index(t, a);
        assert(t[k].address@ == s[k].address@);
        assert(s[k].address@ == s[i].address@);
    }
    assert forall|a: Seq<u8>| #[trigger] has_account(t, a) implies c.known(a) by {
        let k = account_index(t, a);
        assert(account_matches(s[k], a));
    }
}

} // verus!
