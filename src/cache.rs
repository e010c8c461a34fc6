use vstd::prelude::*;
use crate::address::Address;
use crate::account::{AccountRecord, has_key, storage_value};
use crate::updates::{
    AccountUpdate, BlockchainUpdates, LedgerError, delta_sum, has_update,
    native_delta, pending_token_delta, token_delta, update_of, update_valid, update_wf,
    updates_wf, lemma_delta_at, lemma_update_at, lemma_updates_push, lemma_updates_replace,
    put_write, shift_token_delta,
};
use crate::world::{World, applicable, balance_of, has_account, record_of, lemma_record_wf, accounts_wf};

verus! {

/// One token transfer carried by a transaction.
#[derive(Clone, Debug)]
pub struct TokenTransfer {
    pub token_id: Vec<u8>,
    pub nonce: u64,
    pub amount: u64,
}

/// The description of one simulated call.
#[derive(Clone, Debug)]
pub struct TxInput {
    pub from: Address,
    pub to: Address,
    pub egld_value: u64,
    pub esdt_transfers: Vec<TokenTransfer>,
    pub func_name: Vec<u8>,
    pub args: Vec<Vec<u8>>,
    pub gas_limit: u64,
    pub gas_price: u64,
    pub tx_hash: [u8; 32],
}

/// A pending change that keeps every balance of the record in range.
pub open spec fn pending_ok(rec: AccountRecord, u: AccountUpdate) -> bool {
    &&& 0 <= rec.balance + u.native_delta <= u64::MAX
    &&& u.nonce_increment <= 1
    &&& rec.nonce + u.nonce_increment <= u64::MAX
    &&& forall|id: Seq<u8>, n: u64|
        0 <= #[trigger] rec.token_spec(id, n) + token_delta(u.token_deltas@, id, n) <= u64::MAX
}

/// A write-buffered overlay of one transaction over a world. Reads see the
/// world with the pending changes on top; the world itself is never changed.
pub struct TxCache<'w> {
    world: &'w World,
    tx: TxInput,
    pending: Vec<AccountUpdate>,
}

impl<'w> TxCache<'w> {
    pub closed spec fn world_spec(&self) -> World {
        *self.world
    }

    pub closed spec fn tx_spec(&self) -> TxInput {
        self.tx
    }

    /// The changes recorded so far, one entry per touched account.
    pub closed spec fn pending(&self) -> Seq<AccountUpdate> {
        self.pending@
    }

    pub closed spec fn wf(&self) -> bool {
        &&& self.world.wf()
        &&& updates_wf(self.pending@)
        &&& forall|i: int|
            0 <= i < self.pending@.len() ==> has_account(self.world@, #[trigger] self.pending@[i].address@)
                && pending_ok(record_of(self.world@, self.pending@[i].address@), self.pending@[i])
    }

    /// The address is registered in the underlying world.
    pub open spec fn known(&self, a: Seq<u8>) -> bool {
        has_account(self.world_spec()@, a)
    }

    /// The native balance as seen through the cache.
    pub open spec fn balance_spec(&self, a: Seq<u8>) -> int {
        balance_of(self.world_spec()@, a) + native_delta(self.pending(), a)
    }

    /// The amount of a token instance as seen through the cache.
    pub open spec fn token_spec(&self, a: Seq<u8>, id: Seq<u8>, nonce: u64) -> int {
        record_of(self.world_spec()@, a).token_spec(id, nonce) + pending_token_delta(
            self.pending(),
            a,
            id,
            nonce,
        )
    }

    /// The nonce increment recorded for an account: one once the account's
    /// transaction has been counted, zero before.
    pub open spec fn nonce_increment_spec(&self, a: Seq<u8>) -> int {
        if has_update(self.pending(), a) {
            update_of(self.pending(), a).nonce_increment as int
        } else {
            0
        }
    }

    /// The value under a storage key as seen through the cache.
    pub open spec fn storage_spec(&self, a: Seq<u8>, key: Seq<u8>) -> Seq<u8> {
        if has_update(self.pending(), a) && has_key(update_of(self.pending(), a).storage_writes@, key) {
            storage_value(update_of(self.pending(), a).storage_writes@, key)
        } else {
            record_of(self.world_spec()@, a).storage_spec(key)
        }
    }

    /// Everything but the native balance of `a` reads the same in both caches.
    pub open spec fn same_except_balance(&self, other: &TxCache, a: Seq<u8>) -> bool {
        &&& forall|b: Seq<u8>| b != a ==> #[trigger] self.balance_spec(b) == other.balance_spec(b)
        &&& forall|b: Seq<u8>, id: Seq<u8>, n: u64|
            #[trigger] self.token_spec(b, id, n) == other.token_spec(b, id, n)
        &&& forall|b: Seq<u8>, k: Seq<u8>| #[trigger] self.storage_spec(b, k) == other.storage_spec(b, k)
        &&& forall|b: Seq<u8>| #[trigger] self.nonce_increment_spec(b) == other.nonce_increment_spec(b)
    }

    /// Everything but one token instance of `a` reads the same in both caches.
    pub open spec fn same_except_token(&self, other: &TxCache, a: Seq<u8>, id: Seq<u8>, nonce: u64) -> bool {
        &&& forall|b: Seq<u8>| #[trigger] self.balance_spec(b) == other.balance_spec(b)
        &&& forall|b: Seq<u8>, i: Seq<u8>, n: u64|
            !(b == a && i == id && n == nonce) ==> #[trigger] self.token_spec(b, i, n)
                == other.token_spec(b, i, n)
        &&& forall|b: Seq<u8>, k: Seq<u8>| #[trigger] self.storage_spec(b, k) == other.storage_spec(b, k)
        &&& forall|b: Seq<u8>| #[trigger] self.nonce_increment_spec(b) == other.nonce_increment_spec(b)
    }

    /// Both caches read the same everywhere.
    pub open spec fn same_reads(&self, other: &TxCache) -> bool {
        &&& forall|b: Seq<u8>| #[trigger] self.balance_spec(b) == other.balance_spec(b)
        &&& forall|b: Seq<u8>, id: Seq<u8>, n: u64|
            #[trigger] self.token_spec(b, id, n) == other.token_spec(b, id, n)
        &&& forall|b: Seq<u8>, k: Seq<u8>| #[trigger] self.storage_spec(b, k) == other.storage_spec(b, k)
        &&& forall|b: Seq<u8>| #[trigger] self.nonce_increment_spec(b) == other.nonce_increment_spec(b)
    }

    /// Opens a cache over the world; nothing is pending yet.
    pub fn new(world: &'w World, tx: TxInput) -> (r: TxCache<'w>)
        requires
            world.wf(),
        ensures
            r.wf(),
            r.world_spec() == *world,
            r.tx_spec() == tx,
            r.pending().len() == 0,
    {
        TxCache { world, tx, pending: Vec::new() }
    }

    /// The world the cache reads from.
    pub fn world(&self) -> (r: &'w World)
        ensures
            *r == self.world_spec(),
    {
        self.world
    }

    /// The transaction the cache belongs to.
    pub fn tx_input(&self) -> (r: &TxInput)
        ensures
            *r == self.tx_spec(),
    {
        &self.tx
    }

    pub proof fn lemma_wf(&self)
        requires
            self.wf(),
        ensures
            self.world_spec().wf(),
            accounts_wf(self.world_spec()@),
            updates_wf(self.pending()),
            forall|a: Seq<u8>| #[trigger] has_update(self.pending(), a) ==> self.known(a),
            forall|a: Seq<u8>|
                self.known(a) ==> 0 <= #[trigger] self.balance_spec(a) <= u64::MAX,
            forall|a: Seq<u8>, id: Seq<u8>, n: u64|
                self.known(a) ==> 0 <= #[trigger] self.token_spec(a, id, n) <= u64::MAX,
    {
        self.world.lemma_wf();
        assert forall|a: Seq<u8>| #[trigger] has_update(self.pending(), a) implies self.known(a) by {
            let k = choose|k: int|
                0 <= k < self.pending@.len() && #[trigger] crate::updates::update_matches(
                    self.pending@[k],
                    a,
                );
        }
        assert forall|a: Seq<u8>, id: Seq<u8>, n: u64| self.known(a) implies 0 <= #[trigger] self.token_spec(
            a,
            id,
            n,
        ) <= u64::MAX by {
            if has_update(self.pending@, a) {
                let k = choose|k: int|
                    0 <= k < self.pending@.len() && #[trigger] crate::updates::update_matches(
                        self.pending@[k],
                        a,
                    );
                lemma_update_at(self.pending@, k);
                assert(pending_ok(record_of(self.world@, a), self.pending@[k]));
            }
        }
        assert forall|a: Seq<u8>| self.known(a) implies 0 <= #[trigger] self.balance_spec(a)
            <= u64::MAX by {
            if has_update(self.pending@, a) {
                let k = choose|k: int|
                    0 <= k < self.pending@.len() && #[trigger] crate::updates::update_matches(
                        self.pending@[k],
                        a,
                    );
                lemma_update_at(self.pending@, k);
                assert(pending_ok(record_of(self.world@, a), self.pending@[k]));
            }
        }
    }

    /// The index of the pending entry of a registered account, made empty if new.
    fn entry_index(&mut self, a: &Address) -> (j: usize)
        requires
            old(self).wf(),
            old(self).known(a@),
        ensures
            final(self).wf(),
            final(self).world == old(self).world,
            final(self).tx == old(self).tx,
            j < final(self).pending@.len(),
            final(self).pending@[j as int].address@ == a@,
            final(self).same_reads(old(self)),
            forall|b: Seq<u8>| #[trigger] final(self).nonce_increment_spec(b)
                == old(self).nonce_increment_spec(b),
            delta_sum(final(self).pending@) == delta_sum(old(self).pending@),
    {
        match crate::updates::find_update(&self.pending, a) {
            Some(j) => j,
            None => {
                let ghost before = *self;
                let e = AccountUpdate {
                    address: *a,
                    native_delta: 0,
                    token_deltas: Vec::new(),
                    storage_writes: Vec::new(),
                    nonce_increment: 0,
                };
                proof {
                    lemma_updates_push(self.pending@, e);
                    assert(has_key(e.storage_writes@, Seq::empty()) == false);
                }
                self.pending.push(e);
                proof {
                    let ps = self.pending@;
                    assert forall|i: int| 0 <= i < ps.len() implies has_account(
                        self.world@,
                        #[trigger] ps[i].address@,
                    ) && pending_ok(record_of(self.world@, ps[i].address@), ps[i]) by {
                        if i < before.pending@.len() {
                            assert(ps[i] == before.pending@[i]);
                        }
                    }
                    assert forall|b: Seq<u8>| #[trigger] self.balance_spec(b) == before.balance_spec(b) by {
                        if b != a@ && has_update(before.pending@, b) {
                        }
                    }
                    assert forall|b: Seq<u8>, id: Seq<u8>, n: u64|
                        #[trigger] self.token_spec(b, id, n) == before.token_spec(b, id, n) by {
                    }
                    assert forall|b: Seq<u8>, k: Seq<u8>|
                        #[trigger] self.storage_spec(b, k) == before.storage_spec(b, k) by {
                    }
                    assert forall|b: Seq<u8>| #[trigger] self.nonce_increment_spec(b)
                        == before.nonce_increment_spec(b) by {
                    }
                }
                self.pending.len() - 1
            },
        }
    }
}

} // verus!

verus! {

/// Replacing the pending entry at `j` by `e` for the same account changes what
/// the cache reads for that account only.
proof fn lemma_replace_entry(before: TxCache, after: TxCache, j: int, e: AccountUpdate)
    requires
        before.wf(),
        0 <= j < before.pending@.len(),
        after.world == before.world,
        after.pending@ == before.pending@.update(j, e),
        e.address@ == before.pending@[j].address@,
        update_wf(e),
        pending_ok(record_of(before.world@, e.address@), e),
    ensures
        after.wf(),
        delta_sum(after.pending@) == delta_sum(before.pending@) - before.pending@[j].native_delta
            + e.native_delta,
        update_of(before.pending@, e.address@) == before.pending@[j],
        update_of(after.pending@, e.address@) == e,
        has_update(after.pending@, e.address@),
        forall|b: Seq<u8>| b != e.address@ ==> #[trigger] after.balance_spec(b) == before.balance_spec(b),
        forall|b: Seq<u8>, id: Seq<u8>, n: u64|
            b != e.address@ ==> #[trigger] after.token_spec(b, id, n) == before.token_spec(b, id, n),
        forall|b: Seq<u8>, k: Seq<u8>|
            b != e.address@ ==> #[trigger] after.storage_spec(b, k) == before.storage_spec(b, k),
        forall|b: Seq<u8>|
            b != e.address@ ==> #[trigger] after.nonce_increment_spec(b) == before.nonce_increment_spec(b),
{
    let ps = before.pending@;
    lemma_update_at(ps, j);
    lemma_updates_replace(ps, j, e);
    let qs = after.pending@;
    assert forall|i: int| 0 <= i < qs.len() implies has_account(after.world@, #[trigger] qs[i].address@)
        && pending_ok(record_of(after.world@, qs[i].address@), qs[i]) by {
        if i != j {
            assert(qs[i] == ps[i]);
        }
    }
}

impl<'w> TxCache<'w> {
    /// Adds `d` to the native balance of a registered account as the cache sees it.
    fn shift_native(&mut self, a: &Address, d: i128)
        requires
            old(self).wf(),
            old(self).known(a@),
            0 <= old(self).balance_spec(a@) + d <= u64::MAX,
        ensures
            final(self).wf(),
            final(self).world == old(self).world,
            final(self).tx == old(self).tx,
            final(self).balance_spec(a@) == old(self).balance_spec(a@) + d,
            final(self).same_except_balance(old(self), a@),
            delta_sum(final(self).pending@) == delta_sum(old(self).pending@) + d,
    {
        let j = self.entry_index(a);
        let ghost mid = *self;
        proof {
            lemma_update_at(mid.pending@, j as int);
            mid.lemma_wf();
            assert(update_wf(mid.pending@[j as int]));
            assert(pending_ok(record_of(mid.world@, a@), mid.pending@[j as int]));
            assert(native_delta(mid.pending@, a@) == mid.pending@[j as int].native_delta);
            assert(balance_of(mid.world@, a@) == record_of(mid.world@, a@).balance);
            assert(mid.balance_spec(a@) == old(self).balance_spec(a@));
        }
        let mut e = self.pending.remove(j);
        e.native_delta = e.native_delta + d;
        assert(pending_ok(record_of(mid.world@, a@), e));
        self.pending.insert(j, e);
        proof {
            assert(self.pending@ =~= mid.pending@.update(j as int, e));
            lemma_replace_entry(mid, *self, j as int, e);
            assert forall|b: Seq<u8>, id: Seq<u8>, n: u64|
                #[trigger] self.token_spec(b, id, n) == old(self).token_spec(b, id, n) by {
                assert(mid.token_spec(b, id, n) == old(self).token_spec(b, id, n));
            }
            assert forall|b: Seq<u8>, k: Seq<u8>|
                #[trigger] self.storage_spec(b, k) == old(self).storage_spec(b, k) by {
                assert(mid.storage_spec(b, k) == old(self).storage_spec(b, k));
            }
            assert forall|b: Seq<u8>| b != a@ implies #[trigger] self.balance_spec(b)
                == old(self).balance_spec(b) by {
                assert(mid.balance_spec(b) == old(self).balance_spec(b));
            }
            assert forall|b: Seq<u8>| #[trigger] self.nonce_increment_spec(b)
                == old(self).nonce_increment_spec(b) by {
                assert(mid.nonce_increment_spec(b) == old(self).nonce_increment_spec(b));
            }
        }
    }
}


impl<'w> TxCache<'w> {
    /// Adds `d` to the amount of a token instance of a registered account as the cache sees it.
    fn shift_token(&mut self, a: &Address, token_id: &Vec<u8>, nonce: u64, d: i128)
        requires
            old(self).wf(),
            old(self).known(a@),
            0 <= old(self).token_spec(a@, token_id@, nonce) + d <= u64::MAX,
        ensures
            final(self).wf(),
            final(self).world == old(self).world,
            final(self).tx == old(self).tx,
            final(self).token_spec(a@, token_id@, nonce) == old(self).token_spec(a@, token_id@, nonce) + d,
            final(self).same_except_token(old(self), a@, token_id@, nonce),
            delta_sum(final(self).pending@) == delta_sum(old(self).pending@),
    {
        let j = self.entry_index(a);
        let ghost mid = *self;
        let ghost rec = record_of(mid.world@, a@);
        proof {
            lemma_update_at(mid.pending@, j as int);
            mid.lemma_wf();
            assert(update_wf(mid.pending@[j as int]));
            assert(pending_ok(rec, mid.pending@[j as int]));
            assert(mid.token_spec(a@, token_id@, nonce) == old(self).token_spec(a@, token_id@, nonce));
            assert(0 <= rec.token_spec(token_id@, nonce) + token_delta(
                mid.pending@[j as int].token_deltas@,
                token_id@,
                nonce,
            ) <= u64::MAX);
        }
        let mut e = self.pending.remove(j);
        shift_token_delta(&mut e.token_deltas, token_id, nonce, d);
        proof {
            let old_e = mid.pending@[j as int];
            assert forall|id: Seq<u8>, n: u64|
                0 <= #[trigger] rec.token_spec(id, n) + token_delta(e.token_deltas@, id, n)
                    <= u64::MAX by {
                assert(0 <= rec.token_spec(id, n) + token_delta(old_e.token_deltas@, id, n)
                    <= u64::MAX);
            }
        }
        self.pending.insert(j, e);
        proof {
            assert(self.pending@ =~= mid.pending@.update(j as int, e));
            lemma_replace_entry(mid, *self, j as int, e);
            assert forall|b: Seq<u8>, id: Seq<u8>, n: u64|
                !(b == a@ && id == token_id@ && n == nonce) implies #[trigger] self.token_spec(b, id, n)
                    == old(self).token_spec(b, id, n) by {
                assert(mid.token_spec(b, id, n) == old(self).token_spec(b, id, n));
            }
            assert forall|b: Seq<u8>, k: Seq<u8>|
                #[trigger] self.storage_spec(b, k) == old(self).storage_spec(b, k) by {
                assert(mid.storage_spec(b, k) == old(self).storage_spec(b, k));
            }
            assert forall|b: Seq<u8>| #[trigger] self.balance_spec(b) == old(self).balance_spec(b) by {
                assert(mid.balance_spec(b) == old(self).balance_spec(b));
            }
            assert forall|b: Seq<u8>| #[trigger] self.nonce_increment_spec(b)
                == old(self).nonce_increment_spec(b) by {
                assert(mid.nonce_increment_spec(b) == old(self).nonce_increment_spec(b));
            }
        }
    }

    /// Records a pending write to the storage of a registered account.
    fn write_entry(&mut self, a: &Address, key: &Vec<u8>, value: &Vec<u8>)
        requires
            old(self).wf(),
            old(self).known(a@),
        ensures
            final(self).wf(),
            final(self).world == old(self).world,
            final(self).tx == old(self).tx,
            final(self).storage_spec(a@, key@) == value@,
            forall|b: Seq<u8>| #[trigger] final(self).balance_spec(b) == old(self).balance_spec(b),
            forall|b: Seq<u8>, id: Seq<u8>, n: u64|
                #[trigger] final(self).token_spec(b, id, n) == old(self).token_spec(b, id, n),
            forall|b: Seq<u8>, k: Seq<u8>|
                !(b == a@ && k == key@) ==> #[trigger] final(self).storage_spec(b, k)
                    == old(self).storage_spec(b, k),
            forall|b: Seq<u8>| #[trigger] final(self).nonce_increment_spec(b)
                == old(self).nonce_increment_spec(b),
            delta_sum(final(self).pending@) == delta_sum(old(self).pending@),
    {
        let j = self.entry_index(a);
        let ghost mid = *self;
        proof {
            lemma_update_at(mid.pending@, j as int);
            mid.lemma_wf();
            assert(update_wf(mid.pending@[j as int]));
            assert(pending_ok(record_of(mid.world@, a@), mid.pending@[j as int]));
        }
        let mut e = self.pending.remove(j);
        put_write(&mut e.storage_writes, key, value);
        self.pending.insert(j, e);
        proof {
            assert(self.pending@ =~= mid.pending@.update(j as int, e));
            lemma_replace_entry(mid, *self, j as int, e);
            assert forall|b: Seq<u8>, id: Seq<u8>, n: u64|
                #[trigger] self.token_spec(b, id, n) == old(self).token_spec(b, id, n) by {
                assert(mid.token_spec(b, id, n) == old(self).token_spec(b, id, n));
            }
            assert forall|b: Seq<u8>, k: Seq<u8>| !(b == a@ && k == key@) implies #[trigger] self.storage_spec(
                b,
                k,
            ) == old(self).storage_spec(b, k) by {
                assert(mid.storage_spec(b, k) == old(self).storage_spec(b, k));
            }
            assert forall|b: Seq<u8>| #[trigger] self.balance_spec(b) == old(self).balance_spec(b) by {
                assert(mid.balance_spec(b) == old(self).balance_spec(b));
            }
            assert forall|b: Seq<u8>| #[trigger] self.nonce_increment_spec(b)
                == old(self).nonce_increment_spec(b) by {
                assert(mid.nonce_increment_spec(b) == old(self).nonce_increment_spec(b));
            }
        }
    }
}


impl<'w> TxCache<'w> {
    /// Whether the address is registered in the world.
    pub fn is_known(&self, a: &Address) -> (r: bool)
        requires
            self.wf(),
        ensures
            r == self.known(a@),
    {
        self.world.get_account(a).is_some()
    }

    /// The native balance of an account: the world's plus what is pending.
    pub fn get_balance(&self, a: &Address) -> (r: Result<u64, LedgerError>)
        requires
            self.wf(),
        ensures
            match r {
                Ok(v) => self.known(a@) && v == self.balance_spec(a@),
                Err(e) => !self.known(a@) && e == LedgerError::UnknownAccount,
            },
    {
        proof {
            self.lemma_wf();
        }
        match self.world.get_account(a) {
            None => Err(LedgerError::UnknownAccount),
            Some(rec) => {
                let d: i128 = match crate::updates::find_update(&self.pending, a) {
                    Some(j) => {
                        proof {
                            lemma_update_at(self.pending@, j as int);
                        }
                        self.pending[j].native_delta
                    },
                    None => 0,
                };
                assert(self.balance_spec(a@) == rec.balance + d);
                Ok(add_to_balance(rec.balance, d))
            },
        }
    }

    /// The amount of a token instance held by an account, pending changes included.
    pub fn get_esdt_balance(&self, a: &Address, token_id: &Vec<u8>, nonce: u64) -> (r: Result<
        u64,
        LedgerError,
    >)
        requires
            self.wf(),
        ensures
            match r {
                Ok(v) => self.known(a@) && v == self.token_spec(a@, token_id@, nonce),
                Err(e) => !self.known(a@) && e == LedgerError::UnknownAccount,
            },
    {
        proof {
            self.lemma_wf();
        }
        match self.world.get_account(a) {
            None => Err(LedgerError::UnknownAccount),
            Some(rec) => {
                proof {
                    lemma_record_wf(self.world@, a@);
                }
                let held = rec.token_balance(token_id, nonce);
                let d: i128 = match crate::updates::find_update(&self.pending, a) {
                    Some(j) => {
                        proof {
                            lemma_update_at(self.pending@, j as int);
                        }
                        match crate::updates::find_delta(&self.pending[j].token_deltas, token_id, nonce) {
                            Some(i) => {
                                proof {
                                    assert(update_wf(self.pending@[j as int]));
                                    lemma_delta_at(self.pending@[j as int].token_deltas@, i as int);
                                }
                                self.pending[j].token_deltas[i].delta
                            },
                            None => 0,
                        }
                    },
                    None => 0,
                };
                assert(self.token_spec(a@, token_id@, nonce) == held + d);
                Ok(add_to_balance(held, d))
            },
        }
    }

    /// The value under a storage key: a pending write if there is one, else the world's.
    pub fn read_storage(&self, a: &Address, key: &Vec<u8>) -> (r: Result<Vec<u8>, LedgerError>)
        requires
            self.wf(),
        ensures
            match r {
                Ok(v) => self.known(a@) && v@ == self.storage_spec(a@, key@),
                Err(e) => !self.known(a@) && e == LedgerError::UnknownAccount,
            },
    {
        proof {
            self.lemma_wf();
        }
        match self.world.get_account(a) {
            None => Err(LedgerError::UnknownAccount),
            Some(rec) => {
                proof {
                    lemma_record_wf(self.world@, a@);
                }
                if let Some(j) = crate::updates::find_update(&self.pending, a) {
                    proof {
                        lemma_update_at(self.pending@, j as int);
                    }
                    if let Some(i) = crate::account::find_key(&self.pending[j].storage_writes, key) {
                        proof {
                            assert(update_wf(self.pending@[j as int]));
                            crate::account::lemma_storage_at(
                                self.pending@[j as int].storage_writes@,
                                i as int,
                            );
                        }
                        return Ok(crate::address::copy_bytes(&self.pending[j].storage_writes[i].value));
                    }
                }
                Ok(rec.storage_get(key))
            },
        }
    }
}

/// `v + d`, known to be a valid balance.
fn add_to_balance(v: u64, d: i128) -> (r: u64)
    requires
        0 <= v + d <= u64::MAX,
    ensures
        r == v + d,
{
    (v as i128 + d) as u64
}


impl<'w> TxCache<'w> {
    /// Takes `amount` from the native balance of an account. Fails with
    /// `UnknownAccount` for an unregistered address and with `InsufficientFunds`
    /// when the balance is smaller than `amount`; nothing is recorded then.
    pub fn subtract_native_balance(&mut self, a: &Address, amount: u64) -> (r: Result<(), LedgerError>)
        requires
            old(self).wf(),
        ensures
            final(self).wf(),
            final(self).world_spec() == old(self).world_spec(),
            final(self).tx_spec() == old(self).tx_spec(),
            !old(self).known(a@) ==> r == Err::<(), LedgerError>(LedgerError::UnknownAccount),
            old(self).known(a@) && old(self).balance_spec(a@) < amount ==> r == Err::<(), LedgerError>(
                LedgerError::InsufficientFunds,
            ),
            old(self).known(a@) && old(self).balance_spec(a@) >= amount ==> r.is_ok(),
            r.is_err() ==> *final(self) == *old(self),
            r.is_ok() ==> final(self).balance_spec(a@) == old(self).balance_spec(a@) - amount
                && final(self).same_except_balance(old(self), a@) && delta_sum(final(self).pending())
                == delta_sum(old(self).pending()) - amount,
    {
        let held = match self.get_balance(a) {
            Ok(v) => v,
            Err(e) => {
                return Err(e);
            },
        };
        if held < amount {
            return Err(LedgerError::InsufficientFunds);
        }
        self.shift_native(a, -(amount as i128));
        Ok(())
    }

    /// Adds `amount` to the native balance of an account. Fails with
    /// `UnknownAccount` for an unregistered address and with `BalanceOverflow`
    /// when the sum exceeds the largest balance; nothing is recorded then.
    pub fn add_native_balance(&mut self, a: &Address, amount: u64) -> (r: Result<(), LedgerError>)
        requires
            old(self).wf(),
        ensures
            final(self).wf(),
            final(self).world_spec() == old(self).world_spec(),
            final(self).tx_spec() == old(self).tx_spec(),
            !old(self).known(a@) ==> r == Err::<(), LedgerError>(LedgerError::UnknownAccount),
            old(self).known(a@) && old(self).balance_spec(a@) + amount > u64::MAX ==> r == Err::<
                (),
                LedgerError,
            >(LedgerError::BalanceOverflow),
            old(self).known(a@) && old(self).balance_spec(a@) + amount <= u64::MAX ==> r.is_ok(),
            r.is_err() ==> *final(self) == *old(self),
            r.is_ok() ==> final(self).balance_spec(a@) == old(self).balance_spec(a@) + amount
                && final(self).same_except_balance(old(self), a@) && delta_sum(final(self).pending())
                == delta_sum(old(self).pending()) + amount,
    {
        let held = match self.get_balance(a) {
            Ok(v) => v,
            Err(e) => {
                return Err(e);
            },
        };
        if held > u64::MAX - amount {
            return Err(LedgerError::BalanceOverflow);
        }
        self.shift_native(a, amount as i128);
        Ok(())
    }

    /// Moves `amount` of native balance from one account to another, both
    /// sides or neither. Fails with `UnknownAccount`, `InsufficientFunds` or
    /// `BalanceOverflow` (checked in that order), recording nothing.
    pub fn transfer_native_balance(&mut self, from: &Address, to: &Address, amount: u64) -> (r:
        Result<(), LedgerError>)
        requires
            old(self).wf(),
        ensures
            final(self).wf(),
            final(self).world_spec() == old(self).world_spec(),
            final(self).tx_spec() == old(self).tx_spec(),
            !old(self).known(from@) || !old(self).known(to@) ==> r == Err::<(), LedgerError>(
                LedgerError::UnknownAccount,
            ),
            old(self).known(from@) && old(self).known(to@) && old(self).balance_spec(from@) < amount
                ==> r == Err::<(), LedgerError>(LedgerError::InsufficientFunds),
            old(self).known(from@) && old(self).known(to@) && old(self).balance_spec(from@) >= amount
                && from@ != to@ && old(self).balance_spec(to@) + amount > u64::MAX ==> r == Err::<
                (),
                LedgerError,
            >(LedgerError::BalanceOverflow),
            old(self).known(from@) && old(self).known(to@) && old(self).balance_spec(from@) >= amount
                && (from@ == to@ || old(self).balance_spec(to@) + amount <= u64::MAX) ==> r.is_ok(),
            r.is_err() ==> *final(self) == *old(self),
            r.is_ok() ==> delta_sum(final(self).pending()) == delta_sum(old(self).pending()),
            r.is_ok() && from@ == to@ ==> final(self).same_reads(old(self)),
            r.is_ok() && from@ != to@ ==> {
                &&& final(self).balance_spec(from@) == old(self).balance_spec(from@) - amount
                &&& final(self).balance_spec(to@) == old(self).balance_spec(to@) + amount
                &&& forall|b: Seq<u8>|
                    b != from@ && b != to@ ==> #[trigger] final(self).balance_spec(b)
                        == old(self).balance_spec(b)
                &&& forall|b: Seq<u8>, id: Seq<u8>, n: u64|
                    #[trigger] final(self).token_spec(b, id, n) == old(self).token_spec(b, id, n)
                &&& forall|b: Seq<u8>, k: Seq<u8>|
                    #[trigger] final(self).storage_spec(b, k) == old(self).storage_spec(b, k)
            },
    {
        let held_from = match self.get_balance(from) {
            Ok(v) => v,
            Err(e) => {
                return Err(e);
            },
        };
        let held_to = match self.get_balance(to) {
            Ok(v) => v,
            Err(e) => {
                return Err(e);
            },
        };
        if held_from < amount {
            return Err(LedgerError::InsufficientFunds);
        }
        let same = from.equals(to);
        if !same && held_to > u64::MAX - amount {
            return Err(LedgerError::BalanceOverflow);
        }
        let ghost start = *self;
        self.shift_native(from, -(amount as i128));
        let ghost mid = *self;
        proof {
            if same {
                assert(mid.balance_spec(to@) == start.balance_spec(to@) - amount);
            } else {
                assert(mid.balance_spec(to@) == start.balance_spec(to@));
            }
        }
        self.shift_native(to, amount as i128);
        proof {
            if same {
                assert forall|b: Seq<u8>| #[trigger] self.balance_spec(b) == start.balance_spec(b) by {
                    if b != from@ {
                        assert(mid.balance_spec(b) == start.balance_spec(b));
                    }
                }
            } else {
                assert(self.balance_spec(from@) == mid.balance_spec(from@));
                assert forall|b: Seq<u8>| b != from@ && b != to@ implies #[trigger] self.balance_spec(b)
                    == start.balance_spec(b) by {
                    assert(mid.balance_spec(b) == start.balance_spec(b));
                }
            }
            assert forall|b: Seq<u8>, id: Seq<u8>, n: u64|
                #[trigger] self.token_spec(b, id, n) == start.token_spec(b, id, n) by {
                assert(mid.token_spec(b, id, n) == start.token_spec(b, id, n));
            }
            assert forall|b: Seq<u8>, k: Seq<u8>|
                #[trigger] self.storage_spec(b, k) == start.storage_spec(b, k) by {
                assert(mid.storage_spec(b, k) == start.storage_spec(b, k));
            }
            assert forall|b: Seq<u8>| #[trigger] self.nonce_increment_spec(b)
                == start.nonce_increment_spec(b) by {
                assert(mid.nonce_increment_spec(b) == start.nonce_increment_spec(b));
            }
        }
        Ok(())
    }

    /// Records a write of `value` under `key` in the storage of an account,
    /// shadowing the world's value. Fails with `UnknownAccount` for an
    /// unregistered address, recording nothing.
    pub fn write_storage(&mut self, a: &Address, key: &Vec<u8>, value: &Vec<u8>) -> (r: Result<
        (),
        LedgerError,
    >)
        requires
            old(self).wf(),
        ensures
            final(self).wf(),
            final(self).world_spec() == old(self).world_spec(),
            final(self).tx_spec() == old(self).tx_spec(),
            r.is_ok() == old(self).known(a@),
            r.is_err() ==> r == Err::<(), LedgerError>(LedgerError::UnknownAccount) && *final(self)
                == *old(self),
            r.is_ok() ==> {
                &&& final(self).storage_spec(a@, key@) == value@
                &&& forall|b: Seq<u8>, k: Seq<u8>|
                    !(b == a@ && k == key@) ==> #[trigger] final(self).storage_spec(b, k)
                        == old(self).storage_spec(b, k)
                &&& forall|b: Seq<u8>| #[trigger] final(self).balance_spec(b) == old(self).balance_spec(b)
                &&& forall|b: Seq<u8>, id: Seq<u8>, n: u64|
                    #[trigger] final(self).token_spec(b, id, n) == old(self).token_spec(b, id, n)
                &&& forall|b: Seq<u8>| #[trigger] final(self).nonce_increment_spec(b)
                    == old(self).nonce_increment_spec(b)
                &&& delta_sum(final(self).pending()) == delta_sum(old(self).pending())
            },
    {
        if !self.is_known(a) {
            return Err(LedgerError::UnknownAccount);
        }
        self.write_entry(a, key, value);
        Ok(())
    }

    /// Ends the transaction: its recorded changes, ready to be applied to the world.
    pub fn into_blockchain_updates(self) -> (r: BlockchainUpdates)
        requires
            self.wf(),
        ensures
            r.wf(),
            r@ == self.pending(),
            applicable(self.world_spec()@, r@),
    {
        proof {
            self.lemma_wf();
            let ps = self.pending@;
            assert forall|i: int| 0 <= i < ps.len() implies has_account(
                self.world@,
                #[trigger] ps[i].address@,
            ) && update_valid(record_of(self.world@, ps[i].address@), ps[i]) by {
                let rec = record_of(self.world@, ps[i].address@);
                assert(pending_ok(rec, ps[i]));
                assert(update_wf(ps[i]));
                assert forall|t: int| 0 <= t < ps[i].token_deltas@.len() implies 0 <= rec.token_spec(
                    #[trigger] ps[i].token_deltas@[t].token_id@,
                    ps[i].token_deltas@[t].nonce,
                ) + ps[i].token_deltas@[t].delta <= u64::MAX by {
                    lemma_delta_at(ps[i].token_deltas@, t);
                    let dt = ps[i].token_deltas@[t];
                    assert(0 <= rec.token_spec(dt.token_id@, dt.nonce) + token_delta(
                        ps[i].token_deltas@,
                        dt.token_id@,
                        dt.nonce,
                    ) <= u64::MAX);
                }
            }
        }
        BlockchainUpdates::from_entries(self.pending)
    }
}


impl<'w> TxCache<'w> {
    /// Takes `amount` of a token instance from an account. Fails with
    /// `UnknownAccount` or `InsufficientFunds`, recording nothing.
    pub fn subtract_esdt_balance(&mut self, a: &Address, token_id: &Vec<u8>, nonce: u64, amount: u64) -> (r:
        Result<(), LedgerError>)
        requires
            old(self).wf(),
        ensures
            final(self).wf(),
            final(self).world_spec() == old(self).world_spec(),
            final(self).tx_spec() == old(self).tx_spec(),
            !old(self).known(a@) ==> r == Err::<(), LedgerError>(LedgerError::UnknownAccount),
            old(self).known(a@) && old(self).token_spec(a@, token_id@, nonce) < amount ==> r == Err::<
                (),
                LedgerError,
            >(LedgerError::InsufficientFunds),
            old(self).known(a@) && old(self).token_spec(a@, token_id@, nonce) >= amount ==> r.is_ok(),
            r.is_err() ==> *final(self) == *old(self),
            r.is_ok() ==> final(self).token_spec(a@, token_id@, nonce) == old(self).token_spec(
                a@,
                token_id@,
                nonce,
            ) - amount && final(self).same_except_token(old(self), a@, token_id@, nonce),
    {
        let held = match self.get_esdt_balance(a, token_id, nonce) {
            Ok(v) => v,
            Err(e) => {
                return Err(e);
            },
        };
        if held < amount {
            return Err(LedgerError::InsufficientFunds);
        }
        self.shift_token(a, token_id, nonce, -(amount as i128));
        Ok(())
    }

    /// Adds `amount` of a token instance to an account. Fails with
    /// `UnknownAccount` or `BalanceOverflow`, recording nothing.
    pub fn add_esdt_balance(&mut self, a: &Address, token_id: &Vec<u8>, nonce: u64, amount: u64) -> (r:
        Result<(), LedgerError>)
        requires
            old(self).wf(),
        ensures
            final(self).wf(),
            final(self).world_spec() == old(self).world_spec(),
            final(self).tx_spec() == old(self).tx_spec(),
            !old(self).known(a@) ==> r == Err::<(), LedgerError>(LedgerError::UnknownAccount),
            old(self).known(a@) && old(self).token_spec(a@, token_id@, nonce) + amount > u64::MAX ==> r
                == Err::<(), LedgerError>(LedgerError::BalanceOverflow),
            old(self).known(a@) && old(self).token_spec(a@, token_id@, nonce) + amount <= u64::MAX
                ==> r.is_ok(),
            r.is_err() ==> *final(self) == *old(self),
            r.is_ok() ==> final(self).token_spec(a@, token_id@, nonce) == old(self).token_spec(
                a@,
                token_id@,
                nonce,
            ) + amount && final(self).same_except_token(old(self), a@, token_id@, nonce),
    {
        let held = match self.get_esdt_balance(a, token_id, nonce) {
            Ok(v) => v,
            Err(e) => {
                return Err(e);
            },
        };
        if held > u64::MAX - amount {
            return Err(LedgerError::BalanceOverflow);
        }
        self.shift_token(a, token_id, nonce, amount as i128);
        Ok(())
    }

    /// Moves `amount` of a token instance from one account to another, both
    /// sides or neither. Fails with `UnknownAccount`, `InsufficientFunds` or
    /// `BalanceOverflow` (checked in that order), recording nothing.
    pub fn transfer_token_balance(
        &mut self,
        from: &Address,
        to: &Address,
        token_id: &Vec<u8>,
        nonce: u64,
        amount: u64,
    ) -> (r: Result<(), LedgerError>)
        requires
            old(self).wf(),
        ensures
            final(self).wf(),
            final(self).world_spec() == old(self).world_spec(),
            final(self).tx_spec() == old(self).tx_spec(),
            !old(self).known(from@) || !old(self).known(to@) ==> r == Err::<(), LedgerError>(
                LedgerError::UnknownAccount,
            ),
            old(self).known(from@) && old(self).known(to@) && old(self).token_spec(
                from@,
                token_id@,
                nonce,
            ) < amount ==> r == Err::<(), LedgerError>(LedgerError::InsufficientFunds),
            old(self).known(from@) && old(self).known(to@) && old(self).token_spec(
                from@,
                token_id@,
                nonce,
            ) >= amount && from@ != to@ && old(self).token_spec(to@, token_id@, nonce) + amount
                > u64::MAX ==> r == Err::<(), LedgerError>(LedgerError::BalanceOverflow),
            old(self).known(from@) && old(self).known(to@) && old(self).token_spec(
                from@,
                token_id@,
                nonce,
            ) >= amount && (from@ == to@ || old(self).token_spec(to@, token_id@, nonce) + amount
                <= u64::MAX) ==> r.is_ok(),
            r.is_err() ==> *final(self) == *old(self),
            r.is_ok() && from@ == to@ ==> final(self).same_reads(old(self)),
            r.is_ok() && from@ != to@ ==> {
                &&& final(self).token_spec(from@, token_id@, nonce) == old(self).token_spec(
                    from@,
                    token_id@,
                    nonce,
                ) - amount
                &&& final(self).token_spec(to@, token_id@, nonce) == old(self).token_spec(
                    to@,
                    token_id@,
                    nonce,
                ) + amount
                &&& forall|b: Seq<u8>, id: Seq<u8>, n: u64|
                    !((b == from@ || b == to@) && id == token_id@ && n == nonce)
                        ==> #[trigger] final(self).token_spec(b, id, n) == old(self).token_spec(b, id, n)
                &&& forall|b: Seq<u8>| #[trigger] final(self).balance_spec(b) == old(self).balance_spec(b)
                &&& forall|b: Seq<u8>, k: Seq<u8>|
                    #[trigger] final(self).storage_spec(b, k) == old(self).storage_spec(b, k)
            },
    {
        let held_from = match self.get_esdt_balance(from, token_id, nonce) {
            Ok(v) => v,
            Err(e) => {
                return Err(e);
            },
        };
        let held_to = match self.get_esdt_balance(to, token_id, nonce) {
            Ok(v) => v,
            Err(e) => {
                return Err(e);
            },
        };
        if held_from < amount {
            return Err(LedgerError::InsufficientFunds);
        }
        let same = from.equals(to);
        if !same && held_to > u64::MAX - amount {
            return Err(LedgerError::BalanceOverflow);
        }
        let ghost start = *self;
        self.shift_token(from, token_id, nonce, -(amount as i128));
        let ghost mid = *self;
        proof {
            if same {
                assert(mid.token_spec(to@, token_id@, nonce) == start.token_spec(to@, token_id@, nonce)
                    - amount);
            } else {
                assert(mid.token_spec(to@, token_id@, nonce) == start.token_spec(to@, token_id@, nonce));
            }
        }
        self.shift_token(to, token_id, nonce, amount as i128);
        proof {
            if same {
                assert forall|b: Seq<u8>, id: Seq<u8>, n: u64|
                    #[trigger] self.token_spec(b, id, n) == start.token_spec(b, id, n) by {
                    if !(b == from@ && id == token_id@ && n == nonce) {
                        assert(mid.token_spec(b, id, n) == start.token_spec(b, id, n));
                    }
                }
            } else {
                assert(self.token_spec(from@, token_id@, nonce) == mid.token_spec(from@, token_id@, nonce));
                assert forall|b: Seq<u8>, id: Seq<u8>, n: u64|
                    !((b == from@ || b == to@) && id == token_id@ && n == nonce) implies #[trigger] self.token_spec(
                        b,
                        id,
                        n,
                    ) == start.token_spec(b, id, n) by {
                    assert(mid.token_spec(b, id, n) == start.token_spec(b, id, n));
                }
            }
            assert forall|b: Seq<u8>| #[trigger] self.balance_spec(b) == start.balance_spec(b) by {
                assert(mid.balance_spec(b) == start.balance_spec(b));
            }
            assert forall|b: Seq<u8>, k: Seq<u8>|
                #[trigger] self.storage_spec(b, k) == start.storage_spec(b, k) by {
                assert(mid.storage_spec(b, k) == start.storage_spec(b, k));
            }
            assert forall|b: Seq<u8>| #[trigger] self.nonce_increment_spec(b)
                == start.nonce_increment_spec(b) by {
                assert(mid.nonce_increment_spec(b) == start.nonce_increment_spec(b));
            }
        }
        Ok(())
    }
}


impl<'w> TxCache<'w> {
    /// Counts the transaction against its sender: the sender's nonce goes up by
    /// one when the updates are applied, however often this is called. Fails
    /// with `UnknownAccount` for an unregistered sender and with
    /// `InvariantViolation` when the sender's nonce is already the largest one.
    pub fn increment_sender_nonce(&mut self) -> (r: Result<(), LedgerError>)
        requires
            old(self).wf(),
        ensures
            final(self).wf(),
            final(self).world_spec() == old(self).world_spec(),
            final(self).tx_spec() == old(self).tx_spec(),
            ({
                let s = old(self).tx_spec().from@;
                &&& !old(self).known(s) ==> r == Err::<(), LedgerError>(LedgerError::UnknownAccount)
                &&& old(self).known(s) && record_of(old(self).world_spec()@, s).nonce == u64::MAX
                    ==> r == Err::<(), LedgerError>(LedgerError::InvariantViolation)
                &&& old(self).known(s) && record_of(old(self).world_spec()@, s).nonce < u64::MAX
                    ==> r.is_ok()
                &&& r.is_ok() ==> final(self).nonce_increment_spec(s) == 1
                &&& forall|b: Seq<u8>|
                    b != s ==> #[trigger] final(self).nonce_increment_spec(b)
                        == old(self).nonce_increment_spec(b)
            }),
            r.is_err() ==> *final(self) == *old(self),
            forall|b: Seq<u8>| #[trigger] final(self).balance_spec(b) == old(self).balance_spec(b),
            forall|b: Seq<u8>, id: Seq<u8>, n: u64|
                #[trigger] final(self).token_spec(b, id, n) == old(self).token_spec(b, id, n),
            forall|b: Seq<u8>, k: Seq<u8>|
                #[trigger] final(self).storage_spec(b, k) == old(self).storage_spec(b, k),
            delta_sum(final(self).pending()) == delta_sum(old(self).pending()),
    {
        proof {
            self.lemma_wf();
        }
        let sender = self.tx.from;
        let nonce = match self.world.get_account(&sender) {
            Some(rec) => rec.nonce,
            None => {
                return Err(LedgerError::UnknownAccount);
            },
        };
        if nonce == u64::MAX {
            return Err(LedgerError::InvariantViolation);
        }
        let ghost start = *self;
        let j = self.entry_index(&sender);
        let ghost mid = *self;
        proof {
            lemma_update_at(mid.pending@, j as int);
            mid.lemma_wf();
            assert(update_wf(mid.pending@[j as int]));
            assert(pending_ok(record_of(mid.world@, sender@), mid.pending@[j as int]));
        }
        let mut e = self.pending.remove(j);
        e.nonce_increment = 1;
        self.pending.insert(j, e);
        proof {
            assert(self.pending@ =~= mid.pending@.update(j as int, e));
            lemma_replace_entry(mid, *self, j as int, e);
            assert forall|b: Seq<u8>, id: Seq<u8>, n: u64|
                #[trigger] self.token_spec(b, id, n) == start.token_spec(b, id, n) by {
                assert(mid.token_spec(b, id, n) == start.token_spec(b, id, n));
            }
            assert forall|b: Seq<u8>, k: Seq<u8>|
                #[trigger] self.storage_spec(b, k) == start.storage_spec(b, k) by {
                assert(mid.storage_spec(b, k) == start.storage_spec(b, k));
            }
            assert forall|b: Seq<u8>| #[trigger] self.balance_spec(b) == start.balance_spec(b) by {
                assert(mid.balance_spec(b) == start.balance_spec(b));
            }
            lemma_updates_replace(mid.pending@, j as int, e);
            assert forall|b: Seq<u8>| b != sender@ implies #[trigger] self.nonce_increment_spec(b)
                == start.nonce_increment_spec(b) by {
                assert(mid.nonce_increment_spec(b) == start.nonce_increment_spec(b));
            }
        }
        Ok(())
    }
}

} // verus!
