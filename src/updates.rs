use vstd::prelude::*;
use crate::address::{Address, bytes_equal};
use crate::account::{AccountRecord, StorageEntry, keys_unique, has_key, storage_value};

verus! {

/// The ways a ledger operation can fail.
#[derive(Clone, Copy, Debug, PartialEq, Eq, Structural)]
pub enum LedgerError {
    /// A subtraction asked for more than the balance holds.
    InsufficientFunds,
    /// The address is not registered in the world.
    UnknownAccount,
    /// Applying the updates would take a balance or a nonce out of range.
    InvariantViolation,
    /// An addition would exceed the largest balance that can be held.
    BalanceOverflow,
    /// The caller is not the owner of the contract.
    CallerNotOwner,
}

/// A pending change of the amount held of one token instance.
#[derive(Clone, Debug)]
pub struct TokenDelta {
    pub token_id: Vec<u8>,
    pub nonce: u64,
    pub delta: i128,
}

/// The net effect of a transaction on one account.
#[derive(Clone, Debug)]
pub struct AccountUpdate {
    pub address: Address,
    pub native_delta: i128,
    pub token_deltas: Vec<TokenDelta>,
    pub storage_writes: Vec<StorageEntry>,
    pub nonce_increment: u64,
}

/// The net effect of one transaction, ready to be applied to a world.
/// Each account appears at most once.
#[derive(Debug)]
pub struct BlockchainUpdates {
    entries: Vec<AccountUpdate>,
}

pub open spec fn delta_matches(d: TokenDelta, id: Seq<u8>, nonce: u64) -> bool {
    d.token_id@ == id && d.nonce == nonce
}

pub open spec fn has_delta(ds: Seq<TokenDelta>, id: Seq<u8>, nonce: u64) -> bool {
    exists|i: int| 0 <= i < ds.len() && #[trigger] delta_matches(ds[i], id, nonce)
}

/// The pending change of one token instance; zero when none is recorded.
pub open spec fn token_delta(ds: Seq<TokenDelta>, id: Seq<u8>, nonce: u64) -> int {
    if has_delta(ds, id, nonce) {
        ds[choose|i: int| 0 <= i < ds.len() && #[trigger] delta_matches(ds[i], id, nonce)].delta
            as int
    } else {
        0
    }
}

pub open spec fn deltas_unique(ds: Seq<TokenDelta>) -> bool {
    forall|i: int, j: int|
        0 <= i < ds.len() && 0 <= j < ds.len() && #[trigger] ds[i].token_id@ == #[trigger] ds[j].token_id@
            && ds[i].nonce == ds[j].nonce ==> i == j
}

pub open spec fn update_matches(u: AccountUpdate, a: Seq<u8>) -> bool {
    u.address@ == a
}

pub open spec fn has_update(us: Seq<AccountUpdate>, a: Seq<u8>) -> bool {
    exists|i: int| 0 <= i < us.len() && #[trigger] update_matches(us[i], a)
}

pub open spec fn update_of(us: Seq<AccountUpdate>, a: Seq<u8>) -> AccountUpdate {
    us[choose|i: int| 0 <= i < us.len() && #[trigger] update_matches(us[i], a)]
}

pub open spec fn update_wf(u: AccountUpdate) -> bool {
    deltas_unique(u.token_deltas@) && keys_unique(u.storage_writes@)
}

/// Each account appears once, and each update lists every token instance and
/// storage key once.
pub open spec fn updates_wf(us: Seq<AccountUpdate>) -> bool {
    &&& forall|i: int, j: int|
        0 <= i < us.len() && 0 <= j < us.len() && #[trigger] us[i].address@ == #[trigger] us[j].address@
            ==> i == j
    &&& forall|i: int| 0 <= i < us.len() ==> #[trigger] update_wf(us[i])
}

/// The pending native-balance change of an account; zero when none is recorded.
pub open spec fn native_delta(us: Seq<AccountUpdate>, a: Seq<u8>) -> int {
    if has_update(us, a) {
        update_of(us, a).native_delta as int
    } else {
        0
    }
}

/// The pending change of one token instance of an account.
pub open spec fn pending_token_delta(us: Seq<AccountUpdate>, a: Seq<u8>, id: Seq<u8>, nonce: u64) -> int {
    if has_update(us, a) {
        token_delta(update_of(us, a).token_deltas@, id, nonce)
    } else {
        0
    }
}

/// Whether a storage write to the key of the account is pending.
pub open spec fn has_pending_write(us: Seq<AccountUpdate>, a: Seq<u8>, key: Seq<u8>) -> bool {
    has_update(us, a) && has_key(update_of(us, a).storage_writes@, key)
}

/// The sum of all native-balance changes.
pub open spec fn delta_sum(us: Seq<AccountUpdate>) -> int
    decreases us.len(),
{
    if us.len() == 0 {
        0
    } else {
        delta_sum(us.drop_last()) + us.last().native_delta
    }
}

/// The new record is the old one with one update applied.
pub open spec fn applied(old_rec: AccountRecord, u: AccountUpdate, new_rec: AccountRecord) -> bool {
    &&& new_rec.address == old_rec.address
    &&& new_rec.balance == old_rec.balance + u.native_delta
    &&& new_rec.nonce == old_rec.nonce + u.nonce_increment
    &&& new_rec.token_roles == old_rec.token_roles
    &&& new_rec.contract_code == old_rec.contract_code
    &&& new_rec.owner == old_rec.owner
    &&& forall|id: Seq<u8>, n: u64|
        #[trigger] new_rec.token_spec(id, n) == old_rec.token_spec(id, n) + token_delta(
            u.token_deltas@,
            id,
            n,
        )
    &&& forall|k: Seq<u8>|
        #[trigger] new_rec.storage_spec(k) == if has_key(u.storage_writes@, k) {
            storage_value(u.storage_writes@, k)
        } else {
            old_rec.storage_spec(k)
        }
}

/// Applying the update to the record keeps every balance and the nonce in range.
pub open spec fn update_valid(rec: AccountRecord, u: AccountUpdate) -> bool {
    &&& 0 <= rec.balance + u.native_delta <= u64::MAX
    &&& rec.nonce + u.nonce_increment <= u64::MAX
    &&& forall|i: int|
        0 <= i < u.token_deltas@.len() ==> 0 <= rec.token_spec(
            #[trigger] u.token_deltas@[i].token_id@,
            u.token_deltas@[i].nonce,
        ) + u.token_deltas@[i].delta <= u64::MAX
}

impl View for BlockchainUpdates {
    type V = Seq<AccountUpdate>;

    closed spec fn view(&self) -> Seq<AccountUpdate> {
        self.entries@
    }
}

impl BlockchainUpdates {
    pub closed spec fn wf(&self) -> bool {
        updates_wf(self.entries@)
    }

    pub(crate) fn from_entries(entries: Vec<AccountUpdate>) -> (r: BlockchainUpdates)
        requires
            updates_wf(entries@),
        ensures
            r@ == entries@,
            r.wf(),
    {
        BlockchainUpdates { entries }
    }

    /// The recorded account updates, in the order they were first touched.
    pub fn entries(&self) -> (r: &Vec<AccountUpdate>)
        ensures
            r@ == self@,
    {
        &self.entries
    }

    pub proof fn lemma_wf(&self)
        requires
            self.wf(),
        ensures
            updates_wf(self@),
    {
    }

    /// The update of one account, if any was recorded.
    pub fn find(&self, address: &Address) -> (r: Option<&AccountUpdate>)
        requires
            self.wf(),
        ensures
            match r {
                Some(u) => has_update(self@, address@) && *u == update_of(self@, address@),
                None => !has_update(self@, address@),
            },
    {
        match find_update(&self.entries, address) {
            Some(i) => {
                proof {
                    lemma_update_at(self.entries@, i as int);
                }
                Some(&self.entries[i])
            },
            None => None,
        }
    }
}

pub fn find_update(us: &Vec<AccountUpdate>, address: &Address) -> (r: Option<usize>)
    ensures
        match r {
            Some(i) => i < us@.len() && update_matches(us@[i as int], address@),
            None => !has_update(us@, address@),
        },
{
    let mut i: usize = 0;
    while i < us.len()
        invariant
            0 <= i <= us@.len(),
            forall|j: int| 0 <= j < i ==> !#[trigger] update_matches(us@[j], address@),
        decreases us@.len() - i,
    {
        if us[i].address.equals(address) {
            return Some(i);
        }
        i = i + 1;
    }
    None
}

pub fn find_delta(ds: &Vec<TokenDelta>, token_id: &Vec<u8>, nonce: u64) -> (r: Option<usize>)
    ensures
        match r {
            Some(i) => i < ds@.len() && delta_matches(ds@[i as int], token_id@, nonce),
            None => !has_delta(ds@, token_id@, nonce),
        },
{
    let mut i: usize = 0;
    while i < ds.len()
        invariant
            0 <= i <= ds@.len(),
            forall|j: int| 0 <= j < i ==> !#[trigger] delta_matches(ds@[j], token_id@, nonce),
        decreases ds@.len() - i,
    {
        if ds[i].nonce == nonce && bytes_equal(&ds[i].token_id, token_id) {
            return Some(i);
        }
        i = i + 1;
    }
    None
}

pub proof fn lemma_update_at(us: Seq<AccountUpdate>, i: int)
    requires
        updates_wf(us),
        0 <= i < us.len(),
    ensures
        has_update(us, us[i].address@),
        update_of(us, us[i].address@) == us[i],
{
    assert(update_matches(us[i], us[i].address@));
}

pub proof fn lemma_delta_at(ds: Seq<TokenDelta>, i: int)
    requires
        deltas_unique(ds),
        0 <= i < ds.len(),
    ensures
        token_delta(ds, ds[i].token_id@, ds[i].nonce) == ds[i].delta,
{
    assert(delta_matches(ds[i], ds[i].token_id@, ds[i].nonce));
}

pub proof fn lemma_delta_set(ds: Seq<TokenDelta>, i: int, e: TokenDelta)
    requires
        deltas_unique(ds),
        0 <= i < ds.len(),
        delta_matches(ds[i], e.token_id@, e.nonce),
    ensures
        deltas_unique(ds.update(i, e)),
        token_delta(ds.update(i, e), e.token_id@, e.nonce) == e.delta,
        forall|id: Seq<u8>, n: u64|
            !(id == e.token_id@ && n == e.nonce) ==> #[trigger] token_delta(ds.update(i, e), id, n)
                == token_delta(ds, id, n),
{
    let us = ds.update(i, e);
    assert(delta_matches(us[i], e.token_id@, e.nonce));
    assert forall|x: int, y: int|
        0 <= x < us.len() && 0 <= y < us.len() && #[trigger] us[x].token_id@ == #[trigger] us[y].token_id@
            && us[x].nonce == us[y].nonce implies x == y by {
        assert(ds[x].token_id@ == ds[i].token_id@ || x != i);
        if x == i {
            assert(ds[y].token_id@ == ds[i].token_id@ && ds[y].nonce == ds[i].nonce || y == i);
        } else if y == i {
            assert(ds[x].token_id@ == ds[i].token_id@ && ds[x].nonce == ds[i].nonce);
        } else {
            assert(ds[x] == us[x] && ds[y] == us[y]);
        }
    }
    assert(token_delta(us, e.token_id@, e.nonce) == e.delta) by {
        let k = choose|k: int| 0 <= k < us.len() && #[trigger] delta_matches(us[k], e.token_id@, e.nonce);
        assert(us[k].token_id@ == us[i].token_id@ && us[k].nonce == us[i].nonce);
    }
    assert forall|id: Seq<u8>, n: u64|
        !(id == e.token_id@ && n == e.nonce) implies #[trigger] token_delta(us, id, n)
            == token_delta(ds, id, n) by {
        if has_delta(ds, id, n) {
            let k = choose|k: int| 0 <= k < ds.len() && #[trigger] delta_matches(ds[k], id, n);
            assert(delta_matches(us[k], id, n));
        }
        if has_delta(us, id, n) {
            let k = choose|k: int| 0 <= k < us.len() && #[trigger] delta_matches(us[k], id, n);
            assert(delta_matches(ds[k], id, n));
        }
    }
}

pub proof fn lemma_delta_push(ds: Seq<TokenDelta>, e: TokenDelta)
    requires
        deltas_unique(ds),
        !has_delta(ds, e.token_id@, e.nonce),
    ensures
        deltas_unique(ds.push(e)),
        token_delta(ds.push(e), e.token_id@, e.nonce) == e.delta,
        forall|id: Seq<u8>, n: u64|
            !(id == e.token_id@ && n == e.nonce) ==> #[trigger] token_delta(ds.push(e), id, n)
                == token_delta(ds, id, n),
{
    let us = ds.push(e);
    assert forall|i: int, j: int|
        0 <= i < us.len() && 0 <= j < us.len() && #[trigger] us[i].token_id@ == #[trigger] us[j].token_id@
            && us[i].nonce == us[j].nonce implies i == j by {
        if i < ds.len() && j == ds.len() {
            assert(delta_matches(ds[i], e.token_id@, e.nonce));
        } else if j < ds.len() && i == ds.len() {
            assert(delta_matches(ds[j], e.token_id@, e.nonce));
        } else if i < ds.len() && j < ds.len() {
            assert(us[i] == ds[i] && us[j] == ds[j]);
            assert(ds[i].token_id@ == ds[j].token_id@ && ds[i].nonce == ds[j].nonce);
        }
    }
    assert(delta_matches(us[ds.len() as int], e.token_id@, e.nonce));
    assert forall|id: Seq<u8>, n: u64|
        !(id == e.token_id@ && n == e.nonce) implies #[trigger] token_delta(us, id, n)
            == token_delta(ds, id, n) by {
        if has_delta(ds, id, n) {
            let k = choose|k: int| 0 <= k < ds.len() && #[trigger] delta_matches(ds[k], id, n);
            assert(delta_matches(us[k], id, n));
        }
        if has_delta(us, id, n) {
            let k = choose|k: int| 0 <= k < us.len() && #[trigger] delta_matches(us[k], id, n);
            assert(delta_matches(ds[k], id, n));
        }
    }
}

} // verus!

verus! {

/// Replacing the update of an account by another one for the same account.
pub proof fn lemma_updates_replace(us: Seq<AccountUpdate>, j: int, e: AccountUpdate)
    requires
        updates_wf(us),
        0 <= j < us.len(),
        e.address@ == us[j].address@,
        update_wf(e),
    ensures
        updates_wf(us.update(j, e)),
        has_update(us.update(j, e), e.address@),
        update_of(us.update(j, e), e.address@) == e,
        forall|a: Seq<u8>| #[trigger] has_update(us.update(j, e), a) == has_update(us, a),
        forall|a: Seq<u8>|
            a != e.address@ && has_update(us, a) ==> #[trigger] update_of(us.update(j, e), a)
                == update_of(us, a),
        delta_sum(us.update(j, e)) == delta_sum(us) - us[j].native_delta + e.native_delta,
    decreases us.len(),
{
    let vs = us.update(j, e);
    assert forall|x: int, y: int|
        0 <= x < vs.len() && 0 <= y < vs.len() && #[trigger] vs[x].address@ == #[trigger] vs[y].address@
            implies x == y by {
        assert(us[x].address@ == vs[x].address@);
        assert(us[y].address@ == vs[y].address@);
    }
    assert forall|x: int| 0 <= x < vs.len() implies #[trigger] update_wf(vs[x]) by {
        if x != j {
            assert(vs[x] == us[x]);
        }
    }
    lemma_update_at(vs, j);
    assert forall|a: Seq<u8>| #[trigger] has_update(vs, a) == has_update(us, a) by {
        if has_update(us, a) {
            let k = choose|k: int| 0 <= k < us.len() && #[trigger] update_matches(us[k], a);
            assert(update_matches(vs[k], a));
        }
        if has_update(vs, a) {
            let k = choose|k: int| 0 <= k < vs.len() && #[trigger] update_matches(vs[k], a);
            assert(update_matches(us[k], a));
        }
    }
    assert forall|a: Seq<u8>| a != e.address@ && has_update(us, a) implies #[trigger] update_of(
        vs,
        a,
    ) == update_of(us, a) by {
        if has_update(us, a) {
            let k = choose|k: int| 0 <= k < us.len() && #[trigger] update_matches(us[k], a);
            lemma_update_at(us, k);
            assert(update_matches(vs[k], a));
            lemma_update_at(vs, k);
        }
    }
    lemma_delta_sum_replace(us, j, e);
}

pub proof fn lemma_delta_sum_replace(us: Seq<AccountUpdate>, j: int, e: AccountUpdate)
    requires
        0 <= j < us.len(),
    ensures
        delta_sum(us.update(j, e)) == delta_sum(us) - us[j].native_delta + e.native_delta,
    decreases us.len(),
{
    let vs = us.update(j, e);
    if j == us.len() - 1 {
        assert(vs.drop_last() =~= us.drop_last());
    } else {
        lemma_delta_sum_replace(us.drop_last(), j, e);
        assert(vs.drop_last() =~= us.drop_last().update(j, e));
    }
}

/// Adding the update of an account that had none.
pub proof fn lemma_updates_push(us: Seq<AccountUpdate>, e: AccountUpdate)
    requires
        updates_wf(us),
        !has_update(us, e.address@),
        update_wf(e),
    ensures
        updates_wf(us.push(e)),
        has_update(us.push(e), e.address@),
        update_of(us.push(e), e.address@) == e,
        forall|a: Seq<u8>|
            a != e.address@ ==> #[trigger] has_update(us.push(e), a) == has_update(us, a),
        forall|a: Seq<u8>|
            a != e.address@ && has_update(us, a) ==> #[trigger] update_of(us.push(e), a)
                == update_of(us, a),
        delta_sum(us.push(e)) == delta_sum(us) + e.native_delta,
{
    let vs = us.push(e);
    assert forall|x: int, y: int|
        0 <= x < vs.len() && 0 <= y < vs.len() && #[trigger] vs[x].address@ == #[trigger] vs[y].address@
            implies x == y by {
        if x < us.len() && y == us.len() {
            assert(update_matches(us[x], e.address@));
        }
        if y < us.len() && x == us.len() {
            assert(update_matches(us[y], e.address@));
        }
    }
    assert forall|x: int| 0 <= x < vs.len() implies #[trigger] update_wf(vs[x]) by {
        if x < us.len() {
            assert(vs[x] == us[x]);
        }
    }
    lemma_update_at(vs, us.len() as int);
    assert forall|a: Seq<u8>| a != e.address@ implies #[trigger] has_update(vs, a) == has_update(
        us,
        a,
    ) && (has_update(us, a) ==> update_of(vs, a) == update_of(us, a)) by {
        if has_update(us, a) {
            let k = choose|k: int| 0 <= k < us.len() && #[trigger] update_matches(us[k], a);
            lemma_update_at(us, k);
            assert(update_matches(vs[k], a));
            lemma_update_at(vs, k);
        }
        if has_update(vs, a) {
            let k = choose|k: int| 0 <= k < vs.len() && #[trigger] update_matches(vs[k], a);
            assert(update_matches(us[k], a));
        }
    }
    assert(vs.drop_last() =~= us);
}

/// Adds `d` to the pending change of one token instance.
pub fn shift_token_delta(ds: &mut Vec<TokenDelta>, token_id: &Vec<u8>, nonce: u64, d: i128)
    requires
        deltas_unique(old(ds)@),
        i128::MIN <= token_delta(old(ds)@, token_id@, nonce) + d <= i128::MAX,
    ensures
        deltas_unique(final(ds)@),
        token_delta(final(ds)@, token_id@, nonce) == token_delta(old(ds)@, token_id@, nonce) + d,
        forall|id: Seq<u8>, n: u64|
            !(id == token_id@ && n == nonce) ==> #[trigger] token_delta(final(ds)@, id, n)
                == token_delta(old(ds)@, id, n),
{
    match find_delta(ds, token_id, nonce) {
        Some(i) => {
            proof {
                lemma_delta_at(ds@, i as int);
            }
            let e = TokenDelta {
                token_id: crate::address::copy_bytes(token_id),
                nonce,
                delta: ds[i].delta + d,
            };
            proof {
                lemma_delta_set(ds@, i as int, e);
            }
            ds.set(i, e);
        },
        None => {
            let e = TokenDelta { token_id: crate::address::copy_bytes(token_id), nonce, delta: d };
            proof {
                lemma_delta_push(ds@, e);
            }
            ds.push(e);
        },
    }
}

/// Records a pending write of a value under a storage key.
pub fn put_write(ws: &mut Vec<StorageEntry>, key: &Vec<u8>, value: &Vec<u8>)
    requires
        keys_unique(old(ws)@),
    ensures
        keys_unique(final(ws)@),
        has_key(final(ws)@, key@),
        storage_value(final(ws)@, key@) == value@,
        forall|k: Seq<u8>|
            k != key@ ==> #[trigger] storage_value(final(ws)@, k) == storage_value(old(ws)@, k)
                && has_key(final(ws)@, k) == has_key(old(ws)@, k),
{
    let e = StorageEntry {
        key: crate::address::copy_bytes(key),
        value: crate::address::copy_bytes(value),
    };
    match crate::account::find_key(ws, key) {
        Some(i) => {
            let ghost prev = ws@;
            proof {
                crate::account::lemma_storage_set(ws@, i as int, e);
            }
            ws.set(i, e);
            assert(ws@ == prev.update(i as int, e));
            assert forall|k: Seq<u8>| k != key@ implies #[trigger] storage_value(ws@, k)
                == storage_value(prev, k) && has_key(ws@, k) == has_key(prev, k) by {
                assert(k != e.key@);
            }
        },
        None => {
            proof {
                crate::account::lemma_storage_push(ws@, e);
            }
            ws.push(e);
        },
    }
}

} // verus!
