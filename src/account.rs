use vstd::prelude::*;
use crate::address::{Address, bytes_equal};

verus! {

/// The amount an account holds of one token instance.
#[derive(Clone, Debug)]
pub struct TokenBalance {
    pub token_id: Vec<u8>,
    pub nonce: u64,
    pub amount: u64,
}

/// One key/value pair of an account's storage.
#[derive(Clone, Debug)]
pub struct StorageEntry {
    pub key: Vec<u8>,
    pub value: Vec<u8>,
}

/// What the protocol records of one token for an account: the local roles
/// granted to it (one bit per role) and the nonce of the last instance it
/// created.
#[derive(Clone, Debug)]
pub struct TokenRoles {
    pub token_id: Vec<u8>,
    pub roles: u64,
    pub last_nonce: u64,
}

/// The state of one participant of the ledger.
#[derive(Clone, Debug)]
pub struct AccountRecord {
    pub address: Address,
    pub nonce: u64,
    pub balance: u64,
    pub tokens: Vec<TokenBalance>,
    pub storage: Vec<StorageEntry>,
    pub token_roles: Vec<TokenRoles>,
    pub contract_code: Option<Vec<u8>>,
    pub owner: Option<Address>,
}

pub open spec fn token_matches(t: TokenBalance, id: Seq<u8>, nonce: u64) -> bool {
    t.token_id@ == id && t.nonce == nonce
}

pub open spec fn has_token(ts: Seq<TokenBalance>, id: Seq<u8>, nonce: u64) -> bool {
    exists|i: int| 0 <= i < ts.len() && #[trigger] token_matches(ts[i], id, nonce)
}

/// What a token list holds of one token instance; zero when it is absent.
pub open spec fn token_amount(ts: Seq<TokenBalance>, id: Seq<u8>, nonce: u64) -> nat {
    if has_token(ts, id, nonce) {
        ts[choose|i: int| 0 <= i < ts.len() && #[trigger] token_matches(ts[i], id, nonce)].amount
            as nat
    } else {
        0
    }
}

/// No token instance appears twice.
pub open spec fn tokens_unique(ts: Seq<TokenBalance>) -> bool {
    forall|i: int, j: int|
        0 <= i < ts.len() && 0 <= j < ts.len() && #[trigger] ts[i].token_id@ == #[trigger] ts[j].token_id@
            && ts[i].nonce == ts[j].nonce ==> i == j
}

pub open spec fn key_matches(e: StorageEntry, key: Seq<u8>) -> bool {
    e.key@ == key
}

pub open spec fn has_key(st: Seq<StorageEntry>, key: Seq<u8>) -> bool {
    exists|i: int| 0 <= i < st.len() && #[trigger] key_matches(st[i], key)
}

/// The value stored under a key; the empty value when the key is absent.
pub open spec fn storage_value(st: Seq<StorageEntry>, key: Seq<u8>) -> Seq<u8> {
    if has_key(st, key) {
        st[choose|i: int| 0 <= i < st.len() && #[trigger] key_matches(st[i], key)].value@
    } else {
        Seq::empty()
    }
}

/// No storage key appears twice.
pub open spec fn keys_unique(st: Seq<StorageEntry>) -> bool {
    forall|i: int, j: int|
        0 <= i < st.len() && 0 <= j < st.len() && #[trigger] st[i].key@ == #[trigger] st[j].key@
            ==> i == j
}

impl AccountRecord {
    /// A fresh account with the given native balance and nothing else.
    pub fn new(address: Address, balance: u64) -> (r: AccountRecord)
        ensures
            r.address@ == address@,
            r.balance == balance,
            r.nonce == 0,
            r.tokens@.len() == 0,
            r.storage@.len() == 0,
            r.token_roles@.len() == 0,
            r.contract_code.is_none(),
            r.owner.is_none(),
            r.wf(),
    {
        AccountRecord {
            address,
            nonce: 0,
            balance,
            tokens: Vec::new(),
            storage: Vec::new(),
            token_roles: Vec::new(),
            contract_code: None,
            owner: None,
        }
    }

    /// Token instances and storage keys are each listed once.
    pub open spec fn wf(&self) -> bool {
        tokens_unique(self.tokens@) && keys_unique(self.storage@)
    }

    pub open spec fn token_spec(&self, id: Seq<u8>, nonce: u64) -> nat {
        token_amount(self.tokens@, id, nonce)
    }

    pub open spec fn storage_spec(&self, key: Seq<u8>) -> Seq<u8> {
        storage_value(self.storage@, key)
    }

    /// Sets the held amount of a token instance, adding the instance if it is new.
    pub fn set_token_balance(&mut self, token_id: &Vec<u8>, nonce: u64, amount: u64)
        requires
            old(self).wf(),
        ensures
            final(self).wf(),
            final(self).address == old(self).address,
            final(self).nonce == old(self).nonce,
            final(self).balance == old(self).balance,
            final(self).storage == old(self).storage,
            final(self).token_roles == old(self).token_roles,
            final(self).contract_code == old(self).contract_code,
            final(self).owner == old(self).owner,
            final(self).token_spec(token_id@, nonce) == amount,
            forall|id: Seq<u8>, n: u64|
                !(id == token_id@ && n == nonce) ==> #[trigger] final(self).token_spec(id, n)
                    == old(self).token_spec(id, n),
    {
        let found = find_token(&self.tokens, token_id, nonce);
        let entry = TokenBalance { token_id: crate::address::copy_bytes(token_id), nonce, amount };
        match found {
            Some(i) => {
                proof {
                    lemma_token_set(self.tokens@, i as int, entry);
                }
                self.tokens.set(i, entry);
            },
            None => {
                proof {
                    lemma_token_push(self.tokens@, entry);
                }
                self.tokens.push(entry);
            },
        }
    }

    /// Sets the value under a storage key, adding the key if it is new.
    pub fn set_storage(&mut self, key: &Vec<u8>, value: &Vec<u8>)
        requires
            old(self).wf(),
        ensures
            final(self).wf(),
            final(self).address == old(self).address,
            final(self).nonce == old(self).nonce,
            final(self).balance == old(self).balance,
            final(self).tokens == old(self).tokens,
            final(self).token_roles == old(self).token_roles,
            final(self).contract_code == old(self).contract_code,
            final(self).owner == old(self).owner,
            final(self).storage_spec(key@) == value@,
            forall|k: Seq<u8>|
                k != key@ ==> #[trigger] final(self).storage_spec(k) == old(self).storage_spec(k),
    {
        let found = find_key(&self.storage, key);
        let entry = StorageEntry {
            key: crate::address::copy_bytes(key),
            value: crate::address::copy_bytes(value),
        };
        match found {
            Some(i) => {
                proof {
                    lemma_storage_set(self.storage@, i as int, entry);
                }
                self.storage.set(i, entry);
            },
            None => {
                proof {
                    lemma_storage_push(self.storage@, entry);
                }
                self.storage.push(entry);
            },
        }
    }

    /// The held amount of a token instance.
    pub fn token_balance(&self, token_id: &Vec<u8>, nonce: u64) -> (r: u64)
        requires
            self.wf(),
        ensures
            r == self.token_spec(token_id@, nonce),
    {
        match find_token(&self.tokens, token_id, nonce) {
            Some(i) => {
                proof {
                    lemma_token_at(self.tokens@, i as int);
                }
                self.tokens[i].amount
            },
            None => 0,
        }
    }

    /// The value under a storage key; empty when the key is absent.
    pub fn storage_get(&self, key: &Vec<u8>) -> (r: Vec<u8>)
        requires
            self.wf(),
        ensures
            r@ == self.storage_spec(key@),
    {
        match find_key(&self.storage, key) {
            Some(i) => {
                proof {
                    lemma_storage_at(self.storage@, i as int);
                }
                crate::address::copy_bytes(&self.storage[i].value)
            },
            None => Vec::new(),
        }
    }
}

/// The index of the first roles entry for a token, if any.
pub fn find_roles(rs: &Vec<TokenRoles>, token_id: &Vec<u8>) -> (r: Option<usize>)
    ensures
        match r {
            Some(i) => i < rs@.len() && rs@[i as int].token_id@ == token_id@ && forall|j: int|
                0 <= j < i ==> #[trigger] rs@[j].token_id@ != token_id@,
            None => forall|j: int| 0 <= j < rs@.len() ==> #[trigger] rs@[j].token_id@ != token_id@,
        },
{
    let mut i: usize = 0;
    while i < rs.len()
        invariant
            0 <= i <= rs@.len(),
            forall|j: int| 0 <= j < i ==> #[trigger] rs@[j].token_id@ != token_id@,
        decreases rs@.len() - i,
    {
        if bytes_equal(&rs[i].token_id, token_id) {
            return Some(i);
        }
        i = i + 1;
    }
    None
}

pub fn find_token(ts: &Vec<TokenBalance>, token_id: &Vec<u8>, nonce: u64) -> (r: Option<usize>)
    ensures
        match r {
            Some(i) => i < ts@.len() && token_matches(ts@[i as int], token_id@, nonce),
            None => !has_token(ts@, token_id@, nonce),
        },
{
    let mut i: usize = 0;
    while i < ts.len()
        invariant
            0 <= i <= ts@.len(),
            forall|j: int| 0 <= j < i ==> !#[trigger] token_matches(ts@[j], token_id@, nonce),
        decreases ts@.len() - i,
    {
        if ts[i].nonce == nonce && bytes_equal(&ts[i].token_id, token_id) {
            return Some(i);
        }
        i = i + 1;
    }
    None
}

pub fn find_key(st: &Vec<StorageEntry>, key: &Vec<u8>) -> (r: Option<usize>)
    ensures
        match r {
            Some(i) => i < st@.len() && key_matches(st@[i as int], key@),
            None => !has_key(st@, key@),
        },
{
    let mut i: usize = 0;
    while i < st.len()
        invariant
            0 <= i <= st@.len(),
            forall|j: int| 0 <= j < i ==> !#[trigger] key_matches(st@[j], key@),
        decreases st@.len() - i,
    {
        if bytes_equal(&st[i].key, key) {
            return Some(i);
        }
        i = i + 1;
    }
    None
}

pub proof fn lemma_token_at(ts: Seq<TokenBalance>, i: int)
    requires
        tokens_unique(ts),
        0 <= i < ts.len(),
    ensures
        token_amount(ts, ts[i].token_id@, ts[i].nonce) == ts[i].amount,
{
    assert(token_matches(ts[i], ts[i].token_id@, ts[i].nonce));
}

pub proof fn lemma_token_set(ts: Seq<TokenBalance>, i: int, e: TokenBalance)
    requires
        tokens_unique(ts),
        0 <= i < ts.len(),
        token_matches(ts[i], e.token_id@, e.nonce),
    ensures
        tokens_unique(ts.update(i, e)),
        token_amount(ts.update(i, e), e.token_id@, e.nonce) == e.amount,
        forall|id: Seq<u8>, n: u64|
            !(id == e.token_id@ && n == e.nonce) ==> #[trigger] token_amount(ts.update(i, e), id, n)
                == token_amount(ts, id, n),
{
    let us = ts.update(i, e);
    assert(token_matches(us[i], e.token_id@, e.nonce));
    assert forall|x: int, y: int|
        0 <= x < us.len() && 0 <= y < us.len() && #[trigger] us[x].token_id@ == #[trigger] us[y].token_id@
            && us[x].nonce == us[y].nonce implies x == y by {
        if x == i && y != i {
            assert(ts[y].token_id@ == ts[i].token_id@ && ts[y].nonce == ts[i].nonce);
        } else if y == i && x != i {
            assert(ts[x].token_id@ == ts[i].token_id@ && ts[x].nonce == ts[i].nonce);
        } else if x != i && y != i {
            assert(ts[x] == us[x] && ts[y] == us[y]);
            assert(ts[x].token_id@ == ts[y].token_id@ && ts[x].nonce == ts[y].nonce);
        }
    }
    assert(token_amount(us, e.token_id@, e.nonce) == e.amount) by {
        let k = choose|k: int| 0 <= k < us.len() && #[trigger] token_matches(us[k], e.token_id@, e.nonce);
        assert(us[k].token_id@ == us[i].token_id@ && us[k].nonce == us[i].nonce);
    }
    assert forall|id: Seq<u8>, n: u64|
        !(id == e.token_id@ && n == e.nonce) implies #[trigger] token_amount(us, id, n)
            == token_amount(ts, id, n) by {
        if has_token(ts, id, n) {
            let k = choose|k: int| 0 <= k < ts.len() && #[trigger] token_matches(ts[k], id, n);
            assert(token_matches(us[k], id, n));
        }
        if has_token(us, id, n) {
            let k = choose|k: int| 0 <= k < us.len() && #[trigger] token_matches(us[k], id, n);
            assert(token_matches(ts[k], id, n));
        }
    }
}

pub proof fn lemma_token_push(ts: Seq<TokenBalance>, e: TokenBalance)
    requires
        tokens_unique(ts),
        !has_token(ts, e.token_id@, e.nonce),
    ensures
        tokens_unique(ts.push(e)),
        token_amount(ts.push(e), e.token_id@, e.nonce) == e.amount,
        forall|id: Seq<u8>, n: u64|
            !(id == e.token_id@ && n == e.nonce) ==> #[trigger] token_amount(ts.push(e), id, n)
                == token_amount(ts, id, n),
{
    let us = ts.push(e);
    assert forall|i: int, j: int|
        0 <= i < us.len() && 0 <= j < us.len() && #[trigger] us[i].token_id@ == #[trigger] us[j].token_id@
            && us[i].nonce == us[j].nonce implies i == j by {
        if i < ts.len() && j == ts.len() {
            assert(token_matches(ts[i], e.token_id@, e.nonce));
        } else if j < ts.len() && i == ts.len() {
            assert(token_matches(ts[j], e.token_id@, e.nonce));
        } else if i < ts.len() && j < ts.len() {
            assert(us[i] == ts[i] && us[j] == ts[j]);
            assert(ts[i].token_id@ == ts[j].token_id@ && ts[i].nonce == ts[j].nonce);
        }
    }
    assert(token_matches(us[ts.len() as int], e.token_id@, e.nonce));
    assert forall|id: Seq<u8>, n: u64|
        !(id == e.token_id@ && n == e.nonce) implies #[trigger] token_amount(us, id, n)
            == token_amount(ts, id, n) by {
        if has_token(ts, id, n) {
            let k = choose|k: int| 0 <= k < ts.len() && #[trigger] token_matches(ts[k], id, n);
            assert(token_matches(us[k], id, n));
        }
        if has_token(us, id, n) {
            let k = choose|k: int| 0 <= k < us.len() && #[trigger] token_matches(us[k], id, n);
            assert(token_matches(ts[k], id, n));
        }
    }
}

pub proof fn lemma_storage_at(st: Seq<StorageEntry>, i: int)
    requires
        keys_unique(st),
        0 <= i < st.len(),
    ensures
        storage_value(st, st[i].key@) == st[i].value@,
{
    assert(key_matches(st[i], st[i].key@));
}

pub proof fn lemma_storage_set(st: Seq<StorageEntry>, i: int, e: StorageEntry)
    requires
        keys_unique(st),
        0 <= i < st.len(),
        key_matches(st[i], e.key@),
    ensures
        keys_unique(st.update(i, e)),
        storage_value(st.update(i, e), e.key@) == e.value@,
        has_key(st.update(i, e), e.key@),
        forall|k: Seq<u8>|
            k != e.key@ ==> #[trigger] storage_value(st.update(i, e), k) == storage_value(st, k)
                && has_key(st.update(i, e), k) == has_key(st, k),
{
    let us = st.update(i, e);
    assert(key_matches(us[i], e.key@));
    assert forall|x: int, y: int|
        0 <= x < us.len() && 0 <= y < us.len() && #[trigger] us[x].key@ == #[trigger] us[y].key@
            implies x == y by {
        if x == i && y != i {
            assert(st[y].key@ == st[i].key@);
        } else if y == i && x != i {
            assert(st[x].key@ == st[i].key@);
        } else if x != i && y != i {
            assert(st[x] == us[x] && st[y] == us[y]);
            assert(st[x].key@ == st[y].key@);
        }
    }
    assert(storage_value(us, e.key@) == e.value@) by {
        let k = choose|k: int| 0 <= k < us.len() && #[trigger] key_matches(us[k], e.key@);
        assert(us[k].key@ == us[i].key@);
    }
    assert forall|k: Seq<u8>| k != e.key@ implies #[trigger] storage_value(us, k) == storage_value(
        st,
        k,
    ) && has_key(us, k) == has_key(st, k) by {
        if has_key(st, k) {
            let m = choose|m: int| 0 <= m < st.len() && #[trigger] key_matches(st[m], k);
            assert(key_matches(us[m], k));
        }
        if has_key(us, k) {
            let m = choose|m: int| 0 <= m < us.len() && #[trigger] key_matches(us[m], k);
            assert(key_matches(st[m], k));
        }
    }
}

pub proof fn lemma_storage_push(st: Seq<StorageEntry>, e: StorageEntry)
    requires
        keys_unique(st),
        !has_key(st, e.key@),
    ensures
        keys_unique(st.push(e)),
        storage_value(st.push(e), e.key@) == e.value@,
        has_key(st.push(e), e.key@),
        forall|k: Seq<u8>|
            k != e.key@ ==> #[trigger] storage_value(st.push(e), k) == storage_value(st, k)
                && has_key(st.push(e), k) == has_key(st, k),
{
    let us = st.push(e);
    assert forall|i: int, j: int|
        0 <= i < us.len() && 0 <= j < us.len() && #[trigger] us[i].key@ == #[trigger] us[j].key@
            implies i == j by {
        if i < st.len() && j == st.len() {
            assert(key_matches(st[i], e.key@));
        } else if j < st.len() && i == st.len() {
            assert(key_matches(st[j], e.key@));
        } else if i < st.len() && j < st.len() {
            assert(us[i] == st[i] && us[j] == st[j]);
            assert(st[i].key@ == st[j].key@);
        }
    }
    assert(key_matches(us[st.len() as int], e.key@));
    assert forall|k: Seq<u8>| k != e.key@ implies #[trigger] storage_value(us, k) == storage_value(
        st,
        k,
    ) && has_key(us, k) == has_key(st, k) by {
        if has_key(st, k) {
            let m = choose|m: int| 0 <= m < st.len() && #[trigger] key_matches(st[m], k);
            assert(key_matches(us[m], k));
        }
        if has_key(us, k) {
            let m = choose|m: int| 0 <= m < us.len() && #[trigger] key_matches(us[m], k);
            assert(key_matches(st[m], k));
        }
    }
}

} // verus!
