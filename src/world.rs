use vstd::prelude::*;
use crate::address::Address;
use crate::account::{AccountRecord, has_key, storage_value, lemma_storage_at};
use crate::updates::{
    AccountUpdate, BlockchainUpdates, LedgerError, applied, delta_sum, has_delta, has_update,
    token_delta, update_of, update_valid, update_wf, updates_wf, lemma_delta_at, lemma_update_at,
};

verus! {

/// What contracts can learn of a block.
#[derive(Clone, Copy, Debug)]
pub struct BlockInfo {
    pub timestamp: u64,
    pub nonce: u64,
    pub round: u64,
    pub epoch: u64,
    pub random_seed: [u8; 48],
}

impl BlockInfo {
    /// The block of time, nonce, round and epoch zero, with a zero seed.
    pub fn genesis() -> (r: BlockInfo)
        ensures
            r.timestamp == 0 && r.nonce == 0 && r.round == 0 && r.epoch == 0,
            r.random_seed@ == Seq::new(48, |i: int| 0u8),
    {
        let r = BlockInfo { timestamp: 0, nonce: 0, round: 0, epoch: 0, random_seed: [0u8; 48] };
        assert(r.random_seed@ =~= Seq::new(48, |i: int| 0u8));
        r
    }
}

/// The blocks that the world is at, and the hash of its state.
#[derive(Clone, Copy, Debug)]
pub struct ChainContext {
    pub current_block: BlockInfo,
    pub previous_block: BlockInfo,
    pub state_root_hash: [u8; 32],
}

/// The committed ledger: every registered account, and the chain context.
pub struct World {
    accounts: Vec<AccountRecord>,
    context: ChainContext,
}

pub open spec fn account_matches(r: AccountRecord, a: Seq<u8>) -> bool {
    r.address@ == a
}

pub open spec fn has_account(s: Seq<AccountRecord>, a: Seq<u8>) -> bool {
    exists|i: int| 0 <= i < s.len() && #[trigger] account_matches(s[i], a)
}

pub open spec fn account_index(s: Seq<AccountRecord>, a: Seq<u8>) -> int {
    choose|i: int| 0 <= i < s.len() && #[trigger] account_matches(s[i], a)
}

/// The record registered at an address (meaningful when there is one).
pub open spec fn record_of(s: Seq<AccountRecord>, a: Seq<u8>) -> AccountRecord {
    s[account_index(s, a)]
}

/// The native balance at an address; zero for an unknown address.
pub open spec fn balance_of(s: Seq<AccountRecord>, a: Seq<u8>) -> nat {
    if has_account(s, a) {
        record_of(s, a).balance as nat
    } else {
        0
    }
}

/// Each address appears once and each record is well formed.
pub open spec fn accounts_wf(s: Seq<AccountRecord>) -> bool {
    &&& forall|i: int, j: int|
        0 <= i < s.len() && 0 <= j < s.len() && #[trigger] s[i].address@ == #[trigger] s[j].address@
            ==> i == j
    &&& forall|i: int| 0 <= i < s.len() ==> #[trigger] s[i].wf()
}

/// The sum of the native balances of all accounts.
pub open spec fn total_balance(s: Seq<AccountRecord>) -> int
    decreases s.len(),
{
    if s.len() == 0 {
        0
    } else {
        total_balance(s.drop_last()) + s.last().balance
    }
}

/// Every update names a registered account and keeps its balances and nonce in range.
pub open spec fn applicable(s: Seq<AccountRecord>, us: Seq<AccountUpdate>) -> bool {
    forall|i: int|
        0 <= i < us.len() ==> has_account(s, #[trigger] us[i].address@) && update_valid(
            record_of(s, us[i].address@),
            us[i],
        )
}

/// Some update names an account that is not registered.
pub open spec fn names_unknown(s: Seq<AccountRecord>, us: Seq<AccountUpdate>) -> bool {
    exists|i: int| 0 <= i < us.len() && !has_account(s, #[trigger] us[i].address@)
}

/// The accounts after the updates: the same addresses in the same order, each
/// record changed by its update if it has one and left as it was otherwise.
pub open spec fn applied_all(
    before: Seq<AccountRecord>,
    us: Seq<AccountUpdate>,
    after: Seq<AccountRecord>,
) -> bool {
    &&& after.len() == before.len()
    &&& forall|j: int|
        0 <= j < before.len() ==> if has_update(us, #[trigger] before[j].address@) {
            applied(before[j], update_of(us, before[j].address@), after[j])
        } else {
            after[j] == before[j]
        }
}

pub proof fn lemma_account_at(s: Seq<AccountRecord>, i: int)
    requires
        accounts_wf(s),
        0 <= i < s.len(),
    ensures
        has_account(s, s[i].address@),
        account_index(s, s[i].address@) == i,
        record_of(s, s[i].address@) == s[i],
{
    assert(account_matches(s[i], s[i].address@));
}

pub proof fn lemma_record_wf(s: Seq<AccountRecord>, a: Seq<u8>)
    requires
        accounts_wf(s),
        has_account(s, a),
    ensures
        record_of(s, a).wf(),
        record_of(s, a).address@ == a,
{
    let i = account_index(s, a);
    assert(s[i].wf());
}

pub proof fn lemma_total_update(s: Seq<AccountRecord>, i: int, r: AccountRecord)
    requires
        0 <= i < s.len(),
    ensures
        total_balance(s.update(i, r)) == total_balance(s) - s[i].balance + r.balance,
    decreases s.len(),
{
    let u = s.update(i, r);
    if i == s.len() - 1 {
        assert(u.drop_last() =~= s.drop_last());
    } else {
        lemma_total_update(s.drop_last(), i, r);
        assert(u.drop_last() =~= s.drop_last().update(i, r));
    }
}

/// The sum of native changes of a prefix grows by the next change.
pub proof fn lemma_delta_sum_step(us: Seq<AccountUpdate>, i: int)
    requires
        0 <= i < us.len(),
    ensures
        delta_sum(us.subrange(0, i + 1)) == delta_sum(us.subrange(0, i)) + us[i].native_delta,
{
    assert(us.subrange(0, i + 1).drop_last() =~= us.subrange(0, i));
}

/// `v + d` when it is a valid balance.
pub fn add_delta(v: u64, d: i128) -> (r: Option<u64>)
    ensures
        match r {
            Some(x) => 0 <= v + d <= u64::MAX && x == v + d,
            None => !(0 <= v + d <= u64::MAX),
        },
{
    if d >= 0 {
        if d <= (u64::MAX - v) as i128 {
            Some(v + d as u64)
        } else {
            None
        }
    } else {
        if d >= -(v as i128) {
            Some((v as i128 + d) as u64)
        } else {
            None
        }
    }
}

/// Whether the update keeps every balance and the nonce of the record in range.
fn check_update(rec: &AccountRecord, u: &AccountUpdate) -> (r: bool)
    requires
        rec.wf(),
    ensures
        r == update_valid(*rec, *u),
{
    if add_delta(rec.balance, u.native_delta).is_none() {
        return false;
    }
    if rec.nonce > u64::MAX - u.nonce_increment {
        return false;
    }
    let mut i: usize = 0;
    while i < u.token_deltas.len()
        invariant
            rec.wf(),
            0 <= i <= u.token_deltas@.len(),
            forall|k: int|
                0 <= k < i ==> 0 <= rec.token_spec(
                    #[trigger] u.token_deltas@[k].token_id@,
                    u.token_deltas@[k].nonce,
                ) + u.token_deltas@[k].delta <= u64::MAX,
        decreases u.token_deltas@.len() - i,
    {
        let d = &u.token_deltas[i];
        let held = rec.token_balance(&d.token_id, d.nonce);
        if add_delta(held, d.delta).is_none() {
            return false;
        }
        i = i + 1;
    }
    true
}

/// Applies one valid update to a record: native balance, then tokens, then storage.
fn apply_to_record(rec: &mut AccountRecord, u: &AccountUpdate)
    requires
        old(rec).wf(),
        update_wf(*u),
        update_valid(*old(rec), *u),
    ensures
        final(rec).wf(),
        applied(*old(rec), *u, *final(rec)),
{
    let ghost orig = *rec;
    rec.balance = add_delta(rec.balance, u.native_delta).unwrap();
    rec.nonce = rec.nonce + u.nonce_increment;
    let ds = &u.token_deltas;
    let mut i: usize = 0;
    while i < ds.len()
        invariant
            rec.wf(),
            update_wf(*u),
            update_valid(orig, *u),
            ds == u.token_deltas,
            0 <= i <= ds@.len(),
            rec.address == orig.address,
            rec.balance == orig.balance + u.native_delta,
            rec.nonce == orig.nonce + u.nonce_increment,
            rec.contract_code == orig.contract_code,
            rec.owner == orig.owner,
            rec.token_roles == orig.token_roles,
            rec.storage == orig.storage,
            forall|id: Seq<u8>, n: u64|
                #[trigger] rec.token_spec(id, n) == orig.token_spec(id, n) + if has_delta(
                    ds@.subrange(0, i as int),
                    id,
                    n,
                ) {
                    token_delta(ds@, id, n)
                } else {
                    0
                },
        decreases ds@.len() - i,
    {
        let d = &ds[i];
        let ghost pre = ds@.subrange(0, i as int);
        let ghost post = ds@.subrange(0, i + 1);
        proof {
            lemma_delta_at(ds@, i as int);
            if has_delta(pre, d.token_id@, d.nonce) {
                let k = choose|k: int|
                    0 <= k < pre.len() && #[trigger] crate::updates::delta_matches(
                        pre[k],
                        d.token_id@,
                        d.nonce,
                    );
                assert(ds@[k].token_id@ == ds@[i as int].token_id@);
            }
            assert(crate::updates::delta_matches(post[i as int], d.token_id@, d.nonce));
            assert forall|id: Seq<u8>, n: u64|
                !(id == d.token_id@ && n == d.nonce) implies has_delta(post, id, n) == has_delta(
                    pre,
                    id,
                    n,
                ) by {
                if has_delta(pre, id, n) {
                    let k = choose|k: int|
                        0 <= k < pre.len() && #[trigger] crate::updates::delta_matches(
                            pre[k],
                            id,
                            n,
                        );
                    assert(crate::updates::delta_matches(post[k], id, n));
                }
                if has_delta(post, id, n) {
                    let k = choose|k: int|
                        0 <= k < post.len() && #[trigger] crate::updates::delta_matches(
                            post[k],
                            id,
                            n,
                        );
                    assert(crate::updates::delta_matches(pre[k], id, n));
                }
            }
        }
        let held = rec.token_balance(&d.token_id, d.nonce);
        let v = add_delta(held, d.delta).unwrap();
        rec.set_token_balance(&d.token_id, d.nonce, v);
        i = i + 1;
    }
    assert(ds@.subrange(0, ds@.len() as int) =~= ds@);
    let ghost mid = *rec;
    let ws = &u.storage_writes;
    let mut j: usize = 0;
    while j < ws.len()
        invariant
            rec.wf(),
            update_wf(*u),
            ws == u.storage_writes,
            0 <= j <= ws@.len(),
            rec.address == mid.address,
            rec.balance == mid.balance,
            rec.nonce == mid.nonce,
            rec.contract_code == mid.contract_code,
            rec.owner == mid.owner,
            rec.token_roles == mid.token_roles,
            rec.tokens == mid.tokens,
            forall|k: Seq<u8>|
                #[trigger] rec.storage_spec(k) == if has_key(ws@.subrange(0, j as int), k) {
                    storage_value(ws@, k)
                } else {
                    mid.storage_spec(k)
                },
        decreases ws@.len() - j,
    {
        let w = &ws[j];
        let ghost pre = ws@.subrange(0, j as int);
        let ghost post = ws@.subrange(0, j + 1);
        proof {
            lemma_storage_at(ws@, j as int);
            assert(crate::account::key_matches(post[j as int], w.key@));
            assert forall|k: Seq<u8>| k != w.key@ implies has_key(post, k) == has_key(pre, k) by {
                if has_key(pre, k) {
                    let m = choose|m: int|
                        0 <= m < pre.len() && #[trigger] crate::account::key_matches(pre[m], k);
                    assert(crate::account::key_matches(post[m], k));
                }
                if has_key(post, k) {
                    let m = choose|m: int|
                        0 <= m < post.len() && #[trigger] crate::account::key_matches(post[m], k);
                    assert(crate::account::key_matches(pre[m], k));
                }
            }
        }
        rec.set_storage(&w.key, &w.value);
        j = j + 1;
    }
    assert(ws@.subrange(0, ws@.len() as int) =~= ws@);
    assert forall|id: Seq<u8>, n: u64|
        #[trigger] rec.token_spec(id, n) == orig.token_spec(id, n) + token_delta(
            u.token_deltas@,
            id,
            n,
        ) by {
        assert(rec.token_spec(id, n) == mid.token_spec(id, n));
    }
    assert forall|k: Seq<u8>|
        #[trigger] rec.storage_spec(k) == if has_key(u.storage_writes@, k) {
            storage_value(u.storage_writes@, k)
        } else {
            orig.storage_spec(k)
        } by {
        assert(mid.storage_spec(k) == orig.storage_spec(k));
    }
}

impl World {
    pub closed spec fn view(&self) -> Seq<AccountRecord> {
        self.accounts@
    }

    pub closed spec fn wf(&self) -> bool {
        accounts_wf(self.accounts@)
    }

    /// An empty ledger.
    pub fn new() -> (r: World)
        ensures
            r.wf(),
            r@.len() == 0,
    {
        World {
            accounts: Vec::new(),
            context: ChainContext {
                current_block: BlockInfo::genesis(),
                previous_block: BlockInfo::genesis(),
                state_root_hash: [0u8; 32],
            },
        }
    }

    pub closed spec fn context_spec(&self) -> ChainContext {
        self.context
    }

    /// The blocks that the world is at, and its state hash.
    pub fn context(&self) -> (r: ChainContext)
        ensures
            r == self.context_spec(),
    {
        self.context
    }

    /// Moves the world to another chain context; the accounts stay as they are.
    pub fn set_context(&mut self, context: ChainContext)
        ensures
            final(self)@ == old(self)@,
            final(self).wf() == old(self).wf(),
            final(self).context_spec() == context,
    {
        self.context = context;
    }

    pub proof fn lemma_wf(&self)
        requires
            self.wf(),
        ensures
            accounts_wf(self@),
    {
    }

    /// Registers a record at its address, replacing any record already there.
    pub fn add_account(&mut self, record: AccountRecord)
        requires
            old(self).wf(),
            record.wf(),
        ensures
            final(self).wf(),
            has_account(final(self)@, record.address@),
            record_of(final(self)@, record.address@) == record,
            forall|a: Seq<u8>|
                a != record.address@ ==> #[trigger] has_account(final(self)@, a) == has_account(
                    old(self)@,
                    a,
                ) && (has_account(old(self)@, a) ==> record_of(final(self)@, a) == record_of(
                    old(self)@,
                    a,
                )),
            final(self).context_spec() == old(self).context_spec(),
    {
        let ghost s = self.accounts@;
        let addr = record.address;
        match find_account(&self.accounts, &addr) {
            Some(i) => {
                self.accounts.set(i, record);
                let ghost t = self.accounts@;
                proof {
                    assert forall|x: int, y: int|
                        0 <= x < t.len() && 0 <= y < t.len() && #[trigger] t[x].address@
                            == #[trigger] t[y].address@ implies x == y by {
                        assert(s[x].address@ == t[x].address@);
                        assert(s[y].address@ == t[y].address@);
                    }
                    lemma_account_at(t, i as int);
                    assert forall|a: Seq<u8>| a != addr@ implies #[trigger] has_account(t, a)
                        == has_account(s, a) && (has_account(s, a) ==> record_of(t, a) == record_of(
                        s,
                        a,
                    )) by {
                        if has_account(s, a) {
                            let k = account_index(s, a);
                            assert(account_matches(t[k], a));
                            lemma_account_at(t, k);
                        }
                        if has_account(t, a) {
                            let k = account_index(t, a);
                            assert(account_matches(s[k], a));
                        }
                    }
                }
            },
            None => {
                self.accounts.push(record);
                let ghost t = self.accounts@;
                proof {
                    assert forall|x: int, y: int|
                        0 <= x < t.len() && 0 <= y < t.len() && #[trigger] t[x].address@
                            == #[trigger] t[y].address@ implies x == y by {
                        if x < s.len() && y == s.len() {
                            assert(account_matches(s[x], addr@));
                        }
                        if y < s.len() && x == s.len() {
                            assert(account_matches(s[y], addr@));
                        }
                    }
                    lemma_account_at(t, s.len() as int);
                    assert forall|a: Seq<u8>| a != addr@ implies #[trigger] has_account(t, a)
                        == has_account(s, a) && (has_account(s, a) ==> record_of(t, a) == record_of(
                        s,
                        a,
                    )) by {
                        if has_account(s, a) {
                            let k = account_index(s, a);
                            assert(account_matches(t[k], a));
                            lemma_account_at(t, k);
                        }
                        if has_account(t, a) {
                            let k = account_index(t, a);
                            assert(account_matches(s[k], a));
                        }
                    }
                }
            },
        }
    }

    /// Applies a transaction's updates, all of them or none. Fails with
    /// `UnknownAccount` when an update names an unregistered address, and with
    /// `InvariantViolation` when a balance would become negative or too large,
    /// or a nonce would overflow; the world is then left as it was.
    pub fn apply(&mut self, updates: BlockchainUpdates) -> (r: Result<(), LedgerError>)
        requires
            old(self).wf(),
            updates.wf(),
        ensures
            final(self).wf(),
            final(self).context_spec() == old(self).context_spec(),
            r.is_ok() == applicable(old(self)@, updates@),
            (r == Err::<(), LedgerError>(LedgerError::UnknownAccount)) == names_unknown(
                old(self)@,
                updates@,
            ),
            r.is_err() ==> r == Err::<(), LedgerError>(LedgerError::UnknownAccount) || r == Err::<
                (),
                LedgerError,
            >(LedgerError::InvariantViolation),
            r.is_err() ==> final(self)@ == old(self)@,
            r.is_ok() ==> applied_all(old(self)@, updates@, final(self)@),
            r.is_ok() ==> total_balance(final(self)@) == total_balance(old(self)@) + delta_sum(
                updates@,
            ),
    {
        let ghost s = self.accounts@;
        let us = updates.entries();
        proof {
            updates.lemma_wf();
        }
        assert(us@ == updates@);
        assert(s == old(self)@);
        let mut i: usize = 0;
        while i < us.len()
            invariant
                0 <= i <= us@.len(),
                self.accounts@ == s,
                s == old(self)@,
                us@ == updates@,
                self.context == old(self).context,
                accounts_wf(s),
                forall|k: int| 0 <= k < i ==> has_account(s, #[trigger] us@[k].address@),
            decreases us@.len() - i,
        {
            if find_account(&self.accounts, &us[i].address).is_none() {
                assert(!has_account(s, us@[i as int].address@));
                assert(names_unknown(s, us@));
                return Err(LedgerError::UnknownAccount);
            }
            i = i + 1;
        }
        let mut i: usize = 0;
        while i < us.len()
            invariant
                0 <= i <= us@.len(),
                self.accounts@ == s,
                s == old(self)@,
                us@ == updates@,
                self.context == old(self).context,
                accounts_wf(s),
                forall|k: int| 0 <= k < us@.len() ==> has_account(s, #[trigger] us@[k].address@),
                forall|k: int|
                    0 <= k < i ==> update_valid(record_of(s, #[trigger] us@[k].address@), us@[k]),
            decreases us@.len() - i,
        {
            assert(has_account(s, us@[i as int].address@));
            let j = find_account(&self.accounts, &us[i].address).unwrap();
            proof {
                lemma_account_at(s, j as int);
            }
            if !check_update(&self.accounts[j], &us[i]) {
                assert(!update_valid(record_of(s, us@[i as int].address@), us@[i as int]));
                assert(!names_unknown(s, us@));
                return Err(LedgerError::InvariantViolation);
            }
            i = i + 1;
        }
        let mut i: usize = 0;
        while i < us.len()
            invariant
                0 <= i <= us@.len(),
                updates_wf(us@),
                accounts_wf(s),
                applicable(s, us@),
                !names_unknown(s, us@),
                self.context == old(self).context,
                accounts_wf(self.accounts@),
                self.accounts@.len() == s.len(),
                forall|j: int| 0 <= j < s.len() ==> #[trigger] self.accounts@[j].address == s[j].address,
                forall|j: int|
                    0 <= j < s.len() ==> if has_update(
                        us@.subrange(0, i as int),
                        #[trigger] s[j].address@,
                    ) {
                        applied(s[j], update_of(us@, s[j].address@), self.accounts@[j])
                    } else {
                        self.accounts@[j] == s[j]
                    },
                total_balance(self.accounts@) == total_balance(s) + delta_sum(
                    us@.subrange(0, i as int),
                ),
            decreases us@.len() - i,
        {
            let ghost cur = self.accounts@;
            let ghost pre = us@.subrange(0, i as int);
            let ghost post = us@.subrange(0, i + 1);
            let u = &us[i];
            assert(has_account(s, u.address@));
            let jj = find_account(&self.accounts, &u.address).unwrap();
            proof {
                assert(cur[jj as int].address@ == s[jj as int].address@);
                lemma_account_at(s, jj as int);
                lemma_update_at(us@, i as int);
                assert(crate::updates::update_matches(post[i as int], u.address@));
                if has_update(pre, u.address@) {
                    let k = choose|k: int|
                        0 <= k < pre.len() && #[trigger] crate::updates::update_matches(
                            pre[k],
                            u.address@,
                        );
                    assert(us@[k].address@ == us@[i as int].address@);
                }
                assert forall|a: Seq<u8>| a != u.address@ implies has_update(post, a) == has_update(
                    pre,
                    a,
                ) by {
                    if has_update(pre, a) {
                        let k = choose|k: int|
                            0 <= k < pre.len() && #[trigger] crate::updates::update_matches(
                                pre[k],
                                a,
                            );
                        assert(crate::updates::update_matches(post[k], a));
                    }
                    if has_update(post, a) {
                        let k = choose|k: int|
                            0 <= k < post.len() && #[trigger] crate::updates::update_matches(
                                post[k],
                                a,
                            );
                        assert(crate::updates::update_matches(pre[k], a));
                    }
                }
                assert(cur[jj as int] == s[jj as int]);
                assert(update_valid(s[jj as int], *u));
                assert(update_wf(*u));
            }
            let mut rec = self.accounts.remove(jj);
            apply_to_record(&mut rec, u);
            self.accounts.insert(jj, rec);
            proof {
                let next = self.accounts@;
                assert(next =~= cur.update(jj as int, rec));
                lemma_total_update(cur, jj as int, rec);
                lemma_delta_sum_step(us@, i as int);
                assert forall|x: int, y: int|
                    0 <= x < next.len() && 0 <= y < next.len() && #[trigger] next[x].address@
                        == #[trigger] next[y].address@ implies x == y by {
                    assert(next[x].address == s[x].address);
                    assert(next[y].address == s[y].address);
                }
                assert forall|x: int| 0 <= x < next.len() implies #[trigger] next[x].wf() by {
                    if x != jj {
                        assert(next[x] == cur[x]);
                    }
                }
                assert forall|j: int| 0 <= j < s.len() implies if has_update(
                    post,
                    #[trigger] s[j].address@,
                ) {
                    applied(s[j], update_of(us@, s[j].address@), next[j])
                } else {
                    next[j] == s[j]
                } by {
                    if j != jj {
                        assert(s[j].address@ != u.address@);
                        assert(next[j] == cur[j]);
                    }
                }
            }
            i = i + 1;
        }
        proof {
            assert(us@.subrange(0, us@.len() as int) =~= us@);
        }
        assert(!names_unknown(s, us@));
        Ok(())
    }

    /// The record registered at an address, if any.
    pub fn get_account(&self, address: &Address) -> (r: Option<&AccountRecord>)
        requires
            self.wf(),
        ensures
            match r {
                Some(rec) => has_account(self@, address@) && *rec == record_of(self@, address@),
                None => !has_account(self@, address@),
            },
    {
        match find_account(&self.accounts, address) {
            Some(i) => {
                proof {
                    lemma_account_at(self.accounts@, i as int);
                }
                Some(&self.accounts[i])
            },
            None => None,
        }
    }
}

pub fn find_account(s: &Vec<AccountRecord>, address: &Address) -> (r: Option<usize>)
    ensures
        match r {
            Some(i) => i < s@.len() && account_matches(s@[i as int], address@),
            None => !has_account(s@, address@),
        },
{
    let mut i: usize = 0;
    while i < s.len()
        invariant
            0 <= i <= s@.len(),
            forall|j: int| 0 <= j < i ==> !#[trigger] account_matches(s@[j], address@),
        decreases s@.len() - i,
    {
        if s[i].address.equals(address) {
            return Some(i);
        }
        i = i + 1;
    }
    None
}

} // verus!
