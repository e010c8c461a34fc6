use vstd::prelude::*;
use crate::address::{Address, array_to_vec};
use crate::cache::TxCache;
use crate::updates::LedgerError;
use crate::account::{TokenRoles, find_roles};
use crate::world::{has_account, record_of};

verus! {

/// The identifier under which the native currency is addressed like a token.
pub open spec fn native_token_id() -> Seq<u8> {
    seq![69u8, 71u8, 76u8, 68u8]
}

/// The storage key under which the protocol keeps a contract's validator rewards.
pub open spec fn reward_key() -> Seq<u8> {
    seq![69u8, 76u8, 82u8, 79u8, 78u8, 68u8, 114u8, 101u8, 119u8, 97u8, 114u8, 100u8]
}

/// The unsigned integer that a byte string encodes, most significant byte first.
pub open spec fn big_endian_value(s: Seq<u8>) -> nat
    decreases s.len(),
{
    if s.len() == 0 {
        0
    } else {
        big_endian_value(s.drop_last()) * 256 + s.last() as nat
    }
}

/// `v` is the picked field of the first roles entry for the token, or zero
/// when the list has no entry for it.
pub open spec fn first_roles_entry(rs: Seq<TokenRoles>, token_id: Seq<u8>, v: u64, pick: spec_fn(TokenRoles) -> u64) -> bool {
    ||| exists|i: int|
        0 <= i < rs.len() && rs[i].token_id@ == token_id && v == pick(rs[i]) && forall|j: int|
            0 <= j < i ==> #[trigger] rs[j].token_id@ != token_id
    ||| (forall|j: int| 0 <= j < rs.len() ==> #[trigger] rs[j].token_id@ != token_id) && v == 0
}

/// What the ledger records of one token instance held by an account.
#[derive(Clone, Debug)]
pub struct EsdtTokenData {
    pub token_id: Vec<u8>,
    pub nonce: u64,
    pub amount: u64,
}

/// Whether a token identifier names the native currency.
pub fn is_native_token(token_id: &Vec<u8>) -> (r: bool)
    ensures
        r == (token_id@ == native_token_id()),
{
    let r = token_id.len() == 4 && token_id[0] == 69u8 && token_id[1] == 71u8 && token_id[2] == 76u8
        && token_id[3] == 68u8;
    if r {
        assert(token_id@ =~= native_token_id());
    }
    r
}

fn reward_key_bytes() -> (r: Vec<u8>)
    ensures
        r@ == reward_key(),
{
    let mut r: Vec<u8> = Vec::new();
    r.push(69u8);
    r.push(76u8);
    r.push(82u8);
    r.push(79u8);
    r.push(78u8);
    r.push(68u8);
    r.push(114u8);
    r.push(101u8);
    r.push(119u8);
    r.push(97u8);
    r.push(114u8);
    r.push(100u8);
    assert(r@ =~= reward_key());
    r
}

/// Decodes a big-endian unsigned integer; `None` when it exceeds `u64`.
pub fn decode_big_endian(bytes: &Vec<u8>) -> (r: Option<u64>)
    ensures
        match r {
            Some(v) => v == big_endian_value(bytes@),
            None => big_endian_value(bytes@) > u64::MAX,
        },
{
    let mut acc: u64 = 0;
    let mut i: usize = 0;
    while i < bytes.len()
        invariant
            0 <= i <= bytes@.len(),
            acc == big_endian_value(bytes@.subrange(0, i as int)),
        decreases bytes@.len() - i,
    {
        let b = bytes[i];
        proof {
            assert(bytes@.subrange(0, i + 1).drop_last() =~= bytes@.subrange(0, i as int));
        }
        if acc > (u64::MAX - b as u64) / 256 {
            proof {
                lemma_big_endian_grows(bytes@, i as int + 1);
                assert(acc * 256 + b > u64::MAX) by (nonlinear_arith)
                    requires
                        acc > (u64::MAX - b as u64) / 256,
                        b <= 255,
                ;
            }
            return None;
        }
        assert(acc * 256 + b <= u64::MAX) by (nonlinear_arith)
            requires
                acc <= (u64::MAX - b as u64) / 256,
                b <= 255,
        ;
        acc = acc * 256 + b as u64;
        i = i + 1;
    }
    assert(bytes@.subrange(0, bytes@.len() as int) =~= bytes@);
    Some(acc)
}

/// A prefix never encodes more than the whole byte string.
proof fn lemma_big_endian_grows(s: Seq<u8>, i: int)
    requires
        0 <= i <= s.len(),
    ensures
        big_endian_value(s.subrange(0, i)) <= big_endian_value(s),
    decreases s.len() - i,
{
    if i < s.len() {
        lemma_big_endian_grows(s, i + 1);
        assert(s.subrange(0, i + 1).drop_last() =~= s.subrange(0, i));
        let v = big_endian_value(s.subrange(0, i));
        assert(v <= v * 256 + s[i] as nat) by (nonlinear_arith);
    } else {
        assert(s.subrange(0, i) =~= s);
    }
}

/// What a contract can ask of the ledger during one transaction: the
/// transaction's context, the chain's blocks, and balances and storage as the
/// transaction sees them.
pub struct BlockchainWrapper<'c, 'w> {
    pub api: &'c TxCache<'w>,
}

impl<'c, 'w> BlockchainWrapper<'c, 'w> {
    pub fn new(api: &'c TxCache<'w>) -> (r: Self)
        ensures
            r.api == api,
    {
        BlockchainWrapper { api }
    }

    pub fn get_caller_legacy(&self) -> (r: [u8; 32])
        ensures
            r@ == self.api.tx_spec().from@,
    {
        self.api.tx_input().from.as_array()
    }

    /// The sender of the transaction.
    pub fn get_caller(&self) -> (r: Address)
        ensures
            r == self.api.tx_spec().from,
    {
        self.api.tx_input().from
    }

    pub fn get_sc_address_legacy(&self) -> (r: [u8; 32])
        ensures
            r@ == self.api.tx_spec().to@,
    {
        self.api.tx_input().to.as_array()
    }

    /// The contract being called: the receiver of the transaction.
    pub fn get_sc_address(&self) -> (r: Address)
        ensures
            r == self.api.tx_spec().to,
    {
        self.api.tx_input().to
    }

    pub fn get_owner_address_legacy(&self) -> (r: Option<[u8; 32]>)
        requires
            self.api.wf(),
        ensures
            match r {
                Some(o) => self.owner_spec() is Some && o@ == self.owner_spec()->Some_0@,
                None => self.owner_spec() is None,
            },
    {
        match self.get_owner_address() {
            Some(o) => Some(o.as_array()),
            None => None,
        }
    }

    /// The owner of the called contract, if it is registered and has one.
    pub open spec fn owner_spec(&self) -> Option<Address> {
        let w = self.api.world_spec()@;
        let to = self.api.tx_spec().to@;
        if has_account(w, to) {
            record_of(w, to).owner
        } else {
            None
        }
    }

    pub fn get_owner_address(&self) -> (r: Option<Address>)
        requires
            self.api.wf(),
        ensures
            r == self.owner_spec(),
    {
        proof {
            self.api.lemma_wf();
        }
        match self.api.world().get_account(&self.api.tx_input().to) {
            Some(rec) => rec.owner,
            None => None,
        }
    }

    /// Succeeds when the caller is the owner of the called contract; fails
    /// with `CallerNotOwner` otherwise.
    pub fn check_caller_is_owner(&self) -> (r: Result<(), LedgerError>)
        requires
            self.api.wf(),
        ensures
            r.is_ok() == (self.owner_spec() is Some && self.owner_spec()->Some_0@
                == self.api.tx_spec().from@),
            r.is_err() ==> r == Err::<(), LedgerError>(LedgerError::CallerNotOwner),
    {
        match self.get_owner_address() {
            Some(o) => {
                if o.equals(&self.get_caller()) {
                    Ok(())
                } else {
                    Err(LedgerError::CallerNotOwner)
                }
            },
            None => Err(LedgerError::CallerNotOwner),
        }
    }

    pub fn get_shard_of_address_legacy(&self, address: &[u8; 32]) -> (r: u32)
        ensures
            r == 0,
    {
        self.get_shard_of_address(&Address::new(*address))
    }

    /// The shard of an address. The ledger simulates a single shard, so every
    /// address is in shard zero.
    pub fn get_shard_of_address(&self, address: &Address) -> (r: u32)
        ensures
            r == 0,
    {
        0
    }

    pub fn is_smart_contract_legacy(&self, address: &[u8; 32]) -> (r: bool)
        requires
            self.api.wf(),
        ensures
            r == (has_account(self.api.world_spec()@, address@) && record_of(
                self.api.world_spec()@,
                address@,
            ).contract_code is Some),
    {
        self.is_smart_contract(&Address::new(*address))
    }

    /// Whether the address is a registered account with deployed code.
    pub fn is_smart_contract(&self, address: &Address) -> (r: bool)
        requires
            self.api.wf(),
        ensures
            r == (has_account(self.api.world_spec()@, address@) && record_of(
                self.api.world_spec()@,
                address@,
            ).contract_code is Some),
    {
        proof {
            self.api.lemma_wf();
        }
        match self.api.world().get_account(address) {
            Some(rec) => rec.contract_code.is_some(),
            None => false,
        }
    }

    pub fn get_balance_legacy(&self, address: &[u8; 32]) -> (r: Result<u64, LedgerError>)
        requires
            self.api.wf(),
        ensures
            match r {
                Ok(v) => self.api.known(address@) && v == self.api.balance_spec(address@),
                Err(e) => !self.api.known(address@) && e == LedgerError::UnknownAccount,
            },
    {
        self.get_balance(&Address::new(*address))
    }

    /// The native balance of an account as the transaction sees it.
    pub fn get_balance(&self, address: &Address) -> (r: Result<u64, LedgerError>)
        requires
            self.api.wf(),
        ensures
            match r {
                Ok(v) => self.api.known(address@) && v == self.api.balance_spec(address@),
                Err(e) => !self.api.known(address@) && e == LedgerError::UnknownAccount,
            },
    {
        self.api.get_balance(address)
    }

    /// The called contract's balance of a token instance, or of the native
    /// currency when the identifier names it.
    pub fn get_sc_balance(&self, token: &Vec<u8>, nonce: u64) -> (r: Result<u64, LedgerError>)
        requires
            self.api.wf(),
        ensures
            ({
                let sc = self.api.tx_spec().to@;
                match r {
                    Ok(v) => self.api.known(sc) && v == if token@ == native_token_id() {
                        self.api.balance_spec(sc)
                    } else {
                        self.api.token_spec(sc, token@, nonce)
                    },
                    Err(e) => !self.api.known(sc) && e == LedgerError::UnknownAccount,
                }
            }),
    {
        if is_native_token(token) {
            self.get_balance(&self.get_sc_address())
        } else {
            self.get_esdt_balance(&self.get_sc_address(), token, nonce)
        }
    }

    pub fn get_state_root_hash_legacy(&self) -> (r: [u8; 32])
        ensures
            r == self.api.world_spec().context_spec().state_root_hash,
    {
        self.api.world().context().state_root_hash
    }

    /// The state hash of the world the transaction runs on.
    pub fn get_state_root_hash(&self) -> (r: Vec<u8>)
        ensures
            r@ == self.api.world_spec().context_spec().state_root_hash@,
    {
        array_to_vec(&self.get_state_root_hash_legacy())
    }

    pub fn get_tx_hash_legacy(&self) -> (r: [u8; 32])
        ensures
            r == self.api.tx_spec().tx_hash,
    {
        self.api.tx_input().tx_hash
    }

    /// The hash of the transaction.
    pub fn get_tx_hash(&self) -> (r: Vec<u8>)
        ensures
            r@ == self.api.tx_spec().tx_hash@,
    {
        array_to_vec(&self.get_tx_hash_legacy())
    }

    /// The gas left to the transaction. The ledger does not meter gas, so
    /// this is the transaction's whole gas limit.
    pub fn get_gas_left(&self) -> (r: u64)
        ensures
            r == self.api.tx_spec().gas_limit,
    {
        self.api.tx_input().gas_limit
    }

    pub fn get_block_timestamp(&self) -> (r: u64)
        ensures
            r == self.api.world_spec().context_spec().current_block.timestamp,
    {
        self.api.world().context().current_block.timestamp
    }

    pub fn get_block_nonce(&self) -> (r: u64)
        ensures
            r == self.api.world_spec().context_spec().current_block.nonce,
    {
        self.api.world().context().current_block.nonce
    }

    pub fn get_block_round(&self) -> (r: u64)
        ensures
            r == self.api.world_spec().context_spec().current_block.round,
    {
        self.api.world().context().current_block.round
    }

    pub fn get_block_epoch(&self) -> (r: u64)
        ensures
            r == self.api.world_spec().context_spec().current_block.epoch,
    {
        self.api.world().context().current_block.epoch
    }

    pub fn get_block_random_seed_legacy(&self) -> (r: [u8; 48])
        ensures
            r == self.api.world_spec().context_spec().current_block.random_seed,
    {
        self.api.world().context().current_block.random_seed
    }

    pub fn get_block_random_seed(&self) -> (r: Vec<u8>)
        ensures
            r@ == self.api.world_spec().context_spec().current_block.random_seed@,
    {
        array_to_vec(&self.get_block_random_seed_legacy())
    }

    pub fn get_prev_block_timestamp(&self) -> (r: u64)
        ensures
            r == self.api.world_spec().context_spec().previous_block.timestamp,
    {
        self.api.world().context().previous_block.timestamp
    }

    pub fn get_prev_block_nonce(&self) -> (r: u64)
        ensures
            r == self.api.world_spec().context_spec().previous_block.nonce,
    {
        self.api.world().context().previous_block.nonce
    }

    pub fn get_prev_block_round(&self) -> (r: u64)
        ensures
            r == self.api.world_spec().context_spec().previous_block.round,
    {
        self.api.world().context().previous_block.round
    }

    pub fn get_prev_block_epoch(&self) -> (r: u64)
        ensures
            r == self.api.world_spec().context_spec().previous_block.epoch,
    {
        self.api.world().context().previous_block.epoch
    }

    pub fn get_prev_block_random_seed_legacy(&self) -> (r: [u8; 48])
        ensures
            r == self.api.world_spec().context_spec().previous_block.random_seed,
    {
        self.api.world().context().previous_block.random_seed
    }

    pub fn get_prev_block_random_seed(&self) -> (r: Vec<u8>)
        ensures
            r@ == self.api.world_spec().context_spec().previous_block.random_seed@,
    {
        array_to_vec(&self.get_prev_block_random_seed_legacy())
    }

    /// The amount of a token instance an account holds as the transaction sees it.
    pub fn get_esdt_balance(&self, address: &Address, token_id: &Vec<u8>, nonce: u64) -> (r: Result<
        u64,
        LedgerError,
    >)
        requires
            self.api.wf(),
        ensures
            match r {
                Ok(v) => self.api.known(address@) && v == self.api.token_spec(address@, token_id@, nonce),
                Err(e) => !self.api.known(address@) && e == LedgerError::UnknownAccount,
            },
    {
        self.api.get_esdt_balance(address, token_id, nonce)
    }

    /// The data of a token instance held by an account.
    pub fn get_esdt_token_data(&self, address: &Address, token_id: &Vec<u8>, nonce: u64) -> (r:
        Result<EsdtTokenData, LedgerError>)
        requires
            self.api.wf(),
        ensures
            match r {
                Ok(d) => self.api.known(address@) && d.token_id@ == token_id@ && d.nonce == nonce
                    && d.amount == self.api.token_spec(address@, token_id@, nonce),
                Err(e) => !self.api.known(address@) && e == LedgerError::UnknownAccount,
            },
    {
        match self.get_esdt_balance(address, token_id, nonce) {
            Ok(amount) => Ok(
                EsdtTokenData { token_id: crate::address::copy_bytes(token_id), nonce, amount },
            ),
            Err(e) => Err(e),
        }
    }

    /// The nonce of the last instance of a token that an account created;
    /// zero when it has created none.
    pub fn get_current_esdt_nft_nonce(&self, address: &Address, token_id: &Vec<u8>) -> (r: Result<
        u64,
        LedgerError,
    >)
        requires
            self.api.wf(),
        ensures
            match r {
                Ok(v) => self.api.known(address@) && first_roles_entry(
                    record_of(self.api.world_spec()@, address@).token_roles@,
                    token_id@,
                    v,
                    |e: TokenRoles| e.last_nonce,
                ),
                Err(e) => !self.api.known(address@) && e == LedgerError::UnknownAccount,
            },
    {
        proof {
            self.api.lemma_wf();
        }
        match self.api.world().get_account(address) {
            Some(rec) => match find_roles(&rec.token_roles, token_id) {
                Some(i) => Ok(rec.token_roles[i].last_nonce),
                None => Ok(0),
            },
            None => Err(LedgerError::UnknownAccount),
        }
    }

    /// The local roles (one bit per role) that the called contract holds for
    /// a token; zero when it holds none.
    pub fn get_esdt_local_roles(&self, token_id: &Vec<u8>) -> (r: Result<u64, LedgerError>)
        requires
            self.api.wf(),
        ensures
            ({
                let sc = self.api.tx_spec().to@;
                match r {
                    Ok(v) => self.api.known(sc) && first_roles_entry(
                        record_of(self.api.world_spec()@, sc).token_roles@,
                        token_id@,
                        v,
                        |e: TokenRoles| e.roles,
                    ),
                    Err(e) => !self.api.known(sc) && e == LedgerError::UnknownAccount,
                }
            }),
    {
        proof {
            self.api.lemma_wf();
        }
        match self.api.world().get_account(&self.api.tx_input().to) {
            Some(rec) => match find_roles(&rec.token_roles, token_id) {
                Some(i) => Ok(rec.token_roles[i].roles),
                None => Ok(0),
            },
            None => Err(LedgerError::UnknownAccount),
        }
    }

    /// The validator rewards the protocol has set for the called contract,
    /// read from its storage. Fails with `UnknownAccount` when the contract is
    /// not registered and with `BalanceOverflow` when the stored value does
    /// not fit a balance.
    pub fn get_cumulated_validator_rewards(&self) -> (r: Result<u64, LedgerError>)
        requires
            self.api.wf(),
        ensures
            ({
                let sc = self.api.tx_spec().to@;
                let stored = self.api.storage_spec(sc, reward_key());
                match r {
                    Ok(v) => self.api.known(sc) && v == big_endian_value(stored),
                    Err(e) => if self.api.known(sc) {
                        e == LedgerError::BalanceOverflow && big_endian_value(stored) > u64::MAX
                    } else {
                        e == LedgerError::UnknownAccount
                    },
                }
            }),
    {
        let key = reward_key_bytes();
        let raw = match self.api.read_storage(&self.get_sc_address(), &key) {
            Ok(v) => v,
            Err(e) => {
                return Err(e);
            },
        };
        match decode_big_endian(&raw) {
            Some(v) => Ok(v),
            None => Err(LedgerError::BalanceOverflow),
        }
    }
}

} // verus!
