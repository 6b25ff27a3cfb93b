use vstd::prelude::*;

use vstd::arithmetic::div_mod::{lemma_div_by_multiple, lemma_div_is_ordered};
use vstd::arithmetic::mul::lemma_mul_inequality;

use crate::account::AccountId;
use crate::errors::ErrorCode;
use crate::ledger::TokenLedger;
use crate::locator::{
    bytes_eq, copy_bytes, lemma_transaction_key_injective, spec_transaction_key, transaction_key,
};
use crate::state::{ProgramState, RewardMinted, RewardRedeemed, TransactionRecord, UserRewards, UserStats};
use vstd::pervasive::VecAdditionalExecFns;

verus! {

/// The reward rate a fresh deployment starts with: 200 basis points (2%).
pub const DEFAULT_REWARD_RATE_BPS: u16 = 200;

/// The highest reward rate the policy admits: 1000 basis points (10%).
pub const MAX_REWARD_RATE_BPS: u16 = 1000;

/// The longest transaction identifier accepted, in bytes.
pub const MAX_TRANSACTION_ID_BYTES: usize = 64;

/// A reward rate is so many basis points: ten-thousandths of the amount.
pub const BPS_DIVISOR: u64 = 10000;

/// The reward owed for a transaction of `amount` at `rate` basis points:
/// `floor(amount * rate / 10000)`.
pub open spec fn spec_reward(amount: u64, rate: u16) -> int {
    (amount * rate) / (BPS_DIVISOR as int)
}

/// Fixed-point reward computation; the product is widened before dividing, so
/// no intermediate overflow is possible.
pub fn compute_reward(amount: u64, rate: u16) -> (r: u64)
    requires
        rate <= MAX_REWARD_RATE_BPS,
    ensures
        r == spec_reward(amount, rate),
        r <= amount,
{
    proof {
        lemma_mul_inequality(rate as int, BPS_DIVISOR as int, amount as int);
        lemma_mul_inequality(amount as int, u64::MAX as int, BPS_DIVISOR as int);
        lemma_div_is_ordered(
            (amount as int) * (rate as int),
            (amount as int) * (BPS_DIVISOR as int),
            BPS_DIVISOR as int,
        );
        lemma_div_by_multiple(amount as int, BPS_DIVISOR as int);
    }
    let prod: u128 = (amount as u128) * (rate as u128);
    let q: u128 = prod / (BPS_DIVISOR as u128);
    q as u64
}

/// A stored transaction record together with the derived storage key it
/// lives at.
#[derive(Clone, Debug, PartialEq, Eq)]
pub struct TxEntry {
    pub key: Vec<u8>,
    pub record: TransactionRecord,
}

/// The whole system: the program's records plus the token ledger the
/// program drives. Every operation commits as one unit — on any fault,
/// nothing is mutated.
#[derive(Clone, Debug, PartialEq, Eq)]
pub struct RewardsProgram {
    /// The singleton policy record; `None` until `initialize_mint`.
    pub state: Option<ProgramState>,
    /// One permanent record per processed transaction identifier, stored at
    /// its derived key.
    pub transactions: Vec<TxEntry>,
    /// One statistics record per user, created lazily on first issuance.
    pub users: Vec<UserRewards>,
    /// The external token ledger the engine mints to and burns from.
    pub ledger: TokenLedger,
}

impl RewardsProgram {
    /// The singleton state exists.
    pub open spec fn initialized(self) -> bool {
        self.state is Some
    }

    /// The singleton state (meaningful only when initialized).
    pub open spec fn st(self) -> ProgramState {
        self.state.unwrap()
    }

    /// The first stored record for `id`, if any.
    pub open spec fn spec_find_tx(txs: Seq<TxEntry>, id: Seq<u8>) -> Option<TransactionRecord>
        decreases txs.len(),
    {
        if txs.len() == 0 {
            None
        } else if txs[0].record.transaction_id@ == id {
            Some(txs[0].record)
        } else {
            Self::spec_find_tx(txs.drop_first(), id)
        }
    }

    /// Whether the transaction identifier `id` has already been processed:
    /// a record exists at its slot and is marked processed. Absence, or a
    /// record not marked processed, counts as not yet processed.
    pub open spec fn tx_processed(self, id: Seq<u8>) -> bool {
        match Self::spec_find_tx(self.transactions@, id) {
            Some(rec) => rec.is_processed,
            None => false,
        }
    }

    /// The first statistics record for `user`, if any.
    pub open spec fn spec_find_user(users: Seq<UserRewards>, user: AccountId) -> Option<
        UserRewards,
    >
        decreases users.len(),
    {
        if users.len() == 0 {
            None
        } else if users[0].user == user {
            Some(users[0])
        } else {
            Self::spec_find_user(users.drop_first(), user)
        }
    }

    /// Lifetime credit issued to `user`; zero before their first issuance.
    pub open spec fn earned(self, user: AccountId) -> u64 {
        match Self::spec_find_user(self.users@, user) {
            Some(rec) => rec.total_earned,
            None => 0,
        }
    }

    /// Lifetime credit `user` has redeemed.
    pub open spec fn redeemed(self, user: AccountId) -> u64 {
        match Self::spec_find_user(self.users@, user) {
            Some(rec) => rec.total_redeemed,
            None => 0,
        }
    }

    /// How many transactions have been processed for `user`.
    pub open spec fn tx_count(self, user: AccountId) -> u64 {
        match Self::spec_find_user(self.users@, user) {
            Some(rec) => rec.transaction_count,
            None => 0,
        }
    }

    /// What `user` currently holds on the token ledger.
    pub open spec fn balance_of(self, user: AccountId) -> u64 {
        self.ledger.spec_balance_of(user)
    }

    /// No audit counter would overflow if `reward` were issued to `user`.
    pub open spec fn mint_fits(self, user: AccountId, reward: int) -> bool {
        &&& self.st().total_minted + reward <= u64::MAX
        &&& self.st().total_transactions + 1 <= u64::MAX
        &&& self.earned(user) + reward <= u64::MAX
        &&& self.tx_count(user) + 1 <= u64::MAX
    }

    /// Well-formedness of the whole system, established at creation and
    /// preserved by every operation:
    /// - the reward rate never exceeds the policy maximum;
    /// - every stored transaction record is final (processed), its identifier
    ///   fits in 64 bytes, it sits at the derived key of its identifier, and
    ///   no two records share an identifier;
    /// - no two users share a statistics record;
    /// - the ledger is well-formed, and what a user holds is exactly what
    ///   they earned minus what they redeemed (conservation).
    pub open spec fn wf(self) -> bool {
        &&& self.ledger.wf()
        &&& (self.initialized() ==> self.st().reward_rate <= MAX_REWARD_RATE_BPS)
        &&& (forall|i: int|
            0 <= i < self.transactions@.len() ==> (#[trigger] self.transactions@[i]).record.is_processed)
        &&& (forall|i: int|
            0 <= i < self.transactions@.len()
                ==> (#[trigger] self.transactions@[i]).record.transaction_id@.len()
                <= MAX_TRANSACTION_ID_BYTES)
        &&& (forall|i: int|
            0 <= i < self.transactions@.len() ==> (#[trigger] self.transactions@[i]).key@
                == spec_transaction_key(self.transactions@[i].record.transaction_id@))
        &&& (forall|i: int, j: int|
            0 <= i < j < self.transactions@.len()
                ==> (#[trigger] self.transactions@[i]).record.transaction_id@ != (
            #[trigger] self.transactions@[j]).record.transaction_id@)
        &&& (forall|i: int, j: int|
            0 <= i < j < self.users@.len() ==> (#[trigger] self.users@[i]).user != (
            #[trigger] self.users@[j]).user)
        &&& (forall|u: AccountId|
            (#[trigger] self.earned(u)) as int == self.redeemed(u) as int + self.balance_of(
                u,
            ) as int)
    }

    // -- lemmas about the two record finders ---------------------------------

    proof fn lemma_find_tx_none(txs: Seq<TxEntry>, id: Seq<u8>)
        ensures
            (Self::spec_find_tx(txs, id) is None) <==> (forall|k: int|
                0 <= k < txs.len() ==> (#[trigger] txs[k]).record.transaction_id@ != id),
        decreases txs.len(),
    {
        if txs.len() > 0 {
            Self::lemma_find_tx_none(txs.drop_first(), id);
            if Self::spec_find_tx(txs, id) is None {
                assert forall|k: int|
                    0 <= k < txs.len() implies (#[trigger] txs[k]).record.transaction_id@
                    != id by {
                    if k > 0 {
                        assert(txs.drop_first()[k - 1] == txs[k]);
                    }
                }
            }
            if forall|k: int| 0 <= k < txs.len() ==> (#[trigger] txs[k]).record.transaction_id@
                != id {
                assert forall|k: int|
                    0 <= k < txs.drop_first().len() implies (
                    #[trigger] txs.drop_first()[k]).record.transaction_id@ != id by {
                    assert(txs.drop_first()[k] == txs[k + 1]);
                }
            }
        }
    }

    proof fn lemma_find_tx_first(txs: Seq<TxEntry>, id: Seq<u8>, i: int)
        requires
            0 <= i < txs.len(),
            txs[i].record.transaction_id@ == id,
            forall|k: int| 0 <= k < i ==> (#[trigger] txs[k]).record.transaction_id@ != id,
        ensures
            Self::spec_find_tx(txs, id) == Some(txs[i].record),
        decreases i,
    {
        if i > 0 {
            assert forall|k: int|
                0 <= k < i - 1 implies (#[trigger] txs.drop_first()[k]).record.transaction_id@
                != id by {
                assert(txs.drop_first()[k] == txs[k + 1]);
            }
            Self::lemma_find_tx_first(txs.drop_first(), id, i - 1);
        }
    }

    proof fn lemma_find_tx_some(txs: Seq<TxEntry>, id: Seq<u8>)
        requires
            Self::spec_find_tx(txs, id) is Some,
        ensures
            exists|k: int|
                0 <= k < txs.len() && (#[trigger] txs[k]).record == Self::spec_find_tx(
                    txs,
                    id,
                ).unwrap() && txs[k].record.transaction_id@ == id,
        decreases txs.len(),
    {
        if txs[0].record.transaction_id@ == id {
            assert(txs[0].record == Self::spec_find_tx(txs, id).unwrap());
        } else {
            Self::lemma_find_tx_some(txs.drop_first(), id);
            let k = choose|k: int|
                0 <= k < txs.drop_first().len() && (#[trigger] txs.drop_first()[k]).record
                    == Self::spec_find_tx(txs.drop_first(), id).unwrap()
                    && txs.drop_first()[k].record.transaction_id@ == id;
            assert(txs.drop_first()[k] == txs[k + 1]);
            assert(0 <= k + 1 < txs.len() && txs[k + 1].record == Self::spec_find_tx(
                txs,
                id,
            ).unwrap() && txs[k + 1].record.transaction_id@ == id);
        }
    }

    proof fn lemma_find_tx_push(txs: Seq<TxEntry>, e: TxEntry, id: Seq<u8>)
        ensures
            Self::spec_find_tx(txs.push(e), id) == (
            if Self::spec_find_tx(txs, id) is Some {
                Self::spec_find_tx(txs, id)
            } else if e.record.transaction_id@ == id {
                Some(e.record)
            } else {
                None
            }),
        decreases txs.len(),
    {
        if txs.len() == 0 {
            assert(txs.push(e)[0] == e);
            assert(txs.push(e).drop_first() =~= Seq::<TxEntry>::empty());
            assert(Self::spec_find_tx(Seq::<TxEntry>::empty(), id) is None);
            assert(Self::spec_find_tx(txs, id) is None);
            if e.record.transaction_id@ == id {
                assert(Self::spec_find_tx(txs.push(e), id) == Some(e.record));
            } else {
                assert(Self::spec_find_tx(txs.push(e), id) == Self::spec_find_tx(
                    txs.push(e).drop_first(),
                    id,
                ));
            }
        } else {
            assert(txs.push(e)[0] == txs[0]);
            assert(txs.push(e).drop_first() =~= txs.drop_first().push(e));
            Self::lemma_find_tx_push(txs.drop_first(), e, id);
            if txs[0].record.transaction_id@ == id {
                assert(Self::spec_find_tx(txs.push(e), id) == Some(txs[0].record));
                assert(Self::spec_find_tx(txs, id) == Some(txs[0].record));
            } else {
                assert(Self::spec_find_tx(txs.push(e), id) == Self::spec_find_tx(
                    txs.drop_first().push(e),
                    id,
                ));
                assert(Self::spec_find_tx(txs, id) == Self::spec_find_tx(txs.drop_first(), id));
            }
        }
    }

    proof fn lemma_find_user_none(users: Seq<UserRewards>, user: AccountId)
        ensures
            (Self::spec_find_user(users, user) is None) <==> (forall|k: int|
                0 <= k < users.len() ==> (#[trigger] users[k]).user != user),
        decreases users.len(),
    {
        if users.len() > 0 {
            Self::lemma_find_user_none(users.drop_first(), user);
            if Self::spec_find_user(users, user) is None {
                assert forall|k: int| 0 <= k < users.len() implies (#[trigger] users[k]).user
                    != user by {
                    if k > 0 {
                        assert(users.drop_first()[k - 1] == users[k]);
                    }
                }
            }
            if forall|k: int| 0 <= k < users.len() ==> (#[trigger] users[k]).user != user {
                assert forall|k: int|
                    0 <= k < users.drop_first().len() implies (
                    #[trigger] users.drop_first()[k]).user != user by {
                    assert(users.drop_first()[k] == users[k + 1]);
                }
            }
        }
    }

    proof fn lemma_find_user_first(users: Seq<UserRewards>, user: AccountId, i: int)
        requires
            0 <= i < users.len(),
            users[i].user == user,
            forall|k: int| 0 <= k < i ==> (#[trigger] users[k]).user != user,
        ensures
            Self::spec_find_user(users, user) == Some(users[i]),
        decreases i,
    {
        if i > 0 {
            assert forall|k: int|
                0 <= k < i - 1 implies (#[trigger] users.drop_first()[k]).user != user by {
                assert(users.drop_first()[k] == users[k + 1]);
            }
            Self::lemma_find_user_first(users.drop_first(), user, i - 1);
        }
    }

    proof fn lemma_find_user_push(users: Seq<UserRewards>, rec: UserRewards, user: AccountId)
        ensures
            Self::spec_find_user(users.push(rec), user) == (
            if Self::spec_find_user(users, user) is Some {
                Self::spec_find_user(users, user)
            } else if rec.user == user {
                Some(rec)
            } else {
                None
            }),
        decreases users.len(),
    {
        if users.len() == 0 {
            assert(users.push(rec)[0] == rec);
            assert(users.push(rec).drop_first() =~= Seq::<UserRewards>::empty());
        } else {
            assert(users.push(rec)[0] == users[0]);
            assert(users.push(rec).drop_first() =~= users.drop_first().push(rec));
            Self::lemma_find_user_push(users.drop_first(), rec, user);
        }
    }

    proof fn lemma_find_user_update(
        users: Seq<UserRewards>,
        i: int,
        rec: UserRewards,
        user: AccountId,
    )
        requires
            0 <= i < users.len(),
            users[i].user == rec.user,
            forall|k: int| 0 <= k < i ==> (#[trigger] users[k]).user != rec.user,
        ensures
            Self::spec_find_user(users.update(i, rec), user) == (
            if user == rec.user {
                Some(rec)
            } else {
                Self::spec_find_user(users, user)
            }),
        decreases i,
    {
        let updated = users.update(i, rec);
        if i == 0 {
            if user != rec.user {
                assert(updated.drop_first() =~= users.drop_first());
            }
        } else {
            assert(updated[0] == users[0]);
            assert(updated.drop_first() =~= users.drop_first().update(i - 1, rec));
            assert forall|k: int|
                0 <= k < i - 1 implies (#[trigger] users.drop_first()[k]).user != rec.user by {
                assert(users.drop_first()[k] == users[k + 1]);
            }
            Self::lemma_find_user_update(users.drop_first(), i - 1, rec, user);
        }
    }

    // -- construction --------------------------------------------------------

    /// A fresh, not yet initialized deployment: no state, no records, an
    /// empty ledger.
    pub fn new() -> (r: RewardsProgram)
        ensures
            r.wf(),
            !r.initialized(),
            r.transactions@.len() == 0,
            r.users@.len() == 0,
            forall|u: AccountId| #[trigger] r.balance_of(u) == 0,
    {
        RewardsProgram {
            state: None,
            transactions: Vec::new(),
            users: Vec::new(),
            ledger: TokenLedger::new(0, None),
        }
    }

    /// One-time setup: configures the reward-token mint and writes the
    /// singleton state with the default reward rate. Fails, touching
    /// nothing, if the state already exists.
    pub fn initialize_mint(
        &mut self,
        mint: AccountId,
        decimals: u8,
        mint_authority: AccountId,
        freeze_authority: Option<AccountId>,
        admin: AccountId,
    ) -> (r: Result<(), ErrorCode>)
        requires
            old(self).wf(),
        ensures
            final(self).wf(),
            old(self).initialized() ==> r == Err::<(), ErrorCode>(ErrorCode::AlreadyInitialized)
                && *final(self) == *old(self),
            !old(self).initialized() ==> {
                &&& r == Ok::<(), ErrorCode>(())
                &&& final(self).initialized()
                &&& final(self).st() == (ProgramState {
                    mint,
                    mint_authority,
                    total_minted: 0,
                    total_transactions: 0,
                    reward_rate: DEFAULT_REWARD_RATE_BPS,
                    admin,
                })
                &&& final(self).transactions@ == old(self).transactions@
                &&& final(self).users@ == old(self).users@
                &&& final(self).ledger.accounts@ == old(self).ledger.accounts@
                &&& final(self).ledger.decimals == decimals
                &&& final(self).ledger.freeze_authority == freeze_authority
            },
    {
        if self.is_initialized() {
            return Err(ErrorCode::AlreadyInitialized);
        }
        self.state = Some(
            ProgramState {
                mint,
                mint_authority,
                total_minted: 0,
                total_transactions: 0,
                reward_rate: DEFAULT_REWARD_RATE_BPS,
                admin,
            },
        );
        self.ledger.decimals = decimals;
        self.ledger.freeze_authority = freeze_authority;
        proof {
            Self::lemma_unchanged_records_preserve_totals(*old(self), *self);
        }
        Ok(())
    }

    /// Two system states with the same stored records and the same ledger
    /// accounts agree on every user's totals and balance.
    proof fn lemma_unchanged_records_preserve_totals(pre: RewardsProgram, post: RewardsProgram)
        requires
            pre.users@ == post.users@,
            pre.ledger.accounts@ == post.ledger.accounts@,
        ensures
            forall|u: AccountId| #[trigger] post.earned(u) == pre.earned(u),
            forall|u: AccountId| #[trigger] post.redeemed(u) == pre.redeemed(u),
            forall|u: AccountId| #[trigger] post.tx_count(u) == pre.tx_count(u),
            forall|u: AccountId| #[trigger] post.balance_of(u) == pre.balance_of(u),
    {
        assert forall|u: AccountId| #[trigger] post.earned(u) == pre.earned(u) by {
            assert(Self::spec_find_user(post.users@, u) == Self::spec_find_user(pre.users@, u));
        }
        assert forall|u: AccountId| #[trigger] post.redeemed(u) == pre.redeemed(u) by {
            assert(Self::spec_find_user(post.users@, u) == Self::spec_find_user(pre.users@, u));
        }
        assert forall|u: AccountId| #[trigger] post.tx_count(u) == pre.tx_count(u) by {
            assert(Self::spec_find_user(post.users@, u) == Self::spec_find_user(pre.users@, u));
        }
        assert forall|u: AccountId| #[trigger] post.balance_of(u) == pre.balance_of(u) by {
            assert(TokenLedger::spec_find_account(post.ledger.accounts@, u)
                == TokenLedger::spec_find_account(pre.ledger.accounts@, u));
        }
    }

    // -- read-only accessors -------------------------------------------------

    /// Whether the singleton state exists yet.
    pub fn is_initialized(&self) -> (r: bool)
        ensures
            r == self.initialized(),
    {
        self.state.is_some()
    }

    /// The current reward rate, in basis points.
    pub fn reward_rate(&self) -> (r: u16)
        requires
            self.initialized(),
        ensures
            r == self.st().reward_rate,
    {
        self.state.unwrap().reward_rate
    }

    /// Lifetime total of reward credit ever minted.
    pub fn total_minted(&self) -> (r: u64)
        requires
            self.initialized(),
        ensures
            r == self.st().total_minted,
    {
        self.state.unwrap().total_minted
    }

    /// Lifetime count of transactions processed.
    pub fn total_transactions(&self) -> (r: u64)
        requires
            self.initialized(),
        ensures
            r == self.st().total_transactions,
    {
        self.state.unwrap().total_transactions
    }

    /// The configured administrator.
    pub fn admin(&self) -> (r: AccountId)
        requires
            self.initialized(),
        ensures
            r == self.st().admin,
    {
        self.state.unwrap().admin
    }

    /// The index of the stored record for `transaction_id`, found by its
    /// derived key: the scan compares keys, and key injectivity carries the
    /// match back to the identifier itself.
    fn find_tx_index(&self, transaction_id: &Vec<u8>) -> (r: Option<usize>)
        requires
            self.wf(),
            transaction_id@.len() <= MAX_TRANSACTION_ID_BYTES,
        ensures
            match r {
                Some(i) => i < self.transactions@.len()
                    && self.transactions@[i as int].record.transaction_id@ == transaction_id@
                    && Self::spec_find_tx(self.transactions@, transaction_id@) == Some(
                    self.transactions@[i as int].record,
                ),
                None => Self::spec_find_tx(self.transactions@, transaction_id@) is None,
            },
    {
        let target = transaction_key(transaction_id);
        let mut i: usize = 0;
        while i < self.transactions.len()
            invariant
                self.wf(),
                i <= self.transactions@.len(),
                transaction_id@.len() <= MAX_TRANSACTION_ID_BYTES,
                target@ == spec_transaction_key(transaction_id@),
                forall|k: int|
                    0 <= k < i ==> (#[trigger] self.transactions@[k]).record.transaction_id@
                        != transaction_id@,
            decreases self.transactions@.len() - i,
        {
            if bytes_eq(&self.transactions[i].key, &target) {
                proof {
                    let stored = self.transactions@[i as int].record.transaction_id@;
                    assert(self.transactions@[i as int].key@ == spec_transaction_key(stored));
                    assert(stored.len() <= MAX_TRANSACTION_ID_BYTES);
                    assert(transaction_id@.len() <= MAX_TRANSACTION_ID_BYTES);
                    assert(stored.len() <= u64::MAX && transaction_id@.len() <= u64::MAX);
                    lemma_transaction_key_injective(stored, transaction_id@);
                    Self::lemma_find_tx_first(self.transactions@, transaction_id@, i as int);
                }
                return Some(i);
            }
            proof {
                if self.transactions@[i as int].record.transaction_id@ == transaction_id@ {
                    assert(self.transactions@[i as int].key@ == spec_transaction_key(
                        transaction_id@,
                    ));
                    assert(false);
                }
            }
            i = i + 1;
        }
        proof {
            Self::lemma_find_tx_none(self.transactions@, transaction_id@);
        }
        None
    }

    /// Whether `transaction_id` has already been processed.
    pub fn transaction_processed(&self, transaction_id: &Vec<u8>) -> (r: bool)
        requires
            self.wf(),
        ensures
            r == self.tx_processed(transaction_id@),
    {
        if transaction_id.len() > MAX_TRANSACTION_ID_BYTES {
            // Stored identifiers never exceed the bound, so an over-long
            // identifier cannot have been processed.
            proof {
                Self::lemma_find_tx_none(self.transactions@, transaction_id@);
                assert forall|k: int|
                    0 <= k < self.transactions@.len() implies (
                    #[trigger] self.transactions@[k]).record.transaction_id@
                    != transaction_id@ by {
                    assert(self.transactions@[k].record.transaction_id@.len()
                        <= MAX_TRANSACTION_ID_BYTES);
                }
            }
            return false;
        }
        match self.find_tx_index(transaction_id) {
            Some(i) => self.transactions[i].record.is_processed,
            None => false,
        }
    }

    /// The index of the statistics record for `user`, if any.
    fn find_user_index(&self, user: AccountId) -> (r: Option<usize>)
        ensures
            match r {
                Some(i) => i < self.users@.len() && self.users@[i as int].user == user
                    && Self::spec_find_user(self.users@, user) == Some(self.users@[i as int]) && (
                forall|k: int| 0 <= k < i ==> (#[trigger] self.users@[k]).user != user),
                None => Self::spec_find_user(self.users@, user) is None,
            },
    {
        let mut i: usize = 0;
        while i < self.users.len()
            invariant
                i <= self.users@.len(),
                forall|k: int| 0 <= k < i ==> (#[trigger] self.users@[k]).user != user,
            decreases self.users@.len() - i,
        {
            if self.users[i].user == user {
                proof {
                    Self::lemma_find_user_first(self.users@, user, i as int);
                }
                return Some(i);
            }
            i = i + 1;
        }
        proof {
            Self::lemma_find_user_none(self.users@, user);
        }
        None
    }

    /// Read-only projection of `user`'s statistics and live balance.
    pub fn get_user_stats(&self, user: AccountId) -> (s: UserStats)
        ensures
            s.total_earned == self.earned(user),
            s.total_redeemed == self.redeemed(user),
            s.current_balance == self.balance_of(user),
            s.transaction_count == self.tx_count(user),
    {
        let current_balance = self.ledger.balance_of(user);
        match self.find_user_index(user) {
            Some(i) => {
                let rec = self.users[i];
                UserStats {
                    total_earned: rec.total_earned,
                    total_redeemed: rec.total_redeemed,
                    current_balance,
                    transaction_count: rec.transaction_count,
                }
            },
            None => UserStats {
                total_earned: 0,
                total_redeemed: 0,
                current_balance,
                transaction_count: 0,
            },
        }
    }

    // -- reward issuance -----------------------------------------------------

    /// Issues the reward for one payment transaction: validates the request,
    /// computes `floor(amount * rate / 10000)`, mints that credit to the
    /// caller via the ledger, writes the permanent transaction record at its
    /// derived key, and accumulates the caller's statistics — all as one
    /// unit. Any fault leaves the whole system untouched; a repeated
    /// identifier is rejected deterministically, never processed twice.
    pub fn mint_rewards(
        &mut self,
        user: AccountId,
        amount: u64,
        transaction_id: Vec<u8>,
        timestamp: i64,
    ) -> (r: Result<RewardMinted, ErrorCode>)
        requires
            old(self).wf(),
            old(self).initialized(),
        ensures
            final(self).wf(),
            final(self).initialized(),
            final(self).st().admin == old(self).st().admin,
            final(self).st().mint == old(self).st().mint,
            final(self).st().mint_authority == old(self).st().mint_authority,
            final(self).st().reward_rate == old(self).st().reward_rate,
            ({
                let pre = *old(self);
                let reward = spec_reward(amount, pre.st().reward_rate);
                &&& (amount == 0 ==> r == Err::<RewardMinted, ErrorCode>(ErrorCode::InvalidAmount)
                    && *final(self) == pre)
                &&& (amount > 0 && transaction_id@.len() > MAX_TRANSACTION_ID_BYTES ==> r
                    == Err::<RewardMinted, ErrorCode>(ErrorCode::TransactionIdTooLong) && *final(self) == pre)
                &&& (amount > 0 && transaction_id@.len() <= MAX_TRANSACTION_ID_BYTES
                    && pre.tx_processed(transaction_id@) ==> r == Err::<RewardMinted, ErrorCode>(
                    ErrorCode::TransactionAlreadyProcessed,
                ) && *final(self) == pre)
                &&& (amount > 0 && transaction_id@.len() <= MAX_TRANSACTION_ID_BYTES
                    && !pre.tx_processed(transaction_id@) && reward == 0 ==> r == Err::<
                    RewardMinted,
                    ErrorCode,
                >(ErrorCode::RewardTooSmall) && *final(self) == pre)
                &&& (amount > 0 && transaction_id@.len() <= MAX_TRANSACTION_ID_BYTES
                    && !pre.tx_processed(transaction_id@) && reward > 0 && !pre.mint_fits(
                    user,
                    reward,
                ) ==> r == Err::<RewardMinted, ErrorCode>(ErrorCode::ArithmeticOverflow) && *final(self) == pre)
                &&& (amount > 0 && transaction_id@.len() <= MAX_TRANSACTION_ID_BYTES
                    && !pre.tx_processed(transaction_id@) && reward > 0 && pre.mint_fits(
                    user,
                    reward,
                ) ==> {
                    &&& (r matches Ok(ev) && ev.user == user && ev.transaction_id@
                        == transaction_id@ && ev.amount == amount && ev.reward_amount == reward
                        && ev.timestamp == timestamp)
                    &&& final(self).st().total_minted == pre.st().total_minted + reward
                    &&& final(self).st().total_transactions == pre.st().total_transactions + 1
                    &&& final(self).tx_processed(transaction_id@)
                    &&& (Self::spec_find_tx(final(self).transactions@, transaction_id@) matches Some(
                        rec,
                    ) && rec.user == user && rec.amount == amount && rec.reward_amount == reward
                        && rec.timestamp == timestamp && rec.is_processed)
                    &&& final(self).transactions@.len() == pre.transactions@.len() + 1
                    &&& final(self).earned(user) == pre.earned(user) + reward
                    &&& final(self).redeemed(user) == pre.redeemed(user)
                    &&& final(self).tx_count(user) == pre.tx_count(user) + 1
                    &&& final(self).balance_of(user) == pre.balance_of(user) + reward
                    &&& (forall|v: AccountId|
                        v != user ==> (#[trigger] final(self).earned(v)) == pre.earned(v) && final(self).redeemed(v) == pre.redeemed(v) && final(self).tx_count(v) == pre.tx_count(
                            v,
                        ) && final(self).balance_of(v) == pre.balance_of(v))
                    &&& (forall|oid: Seq<u8>|
                        oid != transaction_id@ ==> (#[trigger] final(self).tx_processed(oid))
                            == pre.tx_processed(oid))
                })
            }),
    {
        if amount == 0 {
            return Err(ErrorCode::InvalidAmount);
        }
        if transaction_id.len() > MAX_TRANSACTION_ID_BYTES {
            return Err(ErrorCode::TransactionIdTooLong);
        }
        if self.transaction_processed(&transaction_id) {
            return Err(ErrorCode::TransactionAlreadyProcessed);
        }
        let st = self.state.unwrap();
        let reward = compute_reward(amount, st.reward_rate);
        if reward == 0 {
            return Err(ErrorCode::RewardTooSmall);
        }
        // Every audit addition is checked before anything is written: a
        // counter that would overflow faults the whole operation.
        let new_total_minted = match st.total_minted.checked_add(reward) {
            Some(v) => v,
            None => {
                return Err(ErrorCode::ArithmeticOverflow);
            },
        };
        let new_total_transactions = match st.total_transactions.checked_add(1) {
            Some(v) => v,
            None => {
                return Err(ErrorCode::ArithmeticOverflow);
            },
        };
        let user_idx = self.find_user_index(user);
        let (earned0, redeemed0, count0): (u64, u64, u64) = match user_idx {
            Some(i) => {
                let rec = self.users[i];
                (rec.total_earned, rec.total_redeemed, rec.transaction_count)
            },
            None => (0, 0, 0),
        };
        let new_earned = match earned0.checked_add(reward) {
            Some(v) => v,
            None => {
                return Err(ErrorCode::ArithmeticOverflow);
            },
        };
        let new_count = match count0.checked_add(1) {
            Some(v) => v,
            None => {
                return Err(ErrorCode::ArithmeticOverflow);
            },
        };
        // Commit: the singleton state,
        self.state = Some(
            ProgramState {
                mint: st.mint,
                mint_authority: st.mint_authority,
                total_minted: new_total_minted,
                total_transactions: new_total_transactions,
                reward_rate: st.reward_rate,
                admin: st.admin,
            },
        );
        // ... the permanent audit record at its derived key,
        let key = transaction_key(&transaction_id);
        let record = TransactionRecord {
            transaction_id: copy_bytes(&transaction_id),
            user,
            amount,
            reward_amount: reward,
            timestamp,
            is_processed: true,
        };
        let entry = TxEntry { key, record };
        self.transactions.push(entry);
        // ... the caller's statistics, created on first issuance,
        let new_rec = UserRewards {
            user,
            total_earned: new_earned,
            total_redeemed: redeemed0,
            transaction_count: new_count,
        };
        match user_idx {
            Some(i) => {
                self.users.set(i, new_rec);
            },
            None => {
                self.users.push(new_rec);
            },
        }
        proof {
            // The credited balance still fits: what the user holds never
            // exceeds what they earned (conservation), and the earned total
            // was just checked.
            let pre = *old(self);
            assert(pre.earned(user) as int == pre.redeemed(user) as int + pre.balance_of(
                user,
            ) as int);
            assert(pre.earned(user) == earned0);
        }
        // ... and the mint itself, through the ledger capability.
        self.ledger.mint_to(user, reward);
        proof {
            let pre = *old(self);
            let id = transaction_id@;
            // The stored record set grew by exactly the new entry.
            assert(self.transactions@ == pre.transactions@.push(entry));
            assert(entry.record.transaction_id@ == id);
            // A processed identifier would have been found: the slot was free.
            if Self::spec_find_tx(pre.transactions@, id) is Some {
                Self::lemma_find_tx_some(pre.transactions@, id);
                let k = choose|k: int|
                    0 <= k < pre.transactions@.len() && (#[trigger] pre.transactions@[k]).record
                        == Self::spec_find_tx(pre.transactions@, id).unwrap()
                        && pre.transactions@[k].record.transaction_id@ == id;
                assert(pre.transactions@[k].record.is_processed);
                assert(false);
            }
            Self::lemma_find_tx_none(pre.transactions@, id);
            // Record-store invariants carry over to the grown store.
            assert forall|i: int|
                0 <= i < self.transactions@.len() implies (
                #[trigger] self.transactions@[i]).record.is_processed
                && self.transactions@[i].record.transaction_id@.len() <= MAX_TRANSACTION_ID_BYTES
                && self.transactions@[i].key@ == spec_transaction_key(
                self.transactions@[i].record.transaction_id@,
            ) by {
                if i < pre.transactions@.len() {
                    assert(self.transactions@[i] == pre.transactions@[i]);
                } else {
                    assert(self.transactions@[i] == entry);
                }
            }
            assert forall|i: int, j: int|
                0 <= i < j < self.transactions@.len() implies (
                #[trigger] self.transactions@[i]).record.transaction_id@ != (
                #[trigger] self.transactions@[j]).record.transaction_id@ by {
                if j < pre.transactions@.len() {
                    assert(pre.transactions@[i].record.transaction_id@
                        != pre.transactions@[j].record.transaction_id@);
                } else {
                    assert(pre.transactions@[i].record.transaction_id@ != id);
                }
            }
            // How lookups read the grown store: the new identifier is found,
            // every other identifier reads as before.
            assert forall|oid: Seq<u8>| #[trigger]
                Self::spec_find_tx(self.transactions@, oid) == (
                if oid == id {
                    Some(entry.record)
                } else {
                    Self::spec_find_tx(pre.transactions@, oid)
                }) by {
                Self::lemma_find_tx_push(pre.transactions@, entry, oid);
            }
            // How lookups read the updated user store.
            if user_idx is Some {
                let i = user_idx.unwrap() as int;
                assert(self.users@ == pre.users@.update(i, new_rec));
                assert forall|v: AccountId| #[trigger]
                    Self::spec_find_user(self.users@, v) == (
                    if v == user {
                        Some(new_rec)
                    } else {
                        Self::spec_find_user(pre.users@, v)
                    }) by {
                    Self::lemma_find_user_update(pre.users@, i, new_rec, v);
                }
                assert forall|a: int, b: int|
                    0 <= a < b < self.users@.len() implies (#[trigger] self.users@[a]).user != (
                    #[trigger] self.users@[b]).user by {
                    assert(self.users@[a].user == pre.users@[a].user);
                    assert(self.users@[b].user == pre.users@[b].user);
                }
            } else {
                assert(self.users@ == pre.users@.push(new_rec));
                Self::lemma_find_user_none(pre.users@, user);
                assert forall|v: AccountId| #[trigger]
                    Self::spec_find_user(self.users@, v) == (
                    if v == user {
                        Some(new_rec)
                    } else {
                        Self::spec_find_user(pre.users@, v)
                    }) by {
                    Self::lemma_find_user_push(pre.users@, new_rec, v);
                }
                assert forall|a: int, b: int|
                    0 <= a < b < self.users@.len() implies (#[trigger] self.users@[a]).user != (
                    #[trigger] self.users@[b]).user by {
                    if b < pre.users@.len() {
                        assert(pre.users@[a].user != pre.users@[b].user);
                    } else {
                        assert(pre.users@[a].user != user);
                    }
                }
            }
            // Conservation holds in the new state: the issued reward lands in
            // both the earned total and the balance.
            assert forall|v: AccountId|
                (#[trigger] self.earned(v)) as int == self.redeemed(v) as int + self.balance_of(
                    v,
                ) as int by {
                assert(pre.earned(v) as int == pre.redeemed(v) as int + pre.balance_of(v) as int);
                if v == user {
                    assert(Self::spec_find_user(self.users@, v) == Some(new_rec));
                    assert(pre.earned(user) == earned0 && pre.redeemed(user) == redeemed0);
                    assert(self.ledger.spec_balance_of(user) as int == pre.balance_of(
                        user,
                    ) as int + reward);
                } else {
                    assert(Self::spec_find_user(self.users@, v) == Self::spec_find_user(
                        pre.users@,
                        v,
                    ));
                    assert(self.ledger.spec_balance_of(v) == pre.ledger.spec_balance_of(v));
                }
            }
            // The remaining contracted frame facts.
            assert(pre.earned(user) == earned0 && pre.redeemed(user) == redeemed0 && pre.tx_count(
                user,
            ) == count0);
            assert forall|v: AccountId|
                v != user implies (#[trigger] self.earned(v)) == pre.earned(v) && self.redeemed(v)
                    == pre.redeemed(v) && self.tx_count(v) == pre.tx_count(v) && self.balance_of(v)
                    == pre.balance_of(v) by {
                assert(Self::spec_find_user(self.users@, v) == Self::spec_find_user(
                    pre.users@,
                    v,
                ));
                assert(self.ledger.spec_balance_of(v) == pre.ledger.spec_balance_of(v));
            }
        }
        Ok(RewardMinted { user, transaction_id, amount, reward_amount: reward, timestamp })
    }

    // -- redemption ----------------------------------------------------------

    /// Redeems (burns) `amount` of the caller's credit. The caller's live
    /// ledger balance — not the cached earned total — must cover the amount;
    /// on success the burn and the statistics update commit together, and a
    /// redemption of the entire balance leaves exactly zero.
    pub fn redeem_rewards(&mut self, user: AccountId, amount: u64, timestamp: i64) -> (r: Result<
        RewardRedeemed,
        ErrorCode,
    >)
        requires
            old(self).wf(),
            old(self).initialized(),
        ensures
            final(self).wf(),
            final(self).initialized(),
            final(self).st() == old(self).st(),
            final(self).transactions@ == old(self).transactions@,
            amount == 0 ==> r == Err::<RewardRedeemed, ErrorCode>(ErrorCode::InvalidAmount)
                && *final(self) == *old(self),
            amount > 0 && amount > old(self).balance_of(user) ==> r == Err::<
                RewardRedeemed,
                ErrorCode,
            >(ErrorCode::InsufficientBalance) && *final(self) == *old(self),
            amount > 0 && amount <= old(self).balance_of(user) ==> {
                &&& r == Ok::<RewardRedeemed, ErrorCode>(RewardRedeemed { user, amount, timestamp })
                &&& final(self).balance_of(user) as int == old(self).balance_of(user) as int
                    - amount
                &&& final(self).redeemed(user) == old(self).redeemed(user) + amount
                &&& final(self).earned(user) == old(self).earned(user)
                &&& final(self).tx_count(user) == old(self).tx_count(user)
                &&& (forall|v: AccountId|
                    v != user ==> (#[trigger] final(self).earned(v)) == old(self).earned(v)
                        && final(self).redeemed(v) == old(self).redeemed(v) && final(self).tx_count(v) == old(self).tx_count(v) && final(self).balance_of(v) == old(self).balance_of(v))
            },
            amount > 0 && amount == old(self).balance_of(user) ==> r is Ok && final(self).balance_of(user) == 0,
    {
        if amount == 0 {
            return Err(ErrorCode::InvalidAmount);
        }
        let current_balance = self.ledger.balance_of(user);
        if current_balance < amount {
            return Err(ErrorCode::InsufficientBalance);
        }
        // A positive balance was necessarily earned here, so the statistics
        // record exists (conservation).
        let user_idx: usize = match self.find_user_index(user) {
            Some(i) => i,
            None => {
                proof {
                    assert(old(self).earned(user) as int == old(self).redeemed(user) as int + old(self).balance_of(user) as int);
                }
                vstd::pervasive::unreached()
            },
        };
        let rec = self.users[user_idx];
        proof {
            // The redeemed total cannot overflow: it stays bounded by the
            // earned total.
            assert(old(self).earned(user) as int == old(self).redeemed(user) as int + old(self).balance_of(user) as int);
            assert(rec.total_earned == old(self).earned(user) && rec.total_redeemed == old(self).redeemed(user));
        }
        let new_rec = UserRewards {
            user,
            total_earned: rec.total_earned,
            total_redeemed: rec.total_redeemed + amount,
            transaction_count: rec.transaction_count,
        };
        self.users.set(user_idx, new_rec);
        // Burn through the ledger capability: the user spends their own
        // holding.
        self.ledger.burn(user, amount);
        proof {
            let pre = *old(self);
            assert(self.users@ == pre.users@.update(user_idx as int, new_rec));
            assert forall|v: AccountId| #[trigger]
                Self::spec_find_user(self.users@, v) == (
                if v == user {
                    Some(new_rec)
                } else {
                    Self::spec_find_user(pre.users@, v)
                }) by {
                Self::lemma_find_user_update(pre.users@, user_idx as int, new_rec, v);
            }
            assert forall|a: int, b: int|
                0 <= a < b < self.users@.len() implies (#[trigger] self.users@[a]).user != (
                #[trigger] self.users@[b]).user by {
                assert(self.users@[a].user == pre.users@[a].user);
                assert(self.users@[b].user == pre.users@[b].user);
            }
            assert forall|v: AccountId|
                (#[trigger] self.earned(v)) as int == self.redeemed(v) as int + self.balance_of(
                    v,
                ) as int by {
                assert(pre.earned(v) as int == pre.redeemed(v) as int + pre.balance_of(v) as int);
                if v == user {
                    assert(Self::spec_find_user(self.users@, v) == Some(new_rec));
                    assert(self.ledger.spec_balance_of(user) as int == pre.balance_of(
                        user,
                    ) as int - amount);
                } else {
                    assert(Self::spec_find_user(self.users@, v) == Self::spec_find_user(
                        pre.users@,
                        v,
                    ));
                    assert(self.ledger.spec_balance_of(v) == pre.ledger.spec_balance_of(v));
                }
            }
            assert forall|v: AccountId|
                v != user implies (#[trigger] self.earned(v)) == pre.earned(v) && self.redeemed(v)
                    == pre.redeemed(v) && self.tx_count(v) == pre.tx_count(v) && self.balance_of(v)
                    == pre.balance_of(v) by {
                assert(Self::spec_find_user(self.users@, v) == Self::spec_find_user(
                    pre.users@,
                    v,
                ));
                assert(self.ledger.spec_balance_of(v) == pre.ledger.spec_balance_of(v));
            }
        }
        Ok(RewardRedeemed { user, amount, timestamp })
    }

    // -- policy administration -----------------------------------------------

    /// Replaces the reward rate. Only the configured administrator may do
    /// so, and only with a rate within the policy maximum; any other request
    /// faults and touches nothing.
    pub fn update_reward_rate(&mut self, caller: AccountId, new_rate: u16) -> (r: Result<
        (),
        ErrorCode,
    >)
        requires
            old(self).wf(),
            old(self).initialized(),
        ensures
            final(self).wf(),
            final(self).initialized(),
            caller != old(self).st().admin ==> r == Err::<(), ErrorCode>(ErrorCode::Unauthorized)
                && *final(self) == *old(self),
            caller == old(self).st().admin && new_rate > MAX_REWARD_RATE_BPS ==> r == Err::<
                (),
                ErrorCode,
            >(ErrorCode::RewardRateTooHigh) && *final(self) == *old(self),
            caller == old(self).st().admin && new_rate <= MAX_REWARD_RATE_BPS ==> {
                &&& r == Ok::<(), ErrorCode>(())
                &&& final(self).st() == (ProgramState {
                    reward_rate: new_rate,
                    ..old(self).st()
                })
                &&& final(self).transactions@ == old(self).transactions@
                &&& final(self).users@ == old(self).users@
                &&& final(self).ledger == old(self).ledger
            },
    {
        let st = self.state.unwrap();
        if caller != st.admin {
            return Err(ErrorCode::Unauthorized);
        }
        if new_rate > MAX_REWARD_RATE_BPS {
            return Err(ErrorCode::RewardRateTooHigh);
        }
        self.state = Some(
            ProgramState {
                mint: st.mint,
                mint_authority: st.mint_authority,
                total_minted: st.total_minted,
                total_transactions: st.total_transactions,
                reward_rate: new_rate,
                admin: st.admin,
            },
        );
        proof {
            Self::lemma_unchanged_records_preserve_totals(*old(self), *self);
        }
        Ok(())
    }
}

} // verus!
