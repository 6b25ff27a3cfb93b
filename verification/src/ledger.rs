use vstd::prelude::*;

use crate::account::AccountId;

verus! {

// ---------------------------------------------------------------------------
// A model of the external fungible-token ledger, the collaborator that
// actually holds balances. The engine drives it through three capabilities:
// mint (program-authorized), burn (owner-authorized) and a balance read. The
// ledger's internals (supply accounting, transfer authorization) are not this
// library's subject; the model states exactly what the engine relies on.
// ---------------------------------------------------------------------------

/// One token account: an owner and what they hold.
#[derive(Clone, Copy, Debug, PartialEq, Eq, Structural)]
pub struct TokenAccount {
    pub owner: AccountId,
    pub balance: u64,
}

/// The reward-token ledger: the mint's configuration and one token account
/// per owner, created on first credit.
#[derive(Clone, Debug, PartialEq, Eq)]
pub struct TokenLedger {
    pub decimals: u8,
    pub freeze_authority: Option<AccountId>,
    pub accounts: Vec<TokenAccount>,
}

impl TokenLedger {
    /// Each owner has at most one token account.
    pub open spec fn wf(self) -> bool {
        forall|i: int, j: int|
            0 <= i < j < self.accounts@.len() ==> (#[trigger] self.accounts@[i]).owner != (
            #[trigger] self.accounts@[j]).owner
    }

    /// The first account of `owner` in the list, if any.
    pub open spec fn spec_find_account(accounts: Seq<TokenAccount>, owner: AccountId) -> Option<
        TokenAccount,
    >
        decreases accounts.len(),
    {
        if accounts.len() == 0 {
            None
        } else if accounts[0].owner == owner {
            Some(accounts[0])
        } else {
            Self::spec_find_account(accounts.drop_first(), owner)
        }
    }

    /// What `owner` holds; an owner without an account holds nothing.
    pub open spec fn spec_balance_of(self, owner: AccountId) -> u64 {
        match Self::spec_find_account(self.accounts@, owner) {
            Some(a) => a.balance,
            None => 0,
        }
    }

    /// A fresh ledger for a newly initialized mint: no accounts yet.
    pub fn new(decimals: u8, freeze_authority: Option<AccountId>) -> (r: TokenLedger)
        ensures
            r.wf(),
            r.decimals == decimals,
            r.freeze_authority == freeze_authority,
            r.accounts@.len() == 0,
            forall|o: AccountId| #[trigger] r.spec_balance_of(o) == 0,
    {
        TokenLedger { decimals, freeze_authority, accounts: Vec::new() }
    }

    proof fn lemma_find_account_none(accounts: Seq<TokenAccount>, owner: AccountId)
        ensures
            (Self::spec_find_account(accounts, owner) is None) <==> (forall|k: int|
                0 <= k < accounts.len() ==> (#[trigger] accounts[k]).owner != owner),
        decreases accounts.len(),
    {
        if accounts.len() > 0 {
            Self::lemma_find_account_none(accounts.drop_first(), owner);
            if Self::spec_find_account(accounts, owner) is None {
                assert forall|k: int|
                    0 <= k < accounts.len() implies (#[trigger] accounts[k]).owner != owner by {
                    if k > 0 {
                        assert(accounts.drop_first()[k - 1] == accounts[k]);
                    }
                }
            }
            if forall|k: int| 0 <= k < accounts.len() ==> (#[trigger] accounts[k]).owner != owner {
                assert forall|k: int|
                    0 <= k < accounts.drop_first().len() implies (
                    #[trigger] accounts.drop_first()[k]).owner != owner by {
                    assert(accounts.drop_first()[k] == accounts[k + 1]);
                }
            }
        }
    }

    proof fn lemma_find_account_first(accounts: Seq<TokenAccount>, owner: AccountId, i: int)
        requires
            0 <= i < accounts.len(),
            accounts[i].owner == owner,
            forall|k: int| 0 <= k < i ==> (#[trigger] accounts[k]).owner != owner,
        ensures
            Self::spec_find_account(accounts, owner) == Some(accounts[i]),
        decreases i,
    {
        if i > 0 {
            Self::lemma_find_account_first(accounts.drop_first(), owner, i - 1);
            assert forall|k: int|
                0 <= k < accounts.drop_first().len() implies #[trigger] accounts.drop_first()[k]
                == accounts[k + 1] by {}
        }
    }

    proof fn lemma_find_account_push(
        accounts: Seq<TokenAccount>,
        acct: TokenAccount,
        owner: AccountId,
    )
        ensures
            Self::spec_find_account(accounts.push(acct), owner) == (
            if Self::spec_find_account(accounts, owner) is Some {
                Self::spec_find_account(accounts, owner)
            } else if acct.owner == owner {
                Some(acct)
            } else {
                None
            }),
        decreases accounts.len(),
    {
        if accounts.len() == 0 {
            assert(accounts.push(acct)[0] == acct);
            assert(accounts.push(acct).drop_first() =~= Seq::<TokenAccount>::empty());
        } else {
            assert(accounts.push(acct)[0] == accounts[0]);
            assert(accounts.push(acct).drop_first() =~= accounts.drop_first().push(acct));
            Self::lemma_find_account_push(accounts.drop_first(), acct, owner);
        }
    }

    proof fn lemma_find_account_update(
        accounts: Seq<TokenAccount>,
        i: int,
        acct: TokenAccount,
        owner: AccountId,
    )
        requires
            0 <= i < accounts.len(),
            accounts[i].owner == acct.owner,
            forall|k: int| 0 <= k < i ==> (#[trigger] accounts[k]).owner != acct.owner,
        ensures
            Self::spec_find_account(accounts.update(i, acct), owner) == (
            if owner == acct.owner {
                Some(acct)
            } else {
                Self::spec_find_account(accounts, owner)
            }),
        decreases i,
    {
        let updated = accounts.update(i, acct);
        if i == 0 {
            if owner != acct.owner {
                assert(updated.drop_first() =~= accounts.drop_first());
            }
        } else {
            assert(updated[0] == accounts[0]);
            assert(updated.drop_first() =~= accounts.drop_first().update(i - 1, acct));
            assert forall|k: int|
                0 <= k < i - 1 implies (#[trigger] accounts.drop_first()[k]).owner
                != acct.owner by {
                assert(accounts.drop_first()[k] == accounts[k + 1]);
            }
            Self::lemma_find_account_update(accounts.drop_first(), i - 1, acct, owner);
        }
    }

    /// The index of `owner`'s account, if one exists.
    fn find_index(&self, owner: AccountId) -> (r: Option<usize>)
        ensures
            match r {
                Some(i) => i < self.accounts@.len() && self.accounts@[i as int].owner == owner
                    && Self::spec_find_account(self.accounts@, owner) == Some(
                    self.accounts@[i as int],
                ) && (forall|k: int|
                    0 <= k < i ==> (#[trigger] self.accounts@[k]).owner != owner),
                None => Self::spec_find_account(self.accounts@, owner) is None,
            },
    {
        let mut i: usize = 0;
        while i < self.accounts.len()
            invariant
                i <= self.accounts@.len(),
                forall|k: int| 0 <= k < i ==> (#[trigger] self.accounts@[k]).owner != owner,
            decreases self.accounts@.len() - i,
        {
            if self.accounts[i].owner == owner {
                proof {
                    Self::lemma_find_account_first(self.accounts@, owner, i as int);
                }
                return Some(i);
            }
            i = i + 1;
        }
        proof {
            Self::lemma_find_account_none(self.accounts@, owner);
        }
        None
    }

    /// Live balance read: what `owner` currently holds.
    pub fn balance_of(&self, owner: AccountId) -> (r: u64)
        ensures
            r == self.spec_balance_of(owner),
    {
        match self.find_index(owner) {
            Some(i) => self.accounts[i].balance,
            None => 0,
        }
    }

    /// Mint capability: credits `amount` to `owner`, creating the account on
    /// first use. The caller proves the credited balance still fits.
    pub fn mint_to(&mut self, owner: AccountId, amount: u64)
        requires
            old(self).wf(),
            old(self).spec_balance_of(owner) + amount <= u64::MAX,
        ensures
            final(self).wf(),
            final(self).spec_balance_of(owner) as int == old(self).spec_balance_of(owner) as int
                + amount,
            forall|o: AccountId|
                o != owner ==> #[trigger] final(self).spec_balance_of(o) == old(
                    self,
                ).spec_balance_of(o),
            final(self).decimals == old(self).decimals,
            final(self).freeze_authority == old(self).freeze_authority,
    {
        match self.find_index(owner) {
            Some(i) => {
                let acct = self.accounts[i];
                let updated = TokenAccount { owner, balance: acct.balance + amount };
                self.accounts.set(i, updated);
                proof {
                    assert forall|o: AccountId|
                        Self::spec_find_account(self.accounts@, o) == (
                        if o == owner {
                            Some(updated)
                        } else {
                            Self::spec_find_account(old(self).accounts@, o)
                        }) by {
                        Self::lemma_find_account_update(old(self).accounts@, i as int, updated, o);
                    }
                    assert forall|a: int, b: int|
                        0 <= a < b < self.accounts@.len() implies (
                        #[trigger] self.accounts@[a]).owner != (
                        #[trigger] self.accounts@[b]).owner by {
                        assert(self.accounts@[a].owner == old(self).accounts@[a].owner);
                        assert(self.accounts@[b].owner == old(self).accounts@[b].owner);
                    }
                }
            },
            None => {
                let created = TokenAccount { owner, balance: amount };
                self.accounts.push(created);
                proof {
                    assert forall|o: AccountId|
                        Self::spec_find_account(self.accounts@, o) == (
                        if o == owner {
                            Some(created)
                        } else {
                            Self::spec_find_account(old(self).accounts@, o)
                        }) by {
                        Self::lemma_find_account_push(old(self).accounts@, created, o);
                    }
                    Self::lemma_find_account_none(old(self).accounts@, owner);
                    assert forall|a: int, b: int|
                        0 <= a < b < self.accounts@.len() implies (
                        #[trigger] self.accounts@[a]).owner != (
                        #[trigger] self.accounts@[b]).owner by {
                        if b < old(self).accounts@.len() {
                            assert(old(self).accounts@[a].owner != old(self).accounts@[b].owner);
                        } else {
                            assert(old(self).accounts@[a].owner != owner);
                        }
                    }
                }
            },
        }
    }

    /// Burn capability: debits `amount` from `owner`'s own holding. The
    /// caller proves the holding covers it.
    pub fn burn(&mut self, owner: AccountId, amount: u64)
        requires
            old(self).wf(),
            amount <= old(self).spec_balance_of(owner),
        ensures
            final(self).wf(),
            final(self).spec_balance_of(owner) as int == old(self).spec_balance_of(owner) as int
                - amount,
            forall|o: AccountId|
                o != owner ==> #[trigger] final(self).spec_balance_of(o) == old(
                    self,
                ).spec_balance_of(o),
            final(self).decimals == old(self).decimals,
            final(self).freeze_authority == old(self).freeze_authority,
    {
        match self.find_index(owner) {
            Some(i) => {
                let acct = self.accounts[i];
                let updated = TokenAccount { owner, balance: acct.balance - amount };
                self.accounts.set(i, updated);
                proof {
                    assert forall|o: AccountId|
                        Self::spec_find_account(self.accounts@, o) == (
                        if o == owner {
                            Some(updated)
                        } else {
                            Self::spec_find_account(old(self).accounts@, o)
                        }) by {
                        Self::lemma_find_account_update(old(self).accounts@, i as int, updated, o);
                    }
                    assert forall|a: int, b: int|
                        0 <= a < b < self.accounts@.len() implies (
                        #[trigger] self.accounts@[a]).owner != (
                        #[trigger] self.accounts@[b]).owner by {
                        assert(self.accounts@[a].owner == old(self).accounts@[a].owner);
                        assert(self.accounts@[b].owner == old(self).accounts@[b].owner);
                    }
                }
            },
            None => {
                // No account: the precondition forces `amount == 0`.
            },
        }
    }
}

} // verus!
