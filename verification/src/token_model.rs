//! The token ledger as a mathematical state machine.
//!
//! A [`TokenState`] is the whole persistent state of the ledger. Each
//! operation is a function from a state and its arguments to either the next
//! state or the reason for which the call is refused; a refused call leaves
//! the state as it was.

use crate::sums::lemma_sum_bounds_one;
use crate::sums::lemma_sum_insert;
use crate::sums::sum_of;
use vstd::prelude::*;

verus! {

/// The part a principal plays. A principal that was never given a role is a
/// `User`.
#[derive(Clone, Copy, Debug, PartialEq, Eq, Structural)]
pub enum UserRole {
    Admin,
    Operator,
    User,
}

/// Why the ledger refused a call.
#[derive(Clone, Copy, Debug, PartialEq, Eq, Structural)]
pub enum TokenError {
    /// `initialize` on a ledger that already has an administrator.
    AlreadyInitialized,
    /// The ledger has no administrator, or no reserve attestation, yet.
    NotInitialized,
    /// The caller is not the principal that the operation is reserved for.
    Unauthorized,
    /// A party to the movement is under a compliance hold.
    AccountFrozen,
    /// The holder has less than the amount to take.
    InsufficientBalance,
}

/// The model of a reserve attestation.
pub struct ReservesView {
    pub proof_hash: Seq<char>,
    pub total_silver_grams: nat,
    pub timestamp: nat,
}

/// The model of a storage key.
pub enum DataKeyView {
    Admin,
    TotalSupply,
    Balance(Seq<u8>),
    Role(Seq<u8>),
    Frozen(Seq<u8>),
    ReservesProof,
}

/// The model of an entry of the event log.
pub enum TokenEventView {
    Mint { to: Seq<u8>, amount: nat },
    Burn { from: Seq<u8>, amount: nat },
    Transfer { from: Seq<u8>, to: Seq<u8>, amount: nat },
    Freeze { address: Seq<u8>, frozen: bool },
    RoleChanged { address: Seq<u8>, role: UserRole },
    ReservesAnchored { total_silver_grams: nat },
}

/// A call of a state-changing operation, with its caller and the time at
/// which it is made where the operation depends on them.
pub enum TokenCall {
    Initialize { admin: Seq<u8>, now: nat },
    Mint { caller: Seq<u8>, to: Seq<u8>, amount: nat, proof_hash: Seq<char>, now: nat },
    Burn { caller: Seq<u8>, from: Seq<u8>, amount: nat },
    Transfer { caller: Seq<u8>, from: Seq<u8>, to: Seq<u8>, amount: nat },
    SetFreeze { caller: Seq<u8>, address: Seq<u8>, frozen: bool },
    SetRole { caller: Seq<u8>, address: Seq<u8>, role: UserRole },
    AnchorReserves { caller: Seq<u8>, proof_hash: Seq<char>, total_silver_grams: nat, now: nat },
}

/// The persistent state of the token ledger.
pub struct TokenState {
    /// The administrator, once the ledger is initialized.
    pub admin: Option<Seq<u8>>,
    /// The number of tokens in circulation.
    pub total_supply: nat,
    /// What each holder owns. A holder without an entry owns nothing.
    pub balances: Map<Seq<u8>, nat>,
    /// The roles given out. A principal without an entry is a `User`.
    pub roles: Map<Seq<u8>, UserRole>,
    /// The compliance holds. A principal without an entry is not frozen.
    pub frozen: Map<Seq<u8>, bool>,
    /// The latest reserve attestation, once the ledger is initialized.
    pub reserves: Option<ReservesView>,
}

impl TokenState {
    /// The state of a ledger on which nothing was called yet.
    pub open spec fn uninitialized() -> TokenState {
        TokenState {
            admin: None,
            total_supply: 0,
            balances: Map::empty(),
            roles: Map::empty(),
            frozen: Map::empty(),
            reserves: None,
        }
    }

    /// What `holder` owns.
    pub open spec fn balance_of(self, holder: Seq<u8>) -> nat {
        if self.balances.dom().contains(holder) {
            self.balances[holder]
        } else {
            0
        }
    }

    /// Whether `holder` is under a compliance hold.
    pub open spec fn frozen_at(self, holder: Seq<u8>) -> bool {
        self.frozen.dom().contains(holder) && self.frozen[holder]
    }

    /// The role of `principal`.
    pub open spec fn role_of(self, principal: Seq<u8>) -> UserRole {
        if self.roles.dom().contains(principal) {
            self.roles[principal]
        } else {
            UserRole::User
        }
    }

    /// Whether the entry that `key` names was ever written.
    pub open spec fn has(self, key: DataKeyView) -> bool {
        match key {
            DataKeyView::Admin => self.admin is Some,
            DataKeyView::TotalSupply => self.admin is Some,
            DataKeyView::Balance(holder) => self.balances.dom().contains(holder),
            DataKeyView::Role(principal) => self.roles.dom().contains(principal),
            DataKeyView::Frozen(holder) => self.frozen.dom().contains(holder),
            DataKeyView::ReservesProof => self.reserves is Some,
        }
    }

    /// The invariant of the ledger: the supply is the sum of all balances,
    /// and a ledger without an administrator has issued nothing.
    pub open spec fn backed(self) -> bool {
        &&& self.balances.dom().finite()
        &&& self.total_supply == sum_of(self.balances)
        &&& self.admin is None ==> self.total_supply == 0
    }

    /// The check that guards every administrative operation: the ledger has
    /// an administrator and the caller is that principal.
    pub open spec fn admin_gate(self, caller: Seq<u8>) -> Option<TokenError> {
        match self.admin {
            None => Some(TokenError::NotInitialized),
            Some(admin) => if admin == caller {
                None
            } else {
                Some(TokenError::Unauthorized)
            },
        }
    }

    /// `initialize`: refused on a ledger that has an administrator; otherwise
    /// installs `admin` with the role `Admin`, a supply of 0 and an empty
    /// attestation stamped `now`.
    pub open spec fn initialize(self, admin: Seq<u8>, now: nat) -> Result<TokenState, TokenError> {
        if self.admin is Some {
            Err(TokenError::AlreadyInitialized)
        } else {
            Ok(
                TokenState {
                    admin: Some(admin),
                    total_supply: 0,
                    roles: self.roles.insert(admin, UserRole::Admin),
                    reserves: Some(
                        ReservesView { proof_hash: Seq::empty(), total_silver_grams: 0, timestamp: now },
                    ),
                    ..self
                },
            )
        }
    }

    /// `mint`: for the administrator only, and not to a frozen holder. Adds
    /// `amount` to the supply and to what `to` owns, and overwrites the
    /// attestation with `proof_hash`, the new supply and `now`.
    pub open spec fn mint(
        self,
        caller: Seq<u8>,
        to: Seq<u8>,
        amount: nat,
        proof_hash: Seq<char>,
        now: nat,
    ) -> Result<TokenState, TokenError> {
        if let Some(e) = self.admin_gate(caller) {
            Err(e)
        } else if self.frozen_at(to) {
            Err(TokenError::AccountFrozen)
        } else {
            Ok(
                TokenState {
                    total_supply: self.total_supply + amount,
                    balances: self.balances.insert(to, self.balance_of(to) + amount),
                    reserves: Some(
                        ReservesView {
                            proof_hash,
                            total_silver_grams: self.total_supply + amount,
                            timestamp: now,
                        },
                    ),
                    ..self
                },
            )
        }
    }

    /// `burn`: for the administrator only, and no more than `from` owns.
    /// Takes `amount` from the supply and from what `from` owns. The
    /// attestation stays as it is.
    pub open spec fn burn(self, caller: Seq<u8>, from: Seq<u8>, amount: nat) -> Result<
        TokenState,
        TokenError,
    > {
        if let Some(e) = self.admin_gate(caller) {
            Err(e)
        } else if self.balance_of(from) < amount {
            Err(TokenError::InsufficientBalance)
        } else {
            Ok(
                TokenState {
                    total_supply: (self.total_supply - amount) as nat,
                    balances: self.balances.insert(from, (self.balance_of(from) - amount) as nat),
                    ..self
                },
            )
        }
    }

    /// The balances after `amount` has moved from `from` to `to`: the debit
    /// is booked first, the credit on what `to` owns after it.
    pub open spec fn moved(self, from: Seq<u8>, to: Seq<u8>, amount: nat) -> Map<Seq<u8>, nat> {
        let debited = TokenState {
            balances: self.balances.insert(from, (self.balance_of(from) - amount) as nat),
            ..self
        };
        debited.balances.insert(to, debited.balance_of(to) + amount)
    }

    /// `transfer`: for `from` only, between holders that are not frozen, and
    /// no more than `from` owns. Moves `amount`; the supply stays as it is.
    pub open spec fn transfer(self, caller: Seq<u8>, from: Seq<u8>, to: Seq<u8>, amount: nat) -> Result<
        TokenState,
        TokenError,
    > {
        if caller != from {
            Err(TokenError::Unauthorized)
        } else if self.frozen_at(from) || self.frozen_at(to) {
            Err(TokenError::AccountFrozen)
        } else if self.balance_of(from) < amount {
            Err(TokenError::InsufficientBalance)
        } else {
            Ok(TokenState { balances: self.moved(from, to, amount), ..self })
        }
    }

    /// `set_freeze`: for the administrator only. Records the hold.
    pub open spec fn set_freeze(self, caller: Seq<u8>, address: Seq<u8>, frozen: bool) -> Result<
        TokenState,
        TokenError,
    > {
        if let Some(e) = self.admin_gate(caller) {
            Err(e)
        } else {
            Ok(TokenState { frozen: self.frozen.insert(address, frozen), ..self })
        }
    }

    /// `set_role`: for the administrator only. Records the role.
    pub open spec fn set_role(self, caller: Seq<u8>, address: Seq<u8>, role: UserRole) -> Result<
        TokenState,
        TokenError,
    > {
        if let Some(e) = self.admin_gate(caller) {
            Err(e)
        } else {
            Ok(TokenState { roles: self.roles.insert(address, role), ..self })
        }
    }

    /// `anchor_reserves`: for the administrator only. Overwrites the
    /// attestation with the figures given and `now`.
    pub open spec fn anchor_reserves(
        self,
        caller: Seq<u8>,
        proof_hash: Seq<char>,
        total_silver_grams: nat,
        now: nat,
    ) -> Result<TokenState, TokenError> {
        if let Some(e) = self.admin_gate(caller) {
            Err(e)
        } else {
            Ok(
                TokenState {
                    reserves: Some(ReservesView { proof_hash, total_silver_grams, timestamp: now }),
                    ..self
                },
            )
        }
    }

    /// What `call` does to this state: the next state, or the refusal.
    pub open spec fn step(self, call: TokenCall) -> Result<TokenState, TokenError> {
        match call {
            TokenCall::Initialize { admin, now } => self.initialize(admin, now),
            TokenCall::Mint { caller, to, amount, proof_hash, now } => self.mint(
                caller,
                to,
                amount,
                proof_hash,
                now,
            ),
            TokenCall::Burn { caller, from, amount } => self.burn(caller, from, amount),
            TokenCall::Transfer { caller, from, to, amount } => self.transfer(caller, from, to, amount),
            TokenCall::SetFreeze { caller, address, frozen } => self.set_freeze(caller, address, frozen),
            TokenCall::SetRole { caller, address, role } => self.set_role(caller, address, role),
            TokenCall::AnchorReserves { caller, proof_hash, total_silver_grams, now } => self.anchor_reserves(
                caller,
                proof_hash,
                total_silver_grams,
                now,
            ),
        }
    }

    /// The state after `call`: a refused call changes nothing.
    pub open spec fn after(self, call: TokenCall) -> TokenState {
        match self.step(call) {
            Ok(next) => next,
            Err(_) => self,
        }
    }

    /// The state that a fresh ledger reaches through `calls`, made in order.
    pub open spec fn run(calls: Seq<TokenCall>) -> TokenState
        decreases calls.len(),
    {
        if calls.len() == 0 {
            TokenState::uninitialized()
        } else {
            TokenState::run(calls.drop_last()).after(calls.last())
        }
    }
}

/// Moving an amount that the sender owns keeps the sum of all balances, also
/// where sender and receiver are the same holder.
pub proof fn lemma_move_keeps_sum(s: TokenState, from: Seq<u8>, to: Seq<u8>, amount: nat)
    requires
        s.balances.dom().finite(),
        amount <= s.balance_of(from),
    ensures
        s.moved(from, to, amount).dom().finite(),
        sum_of(s.moved(from, to, amount)) == sum_of(s.balances),
{
    let debit = (s.balance_of(from) - amount) as nat;
    let debited = s.balances.insert(from, debit);
    lemma_sum_insert(s.balances, from, debit);
    let credit = (if debited.dom().contains(to) {
        debited[to]
    } else {
        0
    }) + amount;
    lemma_sum_insert(debited, to, credit);
}

/// No call takes a ledger out of the invariant: after it, as before it, the
/// supply is the sum of all balances.
pub proof fn lemma_step_keeps_backing(s: TokenState, call: TokenCall)
    requires
        s.backed(),
    ensures
        s.after(call).backed(),
{
    match call {
        TokenCall::Initialize { admin, now } => {},
        TokenCall::Mint { caller, to, amount, proof_hash, now } => {
            lemma_sum_insert(s.balances, to, s.balance_of(to) + amount);
        },
        TokenCall::Burn { caller, from, amount } => {
            if s.burn(caller, from, amount) is Ok {
                lemma_sum_insert(s.balances, from, (s.balance_of(from) - amount) as nat);
                if s.balances.dom().contains(from) {
                    lemma_sum_bounds_one(s.balances, from);
                }
            }
        },
        TokenCall::Transfer { caller, from, to, amount } => {
            if s.transfer(caller, from, to, amount) is Ok {
                lemma_move_keeps_sum(s, from, to, amount);
                if s.admin is None {
                    assert(s.after(call).total_supply == 0);
                }
            }
        },
        TokenCall::SetFreeze { caller, address, frozen } => {},
        TokenCall::SetRole { caller, address, role } => {},
        TokenCall::AnchorReserves { caller, proof_hash, total_silver_grams, now } => {},
    }
}

/// In every state that a fresh ledger can reach, whatever was called on it
/// and in whatever order, the supply equals the sum of the balances of all
/// holders.
pub proof fn lemma_reachable_states_are_backed(calls: Seq<TokenCall>)
    ensures
        TokenState::run(calls).backed(),
        TokenState::run(calls).total_supply == sum_of(TokenState::run(calls).balances),
    decreases calls.len(),
{
    if calls.len() == 0 {
        assert(sum_of(Map::<Seq<u8>, nat>::empty()) == 0);
    } else {
        lemma_reachable_states_are_backed(calls.drop_last());
        lemma_step_keeps_backing(TokenState::run(calls.drop_last()), calls.last());
    }
}

/// A transfer never changes the supply. A mint that is carried out raises it
/// by exactly the amount minted, a burn that is carried out lowers it by
/// exactly the amount burned, and a refused call of either leaves it alone.
pub proof fn lemma_supply_changes_by_amount(
    s: TokenState,
    caller: Seq<u8>,
    from: Seq<u8>,
    to: Seq<u8>,
    amount: nat,
    proof_hash: Seq<char>,
    now: nat,
)
    requires
        s.backed(),
    ensures
        s.after(TokenCall::Transfer { caller, from, to, amount }).total_supply == s.total_supply,
        s.mint(caller, to, amount, proof_hash, now) matches Ok(next) ==> next.total_supply
            == s.total_supply + amount,
        s.mint(caller, to, amount, proof_hash, now) is Err ==> s.after(
            TokenCall::Mint { caller, to, amount, proof_hash, now },
        ).total_supply == s.total_supply,
        s.burn(caller, from, amount) matches Ok(next) ==> next.total_supply + amount
            == s.total_supply,
        s.burn(caller, from, amount) is Err ==> s.after(
            TokenCall::Burn { caller, from, amount },
        ).total_supply == s.total_supply,
{
    if s.burn(caller, from, amount) is Ok {
        if s.balances.dom().contains(from) {
            lemma_sum_bounds_one(s.balances, from);
        }
    }
}

/// A mint to a frozen holder, and a transfer from or to a frozen holder, is
/// always refused and leaves the ledger, and so every balance, as it was.
/// Where the caller is the one that the operation is reserved for (the
/// administrator for a mint, the sender for a transfer), the refusal is
/// `AccountFrozen`.
pub proof fn lemma_frozen_parties_are_refused(
    s: TokenState,
    caller: Seq<u8>,
    from: Seq<u8>,
    to: Seq<u8>,
    amount: nat,
    proof_hash: Seq<char>,
    now: nat,
)
    ensures
        s.frozen_at(to) ==> {
            &&& s.mint(caller, to, amount, proof_hash, now) is Err
            &&& s.after(TokenCall::Mint { caller, to, amount, proof_hash, now }) == s
        },
        s.frozen_at(to) && s.admin == Some(caller) ==> s.mint(caller, to, amount, proof_hash, now)
            == Err::<TokenState, TokenError>(TokenError::AccountFrozen),
        s.frozen_at(from) || s.frozen_at(to) ==> {
            &&& s.transfer(caller, from, to, amount) is Err
            &&& s.after(TokenCall::Transfer { caller, from, to, amount }) == s
        },
        (s.frozen_at(from) || s.frozen_at(to)) && caller == from ==> s.transfer(
            caller,
            from,
            to,
            amount,
        ) == Err::<TokenState, TokenError>(TokenError::AccountFrozen),
{
}

/// The administrator is set once, by `initialize`, and never replaced.
pub proof fn lemma_admin_is_set_once(s: TokenState, call: TokenCall)
    ensures
        s.admin is Some ==> s.after(call).admin == s.admin,
        s.admin is None && s.after(call).admin is Some ==> call is Initialize,
{
}

/// Only the administrator changes roles, holds and the supply: a call by
/// anybody else leaves all of them as they were.
pub proof fn lemma_controls_are_for_the_administrator(s: TokenState, call: TokenCall)
    requires
        s.admin is Some,
        match call {
            TokenCall::Initialize { admin, now } => true,
            TokenCall::Mint { caller, to, amount, proof_hash, now } => Some(caller) != s.admin,
            TokenCall::Burn { caller, from, amount } => Some(caller) != s.admin,
            TokenCall::Transfer { caller, from, to, amount } => true,
            TokenCall::SetFreeze { caller, address, frozen } => Some(caller) != s.admin,
            TokenCall::SetRole { caller, address, role } => Some(caller) != s.admin,
            TokenCall::AnchorReserves { caller, proof_hash, total_silver_grams, now } => Some(caller)
                != s.admin,
        },
    ensures
        s.after(call).roles == s.roles,
        s.after(call).frozen == s.frozen,
        s.after(call).total_supply == s.total_supply,
        s.after(call).reserves == s.reserves,
{
}

} // verus!
