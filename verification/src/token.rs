//! The token ledger: supply and balances, roles and compliance holds, and the
//! reserve attestation, with every operation proved against
//! [`TokenState`](crate::token_model::TokenState).

use crate::address::Address;
use crate::sums::amounts;
use crate::sums::lemma_sum_bounds_one;
use crate::sums::lemma_sum_bounds_two;
use crate::sums::lemma_sum_insert;
use crate::table::AddressMap;
use crate::token_model::lemma_move_keeps_sum;
use crate::token_model::DataKeyView;
use crate::token_model::ReservesView;
use crate::token_model::TokenError;
use crate::token_model::TokenEventView;
use crate::token_model::TokenState;
use crate::token_model::UserRole;
use vstd::prelude::*;

verus! {

/// The name of an entry of the ledger's persistent state.
#[derive(Debug, PartialEq, Eq)]
pub enum DataKey {
    Admin,
    TotalSupply,
    Balance(Address),
    Role(Address),
    Frozen(Address),
    ReservesProof,
}

impl View for DataKey {
    type V = DataKeyView;

    open spec fn view(&self) -> DataKeyView {
        match self {
            DataKey::Admin => DataKeyView::Admin,
            DataKey::TotalSupply => DataKeyView::TotalSupply,
            DataKey::Balance(holder) => DataKeyView::Balance(holder@),
            DataKey::Role(principal) => DataKeyView::Role(principal@),
            DataKey::Frozen(holder) => DataKeyView::Frozen(holder@),
            DataKey::ReservesProof => DataKeyView::ReservesProof,
        }
    }
}

/// A reserve attestation: a proof of the silver held, the amount it attests
/// and the time at which it was recorded.
#[derive(Debug, PartialEq, Eq)]
pub struct ReservesData {
    pub proof_hash: String,
    pub total_silver_grams: u64,
    pub timestamp: u64,
}

impl View for ReservesData {
    type V = ReservesView;

    open spec fn view(&self) -> ReservesView {
        ReservesView {
            proof_hash: self.proof_hash@,
            total_silver_grams: self.total_silver_grams as nat,
            timestamp: self.timestamp as nat,
        }
    }
}

impl Clone for ReservesData {
    fn clone(&self) -> (r: ReservesData)
        ensures
            r@ == self@,
    {
        ReservesData {
            proof_hash: self.proof_hash.clone(),
            total_silver_grams: self.total_silver_grams,
            timestamp: self.timestamp,
        }
    }
}

/// What an operation hands to the event log when it was carried out.
#[derive(Debug, PartialEq, Eq)]
pub enum TokenEvent {
    Mint { to: Address, amount: u64 },
    Burn { from: Address, amount: u64 },
    Transfer { from: Address, to: Address, amount: u64 },
    Freeze { address: Address, frozen: bool },
    RoleChanged { address: Address, role: UserRole },
    ReservesAnchored { total_silver_grams: u64 },
}

impl View for TokenEvent {
    type V = TokenEventView;

    open spec fn view(&self) -> TokenEventView {
        match self {
            TokenEvent::Mint { to, amount } => TokenEventView::Mint { to: to@, amount: *amount as nat },
            TokenEvent::Burn { from, amount } => TokenEventView::Burn {
                from: from@,
                amount: *amount as nat,
            },
            TokenEvent::Transfer { from, to, amount } => TokenEventView::Transfer {
                from: from@,
                to: to@,
                amount: *amount as nat,
            },
            TokenEvent::Freeze { address, frozen } => TokenEventView::Freeze {
                address: address@,
                frozen: *frozen,
            },
            TokenEvent::RoleChanged { address, role } => TokenEventView::RoleChanged {
                address: address@,
                role: *role,
            },
            TokenEvent::ReservesAnchored { total_silver_grams } => TokenEventView::ReservesAnchored {
                total_silver_grams: *total_silver_grams as nat,
            },
        }
    }
}

/// A table of balances and its amounts have the same holders.
proof fn lemma_amounts_keep_holders(held: Map<Seq<u8>, u64>)
    ensures
        amounts(held).dom() == held.dom(),
{
    assert(amounts(held).dom() =~= held.dom());
}

/// Writing a balance into a table writes its amount into the amounts.
proof fn lemma_amounts_insert(held: Map<Seq<u8>, u64>, holder: Seq<u8>, v: u64)
    ensures
        amounts(held.insert(holder, v)) == amounts(held).insert(holder, v as nat),
{
    assert(amounts(held.insert(holder, v)) =~= amounts(held).insert(holder, v as nat));
}

/// The state of a ledger as plain values, as a store keeps it between calls.
pub struct TokenParts {
    pub admin: Option<Address>,
    pub total_supply: u64,
    pub balances: AddressMap<u64>,
    pub roles: AddressMap<UserRole>,
    pub frozen: AddressMap<bool>,
    pub reserves: Option<ReservesData>,
}

impl View for TokenParts {
    type V = TokenState;

    open spec fn view(&self) -> TokenState {
        TokenState {
            admin: match self.admin {
                Some(a) => Some(a@),
                None => None,
            },
            total_supply: self.total_supply as nat,
            balances: amounts(self.balances@),
            roles: self.roles@,
            frozen: self.frozen@,
            reserves: match self.reserves {
                Some(r) => Some(r@),
                None => None,
            },
        }
    }
}

impl TokenParts {
    /// Whether the three tables are sound.
    pub open spec fn wf(&self) -> bool {
        &&& self.balances.wf()
        &&& self.roles.wf()
        &&& self.frozen.wf()
    }
}

/// The token ledger.
///
/// Its view is the [`TokenState`] that it holds. A ledger starts
/// [uninitialized](TokenState::uninitialized) and changes only through the
/// operations below; each of them either carries the call out as the model
/// says, or refuses it and leaves the ledger as it was.
pub struct DSTToken {
    admin: Option<Address>,
    total_supply: u64,
    balances: AddressMap<u64>,
    roles: AddressMap<UserRole>,
    frozen: AddressMap<bool>,
    reserves: Option<ReservesData>,
}

impl View for DSTToken {
    type V = TokenState;

    closed spec fn view(&self) -> TokenState {
        TokenState {
            admin: match self.admin {
                Some(a) => Some(a@),
                None => None,
            },
            total_supply: self.total_supply as nat,
            balances: amounts(self.balances@),
            roles: self.roles@,
            frozen: self.frozen@,
            reserves: match self.reserves {
                Some(r) => Some(r@),
                None => None,
            },
        }
    }
}

impl DSTToken {
    /// The ledger's invariant: its tables are sound, and its supply is the
    /// sum of all balances.
    pub closed spec fn wf(&self) -> bool {
        &&& self.balances.wf()
        &&& self.roles.wf()
        &&& self.frozen.wf()
        &&& self@.backed()
    }

    /// The supply of a ledger equals the sum of the balances of all of its
    /// holders, and fits the machine's 64 bits.
    pub proof fn lemma_supply_is_sum_of_balances(&self)
        requires
            self.wf(),
        ensures
            self@.backed(),
            self@.total_supply <= u64::MAX,
    {
    }

    /// A ledger on which nothing was called yet.
    pub fn new() -> (token: DSTToken)
        ensures
            token.wf(),
            token@ == TokenState::uninitialized(),
    {
        let token = DSTToken {
            admin: None,
            total_supply: 0,
            balances: AddressMap::new(),
            roles: AddressMap::new(),
            frozen: AddressMap::new(),
            reserves: None,
        };
        proof {
            assert(amounts(token.balances@) =~= Map::<Seq<u8>, nat>::empty());
        }
        token
    }

    /// The ledger that holds `parts`, where their supply is the sum of their
    /// balances and they name an administrator or have issued nothing;
    /// `None` otherwise.
    pub fn restore(parts: TokenParts) -> (r: Option<DSTToken>)
        requires
            parts.wf(),
        ensures
            match r {
                Some(token) => token.wf() && token@ == parts@ && parts@.backed(),
                None => !parts@.backed(),
            },
    {
        proof {
            parts.balances.lemma_keys_are_enumerated();
            lemma_amounts_keep_holders(parts.balances@);
        }
        if parts.balances.total() != parts.total_supply as u128 {
            return None;
        }
        if parts.admin.is_none() && parts.total_supply != 0 {
            return None;
        }
        Some(
            DSTToken {
                admin: parts.admin,
                total_supply: parts.total_supply,
                balances: parts.balances,
                roles: parts.roles,
                frozen: parts.frozen,
                reserves: parts.reserves,
            },
        )
    }

    /// The state of the ledger as plain values.
    pub fn into_parts(self) -> (parts: TokenParts)
        requires
            self.wf(),
        ensures
            parts.wf(),
            parts@ == self@,
            parts@.backed(),
    {
        TokenParts {
            admin: self.admin,
            total_supply: self.total_supply,
            balances: self.balances,
            roles: self.roles,
            frozen: self.frozen,
            reserves: self.reserves,
        }
    }

    /// What `holder` has in `balances`: 0 where it has no entry.
    fn held(balances: &AddressMap<u64>, holder: &Address) -> (r: u64)
        requires
            balances.wf(),
        ensures
            r == (if balances@.dom().contains(holder@) {
                balances@[holder@]
            } else {
                0
            }),
    {
        match balances.get(holder) {
            Some(v) => *v,
            None => 0,
        }
    }

    /// Passes where the ledger has an administrator and `caller` is that
    /// principal.
    fn require_admin(&self, caller: &Address) -> (r: Result<(), TokenError>)
        ensures
            match r {
                Ok(_) => self@.admin_gate(caller@) is None,
                Err(e) => self@.admin_gate(caller@) == Some(e),
            },
    {
        match &self.admin {
            None => Err(TokenError::NotInitialized),
            Some(admin) => if admin.same(caller) {
                Ok(())
            } else {
                Err(TokenError::Unauthorized)
            },
        }
    }

    /// Installs `admin` as the administrator of a ledger that has none, at
    /// time `now`. Refused with `AlreadyInitialized` on a ledger that has one.
    pub fn initialize(&mut self, admin: Address, now: u64) -> (r: Result<(), TokenError>)
        requires
            old(self).wf(),
        ensures
            final(self).wf(),
            match r {
                Ok(_) => old(self)@.initialize(admin@, now as nat) == Ok::<TokenState, TokenError>(
                    final(self)@,
                ),
                Err(e) => old(self)@.initialize(admin@, now as nat) == Err::<TokenState, TokenError>(e)
                    && final(self)@ == old(self)@,
            },
    {
        if self.admin.is_some() {
            return Err(TokenError::AlreadyInitialized);
        }
        self.total_supply = 0;
        self.roles.set(admin.clone(), UserRole::Admin);
        self.admin = Some(admin);
        self.reserves = Some(
            ReservesData { proof_hash: String::new(), total_silver_grams: 0, timestamp: now },
        );
        Ok(())
    }

    /// Issues `amount` tokens to `to` on behalf of `caller`, at time `now`,
    /// and attests the new supply under `reserves_proof`.
    ///
    /// Refused unless `caller` is the administrator, and with `AccountFrozen`
    /// where `to` is frozen. The new supply has to fit 64 bits.
    pub fn mint(
        &mut self,
        caller: &Address,
        to: Address,
        amount: u64,
        reserves_proof: String,
        now: u64,
    ) -> (r: Result<TokenEvent, TokenError>)
        requires
            old(self).wf(),
            old(self)@.mint(caller@, to@, amount as nat, reserves_proof@, now as nat) is Ok
                ==> old(self)@.total_supply + amount <= u64::MAX,
        ensures
            final(self).wf(),
            match r {
                Ok(event) => {
                    &&& old(self)@.mint(caller@, to@, amount as nat, reserves_proof@, now as nat)
                        == Ok::<TokenState, TokenError>(final(self)@)
                    &&& event@ == TokenEventView::Mint { to: to@, amount: amount as nat }
                    &&& final(self)@.total_supply == old(self)@.total_supply + amount
                },
                Err(e) => {
                    &&& old(self)@.mint(caller@, to@, amount as nat, reserves_proof@, now as nat)
                        == Err::<TokenState, TokenError>(e)
                    &&& final(self)@ == old(self)@
                },
            },
    {
        if let Err(e) = self.require_admin(caller) {
            return Err(e);
        }
        if self.is_frozen(&to) {
            return Err(TokenError::AccountFrozen);
        }
        let balance = Self::held(&self.balances, &to);
        proof {
            lemma_amounts_keep_holders(self.balances@);
            if self.balances@.dom().contains(to@) {
                lemma_sum_bounds_one(amounts(self.balances@), to@);
            }
        }
        let supply = self.total_supply + amount;
        let credited = balance + amount;
        proof {
            lemma_amounts_insert(self.balances@, to@, credited);
            lemma_sum_insert(amounts(self.balances@), to@, credited as nat);
        }
        self.total_supply = supply;
        self.balances.set(to.clone(), credited);
        self.reserves = Some(
            ReservesData { proof_hash: reserves_proof, total_silver_grams: supply, timestamp: now },
        );
        Ok(TokenEvent::Mint { to, amount })
    }

    /// Withdraws `amount` tokens from `from` on behalf of `caller`.
    ///
    /// Refused unless `caller` is the administrator, and with
    /// `InsufficientBalance` where `from` owns less than `amount`. The
    /// reserve attestation is not touched.
    pub fn burn(&mut self, caller: &Address, from: Address, amount: u64) -> (r: Result<
        TokenEvent,
        TokenError,
    >)
        requires
            old(self).wf(),
        ensures
            final(self).wf(),
            match r {
                Ok(event) => {
                    &&& old(self)@.burn(caller@, from@, amount as nat) == Ok::<TokenState, TokenError>(
                        final(self)@,
                    )
                    &&& event@ == TokenEventView::Burn { from: from@, amount: amount as nat }
                    &&& final(self)@.total_supply + amount == old(self)@.total_supply
                },
                Err(e) => {
                    &&& old(self)@.burn(caller@, from@, amount as nat) == Err::<TokenState, TokenError>(e)
                    &&& final(self)@ == old(self)@
                },
            },
    {
        if let Err(e) = self.require_admin(caller) {
            return Err(e);
        }
        let balance = Self::held(&self.balances, &from);
        proof {
            lemma_amounts_keep_holders(self.balances@);
        }
        if balance < amount {
            return Err(TokenError::InsufficientBalance);
        }
        proof {
            if self.balances@.dom().contains(from@) {
                lemma_sum_bounds_one(amounts(self.balances@), from@);
            }
            lemma_amounts_insert(self.balances@, from@, (balance - amount) as u64);
            lemma_sum_insert(amounts(self.balances@), from@, (balance - amount) as nat);
        }
        self.total_supply = self.total_supply - amount;
        self.balances.set(from.clone(), balance - amount);
        Ok(TokenEvent::Burn { from, amount })
    }

    /// Moves `amount` tokens from `from` to `to` on behalf of `caller`.
    ///
    /// Refused with `Unauthorized` unless `caller` is `from`, with
    /// `AccountFrozen` where either party is frozen, and with
    /// `InsufficientBalance` where `from` owns less than `amount`. The supply
    /// stays as it is.
    pub fn transfer(&mut self, caller: &Address, from: Address, to: Address, amount: u64) -> (r:
        Result<TokenEvent, TokenError>)
        requires
            old(self).wf(),
        ensures
            final(self).wf(),
            final(self)@.total_supply == old(self)@.total_supply,
            match r {
                Ok(event) => {
                    &&& old(self)@.transfer(caller@, from@, to@, amount as nat) == Ok::<
                        TokenState,
                        TokenError,
                    >(final(self)@)
                    &&& event@ == TokenEventView::Transfer { from: from@, to: to@, amount: amount as nat }
                },
                Err(e) => {
                    &&& old(self)@.transfer(caller@, from@, to@, amount as nat) == Err::<
                        TokenState,
                        TokenError,
                    >(e)
                    &&& final(self)@ == old(self)@
                },
            },
    {
        if !caller.same(&from) {
            return Err(TokenError::Unauthorized);
        }
        if self.is_frozen(&from) || self.is_frozen(&to) {
            return Err(TokenError::AccountFrozen);
        }
        let from_balance = Self::held(&self.balances, &from);
        proof {
            lemma_amounts_keep_holders(self.balances@);
        }
        if from_balance < amount {
            return Err(TokenError::InsufficientBalance);
        }
        let ghost before = self.balances@;
        proof {
            lemma_amounts_insert(before, from@, (from_balance - amount) as u64);
            lemma_move_keeps_sum(self@, from@, to@, amount as nat);
            if from@ != to@ && before.dom().contains(from@) && before.dom().contains(to@) {
                lemma_sum_bounds_two(amounts(before), from@, to@);
            }
        }
        self.balances.set(from.clone(), from_balance - amount);
        let to_balance = Self::held(&self.balances, &to);
        proof {
            lemma_amounts_insert(self.balances@, to@, (to_balance + amount) as u64);
        }
        self.balances.set(to.clone(), to_balance + amount);
        Ok(TokenEvent::Transfer { from, to, amount })
    }

    /// What `address` owns: 0 where it never held anything.
    pub fn balance(&self, address: &Address) -> (r: u64)
        requires
            self.wf(),
        ensures
            r == self@.balance_of(address@),
    {
        proof {
            lemma_amounts_keep_holders(self.balances@);
        }
        Self::held(&self.balances, address)
    }

    /// The number of tokens in circulation.
    pub fn total_supply(&self) -> (r: u64)
        ensures
            r == self@.total_supply,
    {
        self.total_supply
    }

    /// Puts `address` under a compliance hold, or lifts it, on behalf of
    /// `caller`. Refused unless `caller` is the administrator.
    pub fn set_freeze(&mut self, caller: &Address, address: Address, frozen: bool) -> (r: Result<
        TokenEvent,
        TokenError,
    >)
        requires
            old(self).wf(),
        ensures
            final(self).wf(),
            match r {
                Ok(event) => {
                    &&& old(self)@.set_freeze(caller@, address@, frozen) == Ok::<TokenState, TokenError>(
                        final(self)@,
                    )
                    &&& event@ == TokenEventView::Freeze { address: address@, frozen }
                },
                Err(e) => {
                    &&& old(self)@.set_freeze(caller@, address@, frozen) == Err::<
                        TokenState,
                        TokenError,
                    >(e)
                    &&& final(self)@ == old(self)@
                },
            },
    {
        if let Err(e) = self.require_admin(caller) {
            return Err(e);
        }
        self.frozen.set(address.clone(), frozen);
        Ok(TokenEvent::Freeze { address, frozen })
    }

    /// Whether `address` is under a compliance hold.
    pub fn is_frozen(&self, address: &Address) -> (r: bool)
        requires
            self.wf(),
        ensures
            r == self@.frozen_at(address@),
    {
        match self.frozen.get(address) {
            Some(flag) => *flag,
            None => false,
        }
    }

    /// Gives `address` the role `role` on behalf of `caller`. Refused unless
    /// `caller` is the administrator.
    pub fn set_role(&mut self, caller: &Address, address: Address, role: UserRole) -> (r: Result<
        TokenEvent,
        TokenError,
    >)
        requires
            old(self).wf(),
        ensures
            final(self).wf(),
            match r {
                Ok(event) => {
                    &&& old(self)@.set_role(caller@, address@, role) == Ok::<TokenState, TokenError>(
                        final(self)@,
                    )
                    &&& event@ == TokenEventView::RoleChanged { address: address@, role }
                },
                Err(e) => {
                    &&& old(self)@.set_role(caller@, address@, role) == Err::<TokenState, TokenError>(e)
                    &&& final(self)@ == old(self)@
                },
            },
    {
        if let Err(e) = self.require_admin(caller) {
            return Err(e);
        }
        self.roles.set(address.clone(), role);
        Ok(TokenEvent::RoleChanged { address, role })
    }

    /// The role of `address`: `User` where it was never given one.
    pub fn get_role(&self, address: &Address) -> (r: UserRole)
        requires
            self.wf(),
        ensures
            r == self@.role_of(address@),
    {
        match self.roles.get(address) {
            Some(role) => *role,
            None => UserRole::User,
        }
    }

    /// Records an attestation of `total_silver_grams` under `proof_hash` at
    /// time `now`, on behalf of `caller`, in place of the one held. Refused
    /// unless `caller` is the administrator.
    pub fn anchor_reserves(
        &mut self,
        caller: &Address,
        proof_hash: String,
        total_silver_grams: u64,
        now: u64,
    ) -> (r: Result<TokenEvent, TokenError>)
        requires
            old(self).wf(),
        ensures
            final(self).wf(),
            match r {
                Ok(event) => {
                    &&& old(self)@.anchor_reserves(
                        caller@,
                        proof_hash@,
                        total_silver_grams as nat,
                        now as nat,
                    ) == Ok::<TokenState, TokenError>(final(self)@)
                    &&& event@ == TokenEventView::ReservesAnchored {
                        total_silver_grams: total_silver_grams as nat,
                    }
                },
                Err(e) => {
                    &&& old(self)@.anchor_reserves(
                        caller@,
                        proof_hash@,
                        total_silver_grams as nat,
                        now as nat,
                    ) == Err::<TokenState, TokenError>(e)
                    &&& final(self)@ == old(self)@
                },
            },
    {
        if let Err(e) = self.require_admin(caller) {
            return Err(e);
        }
        self.reserves = Some(ReservesData { proof_hash, total_silver_grams, timestamp: now });
        Ok(TokenEvent::ReservesAnchored { total_silver_grams })
    }

    /// The attestation held. Refused with `NotInitialized` on a ledger that
    /// was never initialized.
    pub fn get_reserves_proof(&self) -> (r: Result<ReservesData, TokenError>)
        ensures
            match r {
                Ok(data) => self@.reserves == Some(data@),
                Err(e) => e == TokenError::NotInitialized && self@.reserves is None,
            },
    {
        match &self.reserves {
            Some(data) => Ok(data.clone()),
            None => Err(TokenError::NotInitialized),
        }
    }

    /// The administrator, once the ledger is initialized.
    pub fn admin(&self) -> (r: Option<Address>)
        ensures
            match r {
                Some(a) => self@.admin == Some(a@),
                None => self@.admin is None,
            },
    {
        match &self.admin {
            Some(a) => Some(a.clone()),
            None => None,
        }
    }

    /// Whether the entry that `key` names was ever written.
    pub fn has(&self, key: &DataKey) -> (r: bool)
        requires
            self.wf(),
        ensures
            r == self@.has(key@),
    {
        proof {
            lemma_amounts_keep_holders(self.balances@);
        }
        match key {
            DataKey::Admin => self.admin.is_some(),
            DataKey::TotalSupply => self.admin.is_some(),
            DataKey::Balance(holder) => self.balances.contains(holder),
            DataKey::Role(principal) => self.roles.contains(principal),
            DataKey::Frozen(holder) => self.frozen.contains(holder),
            DataKey::ReservesProof => self.reserves.is_some(),
        }
    }
}

} // verus!
