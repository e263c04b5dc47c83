//! The lending engine: loans against collateral, with interest that accrues
//! linearly, repayment and liquidation, with every operation proved against
//! [`LoanState`](crate::loan_model::LoanState).

use crate::address::Address;
use crate::loan_model::interest_due;
use crate::loan_model::required_collateral;
use crate::loan_model::total_owed;
use crate::loan_model::LoanError;
use crate::loan_model::LoanState;
use crate::loan_model::LoanStatus;
use crate::loan_model::LoanView;
use crate::loan_model::BASIS_POINTS;
use crate::loan_model::DEFAULT_MAX_LTV;
use crate::loan_model::INTEREST_DIVISOR;
use crate::loan_model::INTEREST_RATE;
use crate::table::AddressMap;
use vstd::prelude::*;

verus! {

/// A loan against collateral.
#[derive(Debug, PartialEq, Eq)]
pub struct Loan {
    /// The loan's number: loans are numbered from 1 as they are made.
    pub id: u64,
    pub borrower: Address,
    /// The tokens pledged for the loan.
    pub collateral_amount: u64,
    /// The principal.
    pub loan_amount: u64,
    /// The yearly interest rate in basis points.
    pub interest_rate: u32,
    /// When the loan was made, in seconds.
    pub start_time: u64,
    /// The term of the loan, in seconds.
    pub duration: u64,
    pub status: LoanStatus,
}

impl View for Loan {
    type V = LoanView;

    open spec fn view(&self) -> LoanView {
        LoanView {
            id: self.id as nat,
            borrower: self.borrower@,
            collateral_amount: self.collateral_amount as nat,
            loan_amount: self.loan_amount as nat,
            interest_rate: self.interest_rate as nat,
            start_time: self.start_time as nat,
            duration: self.duration as nat,
            status: self.status,
        }
    }
}

impl Clone for Loan {
    fn clone(&self) -> (r: Loan)
        ensures
            r@ == self@,
    {
        Loan {
            id: self.id,
            borrower: self.borrower.clone(),
            collateral_amount: self.collateral_amount,
            loan_amount: self.loan_amount,
            interest_rate: self.interest_rate,
            start_time: self.start_time,
            duration: self.duration,
            status: self.status,
        }
    }
}

/// A list of loan ids as numbers without an upper bound.
pub open spec fn loan_ids(ids: Seq<u64>) -> Seq<nat> {
    ids.map_values(|id: u64| id as nat)
}

/// The models of the loans of a registry.
pub open spec fn registry(loans: Seq<Loan>) -> Seq<LoanView> {
    loans.map_values(|loan: Loan| loan@)
}

/// The model of the table of each borrower's loans.
pub open spec fn ledger(index: Map<Seq<u8>, Vec<u64>>) -> Map<Seq<u8>, Seq<nat>> {
    index.map_values(|ids: Vec<u64>| loan_ids(ids@))
}

/// The collateral that a loan of `loan_amount` requires at a largest
/// loan-to-value ratio of `max_ltv` basis points.
pub fn collateral_needed(loan_amount: u64, max_ltv: u32) -> (r: u128)
    requires
        max_ltv != 0,
    ensures
        r == required_collateral(loan_amount as nat, max_ltv as nat),
        r == loan_amount * 10000 / (max_ltv as int),
{
    let scaled: u128 = loan_amount as u128 * BASIS_POINTS as u128;
    scaled / (max_ltv as u128)
}

/// The interest accrued on `loan_amount` at `rate` basis points a year after
/// `elapsed` seconds, where it fits 64 bits.
pub fn accrued_interest(loan_amount: u64, rate: u32, elapsed: u64) -> (r: Option<u64>)
    ensures
        match r {
            Some(interest) => interest == interest_due(loan_amount as nat, rate as nat, elapsed as nat),
            None => interest_due(loan_amount as nat, rate as nat, elapsed as nat) > u64::MAX,
        },
{
    assert(loan_amount * rate <= 0xffff_ffff_ffff_ffff * 0xffff_ffff) by (nonlinear_arith)
        requires
            loan_amount <= 0xffff_ffff_ffff_ffff,
            rate <= 0xffff_ffff,
    ;
    let yearly: u128 = loan_amount as u128 * rate as u128;
    match yearly.checked_mul(elapsed as u128) {
        None => None,
        Some(product) => {
            let interest: u128 = product / (INTEREST_DIVISOR as u128);
            if interest > u64::MAX as u128 {
                None
            } else {
                Some(interest as u64)
            }
        },
    }
}

/// What settles a loan of `loan_amount` at `rate` basis points a year after
/// `elapsed` seconds, where it fits 64 bits.
pub fn amount_owed(loan_amount: u64, rate: u32, elapsed: u64) -> (r: Option<u64>)
    ensures
        match r {
            Some(owed) => owed == total_owed(loan_amount as nat, rate as nat, elapsed as nat),
            None => total_owed(loan_amount as nat, rate as nat, elapsed as nat) > u64::MAX,
        },
{
    match accrued_interest(loan_amount, rate, elapsed) {
        None => None,
        Some(interest) => loan_amount.checked_add(interest),
    }
}

/// The state of an engine as plain values, as a store keeps it between calls.
pub struct LoanParts {
    pub admin: Option<Address>,
    pub next_loan_id: u64,
    pub max_ltv: u32,
    pub loans: Vec<Loan>,
    pub borrower_loans: AddressMap<Vec<u64>>,
}

impl View for LoanParts {
    type V = LoanState;

    open spec fn view(&self) -> LoanState {
        LoanState {
            admin: match self.admin {
                Some(a) => Some(a@),
                None => None,
            },
            next_loan_id: self.next_loan_id as nat,
            max_ltv: self.max_ltv as nat,
            loans: registry(self.loans@),
            borrower_loans: ledger(self.borrower_loans@),
        }
    }
}

/// The lending engine.
///
/// Its view is the [`LoanState`] that it holds. An engine starts
/// [uninitialized](LoanState::uninitialized) and changes only through the
/// operations below; each of them either carries the call out as the model
/// says, or refuses it and leaves the engine as it was.
pub struct LoanContract {
    admin: Option<Address>,
    next_loan_id: u64,
    max_ltv: u32,
    loans: Vec<Loan>,
    borrower_loans: AddressMap<Vec<u64>>,
}

impl View for LoanContract {
    type V = LoanState;

    closed spec fn view(&self) -> LoanState {
        LoanState {
            admin: match self.admin {
                Some(a) => Some(a@),
                None => None,
            },
            next_loan_id: self.next_loan_id as nat,
            max_ltv: self.max_ltv as nat,
            loans: registry(self.loans@),
            borrower_loans: ledger(self.borrower_loans@),
        }
    }
}

impl LoanContract {
    /// The engine's invariant: its table is sound, and its loans are
    /// numbered from 1 in the order in which they were made.
    pub closed spec fn wf(&self) -> bool {
        &&& self.borrower_loans.wf()
        &&& self@.sequential()
    }

    /// The loans of an engine are numbered from 1 in the order in which they
    /// were made, and its settings fit the machine's integers.
    pub proof fn lemma_loans_are_numbered(&self)
        requires
            self.wf(),
        ensures
            self@.sequential(),
            self@.next_loan_id <= u64::MAX,
            self@.max_ltv <= u32::MAX,
    {
    }

    /// An engine on which nothing was called yet.
    pub fn new() -> (engine: LoanContract)
        ensures
            engine.wf(),
            engine@ == LoanState::uninitialized(),
    {
        let engine = LoanContract {
            admin: None,
            next_loan_id: 0,
            max_ltv: 0,
            loans: Vec::new(),
            borrower_loans: AddressMap::new(),
        };
        proof {
            assert(registry(engine.loans@) =~= Seq::<LoanView>::empty());
            assert(ledger(engine.borrower_loans@) =~= Map::<Seq<u8>, Seq<nat>>::empty());
        }
        engine
    }

    /// The engine that holds `parts`, where their loans are numbered from 1
    /// in the order in which they stand, the next id follows the last, and
    /// they name an administrator or hold no loan; `None` otherwise.
    pub fn restore(parts: LoanParts) -> (r: Option<LoanContract>)
        requires
            parts.borrower_loans.wf(),
        ensures
            match r {
                Some(engine) => engine.wf() && engine@ == parts@ && parts@.sequential(),
                None => !parts@.sequential(),
            },
    {
        let count = parts.loans.len();
        if parts.admin.is_none() && count != 0 {
            return None;
        }
        if parts.admin.is_some() && parts.next_loan_id as u128 != count as u128 + 1 {
            return None;
        }
        let mut i: usize = 0;
        while i < count
            invariant
                count == parts.loans@.len(),
                i <= count,
                forall|j: int| 0 <= j < i ==> (#[trigger] parts.loans@[j]).id == j + 1,
            decreases count - i,
        {
            if parts.loans[i].id as u128 != i as u128 + 1 {
                proof {
                    assert(registry(parts.loans@)[i as int].id != i + 1);
                }
                return None;
            }
            i += 1;
        }
        proof {
            assert forall|j: int| 0 <= j < parts@.loans.len() implies (#[trigger] parts@.loans[j]).id
                == j + 1 by {
                assert(parts.loans@[j].id == j + 1);
            }
        }
        Some(
            LoanContract {
                admin: parts.admin,
                next_loan_id: parts.next_loan_id,
                max_ltv: parts.max_ltv,
                loans: parts.loans,
                borrower_loans: parts.borrower_loans,
            },
        )
    }

    /// The state of the engine as plain values.
    pub fn into_parts(self) -> (parts: LoanParts)
        requires
            self.wf(),
        ensures
            parts.borrower_loans.wf(),
            parts@ == self@,
            parts@.sequential(),
    {
        LoanParts {
            admin: self.admin,
            next_loan_id: self.next_loan_id,
            max_ltv: self.max_ltv,
            loans: self.loans,
            borrower_loans: self.borrower_loans,
        }
    }

    /// Passes where the engine has an administrator and `caller` is that
    /// principal.
    fn require_admin(&self, caller: &Address) -> (r: Result<(), LoanError>)
        ensures
            match r {
                Ok(_) => self@.admin_gate(caller@) is None,
                Err(e) => self@.admin_gate(caller@) == Some(e),
            },
    {
        match &self.admin {
            None => Err(LoanError::NotInitialized),
            Some(admin) => if admin.same(caller) {
                Ok(())
            } else {
                Err(LoanError::Unauthorized)
            },
        }
    }

    /// Where the loan `loan_id` stands in the registry, if there is one.
    fn slot(&self, loan_id: u64) -> (r: Option<usize>)
        ensures
            match r {
                Some(i) => self@.loan(loan_id as nat) == Some(self.loans@[i as int]@) && i
                    < self.loans@.len() && i == loan_id - 1,
                None => self@.loan(loan_id as nat) is None,
            },
    {
        if loan_id >= 1 && loan_id - 1 < self.loans.len() as u64 {
            Some((loan_id - 1) as usize)
        } else {
            None
        }
    }

    /// Sets the status of the loan in slot `i`.
    fn mark(&mut self, i: usize, loan_id: u64, status: LoanStatus)
        requires
            old(self).wf(),
            i < old(self).loans@.len(),
            i == loan_id - 1,
        ensures
            final(self).wf(),
            final(self)@ == old(self)@.with_status(loan_id as nat, status),
    {
        self.loans[i].status = status;
        proof {
            assert(registry(self.loans@) =~= registry(old(self).loans@).update(
                i as int,
                LoanView { status, ..old(self).loans@[i as int]@ },
            ));
        }
    }

    /// Installs `admin` as the administrator of an engine that has none.
    /// Refused with `AlreadyInitialized` on an engine that has one.
    pub fn initialize(&mut self, admin: Address) -> (r: Result<(), LoanError>)
        requires
            old(self).wf(),
        ensures
            final(self).wf(),
            match r {
                Ok(_) => old(self)@.initialize(admin@) == Ok::<LoanState, LoanError>(final(self)@),
                Err(e) => old(self)@.initialize(admin@) == Err::<LoanState, LoanError>(e)
                    && final(self)@ == old(self)@,
            },
    {
        if self.admin.is_some() {
            return Err(LoanError::AlreadyInitialized);
        }
        self.admin = Some(admin);
        self.next_loan_id = 1;
        self.max_ltv = DEFAULT_MAX_LTV;
        Ok(())
    }

    /// Grants `borrower` a loan of `loan_amount` for `duration` seconds
    /// against `collateral_amount`, on behalf of `caller` at time `now`, and
    /// returns the loan's id.
    ///
    /// Refused with `Unauthorized` unless `caller` is `borrower`, with
    /// `NotInitialized` on an engine without an administrator, and with
    /// `InsufficientCollateral` where the collateral is less than the loan
    /// requires. The largest loan-to-value ratio must not be 0, and the id
    /// after the new one has to fit 64 bits.
    pub fn create_loan(
        &mut self,
        caller: &Address,
        borrower: Address,
        collateral_amount: u64,
        loan_amount: u64,
        duration: u64,
        now: u64,
    ) -> (r: Result<u64, LoanError>)
        requires
            old(self).wf(),
            caller@ == borrower@ && old(self)@.admin is Some ==> old(self)@.max_ltv > 0,
            old(self)@.create_loan(
                caller@,
                borrower@,
                collateral_amount as nat,
                loan_amount as nat,
                duration as nat,
                now as nat,
            ) is Ok ==> old(self)@.next_loan_id < u64::MAX,
        ensures
            final(self).wf(),
            match r {
                Ok(loan_id) => {
                    &&& old(self)@.create_loan(
                        caller@,
                        borrower@,
                        collateral_amount as nat,
                        loan_amount as nat,
                        duration as nat,
                        now as nat,
                    ) == Ok::<LoanState, LoanError>(final(self)@)
                    &&& loan_id == old(self)@.next_loan_id
                    &&& loan_id == old(self)@.loans.len() + 1
                    &&& final(self)@.loan(loan_id as nat) == Some(
                        old(self)@.new_loan(
                            borrower@,
                            collateral_amount as nat,
                            loan_amount as nat,
                            duration as nat,
                            now as nat,
                        ),
                    )
                },
                Err(e) => {
                    &&& old(self)@.create_loan(
                        caller@,
                        borrower@,
                        collateral_amount as nat,
                        loan_amount as nat,
                        duration as nat,
                        now as nat,
                    ) == Err::<LoanState, LoanError>(e)
                    &&& final(self)@ == old(self)@
                },
            },
    {
        if !caller.same(&borrower) {
            return Err(LoanError::Unauthorized);
        }
        if self.admin.is_none() {
            return Err(LoanError::NotInitialized);
        }
        if (collateral_amount as u128) < collateral_needed(loan_amount, self.max_ltv) {
            return Err(LoanError::InsufficientCollateral);
        }
        let loan_id = self.next_loan_id;
        let mut ids = self.get_borrower_loans(&borrower);
        ids.push(loan_id);
        let loan = Loan {
            id: loan_id,
            borrower: borrower.clone(),
            collateral_amount,
            loan_amount,
            interest_rate: INTEREST_RATE,
            start_time: now,
            duration,
            status: LoanStatus::Active,
        };
        proof {
            assert(registry(self.loans@.push(loan)) =~= registry(self.loans@).push(loan@));
            assert(loan_ids(ids@) =~= self@.loans_of(borrower@).push(loan_id as nat));
            assert(ledger(self.borrower_loans@.insert(borrower@, ids)) =~= ledger(
                self.borrower_loans@,
            ).insert(borrower@, loan_ids(ids@)));
        }
        self.next_loan_id = loan_id + 1;
        self.loans.push(loan);
        self.borrower_loans.set(borrower, ids);
        Ok(loan_id)
    }

    /// Settles the loan `loan_id` with `repayment_amount` at time `now`.
    /// Any caller may settle any loan.
    ///
    /// Refused with `LoanNotFound` where no loan has the id, with
    /// `LoanNotActive` where the loan is not active, and with `InvalidAmount`
    /// where `repayment_amount` is less than the principal and the interest
    /// accrued. `now` must not lie before the start of an active loan.
    pub fn repay_loan(&mut self, loan_id: u64, repayment_amount: u64, now: u64) -> (r: Result<
        (),
        LoanError,
    >)
        requires
            old(self).wf(),
            old(self)@.loan(loan_id as nat) matches Some(loan) ==> loan.status == LoanStatus::Active
                ==> loan.start_time <= now,
        ensures
            final(self).wf(),
            match r {
                Ok(_) => old(self)@.repay_loan(loan_id as nat, repayment_amount as nat, now as nat)
                    == Ok::<LoanState, LoanError>(final(self)@),
                Err(e) => old(self)@.repay_loan(loan_id as nat, repayment_amount as nat, now as nat)
                    == Err::<LoanState, LoanError>(e) && final(self)@ == old(self)@,
            },
    {
        let i = match self.slot(loan_id) {
            None => {
                return Err(LoanError::LoanNotFound);
            },
            Some(i) => i,
        };
        let loan = &self.loans[i];
        match loan.status {
            LoanStatus::Active => {},
            _ => {
                return Err(LoanError::LoanNotActive);
            },
        }
        let elapsed = now - loan.start_time;
        match amount_owed(loan.loan_amount, loan.interest_rate, elapsed) {
            None => {
                return Err(LoanError::InvalidAmount);
            },
            Some(owed) => {
                if repayment_amount < owed {
                    return Err(LoanError::InvalidAmount);
                }
            },
        }
        self.mark(i, loan_id, LoanStatus::Repaid);
        Ok(())
    }

    /// Liquidates the loan `loan_id` on behalf of `caller`, whatever its
    /// collateral is worth and whenever it is due.
    ///
    /// Refused unless `caller` is the administrator, with `LoanNotFound`
    /// where no loan has the id, and with `LoanNotActive` where the loan is
    /// not active.
    pub fn liquidate_loan(&mut self, caller: &Address, loan_id: u64) -> (r: Result<(), LoanError>)
        requires
            old(self).wf(),
        ensures
            final(self).wf(),
            match r {
                Ok(_) => old(self)@.liquidate_loan(caller@, loan_id as nat) == Ok::<
                    LoanState,
                    LoanError,
                >(final(self)@),
                Err(e) => old(self)@.liquidate_loan(caller@, loan_id as nat) == Err::<
                    LoanState,
                    LoanError,
                >(e) && final(self)@ == old(self)@,
            },
    {
        if let Err(e) = self.require_admin(caller) {
            return Err(e);
        }
        let i = match self.slot(loan_id) {
            None => {
                return Err(LoanError::LoanNotFound);
            },
            Some(i) => i,
        };
        match self.loans[i].status {
            LoanStatus::Active => {},
            _ => {
                return Err(LoanError::LoanNotActive);
            },
        }
        self.mark(i, loan_id, LoanStatus::Liquidated);
        Ok(())
    }

    /// The loan `loan_id`. Refused with `LoanNotFound` where no loan has the
    /// id.
    pub fn get_loan(&self, loan_id: u64) -> (r: Result<Loan, LoanError>)
        ensures
            match r {
                Ok(loan) => self@.loan(loan_id as nat) == Some(loan@),
                Err(e) => e == LoanError::LoanNotFound && self@.loan(loan_id as nat) is None,
            },
    {
        match self.slot(loan_id) {
            None => Err(LoanError::LoanNotFound),
            Some(i) => Ok(self.loans[i].clone()),
        }
    }

    /// The ids of the loans of `borrower`, in the order in which they were
    /// made: none where it never borrowed.
    pub fn get_borrower_loans(&self, borrower: &Address) -> (r: Vec<u64>)
        requires
            self.wf(),
        ensures
            loan_ids(r@) == self@.loans_of(borrower@),
    {
        match self.borrower_loans.get(borrower) {
            None => Vec::new(),
            Some(ids) => {
                let copy = ids.clone();
                assert(copy@ =~= ids@);
                copy
            },
        }
    }

    /// Replaces the largest loan-to-value ratio accepted by `new_max_ltv`
    /// basis points, on behalf of `caller`. Refused unless `caller` is the
    /// administrator.
    pub fn set_max_ltv(&mut self, caller: &Address, new_max_ltv: u32) -> (r: Result<(), LoanError>)
        requires
            old(self).wf(),
        ensures
            final(self).wf(),
            match r {
                Ok(_) => old(self)@.set_max_ltv(caller@, new_max_ltv as nat) == Ok::<
                    LoanState,
                    LoanError,
                >(final(self)@),
                Err(e) => old(self)@.set_max_ltv(caller@, new_max_ltv as nat) == Err::<
                    LoanState,
                    LoanError,
                >(e) && final(self)@ == old(self)@,
            },
    {
        if let Err(e) = self.require_admin(caller) {
            return Err(e);
        }
        self.max_ltv = new_max_ltv;
        Ok(())
    }

    /// The largest loan-to-value ratio accepted, in basis points. Refused
    /// with `NotInitialized` on an engine without an administrator.
    pub fn get_max_ltv(&self) -> (r: Result<u32, LoanError>)
        ensures
            match r {
                Ok(max_ltv) => self@.admin is Some && max_ltv == self@.max_ltv,
                Err(e) => e == LoanError::NotInitialized && self@.admin is None,
            },
    {
        if self.admin.is_some() {
            Ok(self.max_ltv)
        } else {
            Err(LoanError::NotInitialized)
        }
    }

    /// The administrator, once the engine is initialized.
    pub fn admin(&self) -> (r: Option<Address>)
        ensures
            match r {
                Some(a) => self@.admin == Some(a@),
                None => self@.admin is None,
            },
    {
        match &self.admin {
            Some(a) => Some(a.clone()),
            None => None,
        }
    }

    /// The id that the next loan gets: 0 on an engine without an
    /// administrator.
    pub fn next_loan_id(&self) -> (r: u64)
        ensures
            r == self@.next_loan_id,
    {
        self.next_loan_id
    }
}

} // verus!
