//! The lending engine as a mathematical state machine.
//!
//! A [`LoanState`] is the whole persistent state of the engine: its
//! settings, the registry of all loans in the order in which they were
//! made, and for each borrower the ids of its loans. Each operation is a
//! function from a state and its arguments to either the next state or the
//! reason for which the call is refused; a refused call leaves the state as
//! it was.

use vstd::arithmetic::div_mod::lemma_div_is_ordered;
use vstd::arithmetic::mul::lemma_mul_inequality;
use vstd::arithmetic::mul::lemma_mul_is_commutative;
use vstd::prelude::*;

verus! {

/// One hundred percent, in basis points.
pub const BASIS_POINTS: u64 = 10_000;

/// The largest loan-to-value ratio that a newly initialized engine accepts,
/// in basis points: one half.
pub const DEFAULT_MAX_LTV: u32 = 5_000;

/// The yearly interest rate of every loan, in basis points.
pub const INTEREST_RATE: u32 = 850;

/// The seconds of a year of 365 days.
pub const SECONDS_PER_YEAR: u64 = 31_536_000;

/// The divisor of the interest formula: basis points times the seconds of a
/// year.
pub const INTEREST_DIVISOR: u64 = 315_360_000_000;

/// Where a loan stands. `Defaulted` is part of the model, but no operation
/// moves a loan there.
#[derive(Clone, Copy, Debug, PartialEq, Eq, Structural)]
pub enum LoanStatus {
    Active,
    Repaid,
    Liquidated,
    Defaulted,
}

/// Why the engine refused a call.
#[derive(Clone, Copy, Debug, PartialEq, Eq, PartialOrd, Ord, Hash, Structural)]
pub enum LoanError {
    /// No loan has the id given.
    LoanNotFound,
    /// The collateral offered is less than the loan requires.
    InsufficientCollateral,
    /// The loan was repaid or liquidated before.
    LoanNotActive,
    /// The caller is not the principal that the operation is reserved for.
    Unauthorized,
    /// The repayment is less than what is owed.
    InvalidAmount,
    /// Reserved for loans past their term; no operation reports it.
    LoanExpired,
    /// `initialize` on an engine that already has an administrator.
    AlreadyInitialized,
    /// The engine has no administrator yet.
    NotInitialized,
    /// Reserved for partial repayments; no operation reports it.
    InsufficientRepayment,
}

/// The collateral that a loan of `loan_amount` requires at a largest
/// loan-to-value ratio of `max_ltv` basis points: `loan_amount` times 10000,
/// divided by `max_ltv` and rounded down. `max_ltv` is not 0.
pub open spec fn required_collateral(loan_amount: nat, max_ltv: nat) -> nat
    recommends
        max_ltv > 0,
{
    (loan_amount * BASIS_POINTS as nat / max_ltv) as nat
}

/// The interest that has accrued on `loan_amount` at `rate` basis points a
/// year after `elapsed` seconds: linear in time, rounded down.
pub open spec fn interest_due(loan_amount: nat, rate: nat, elapsed: nat) -> nat {
    (loan_amount * rate * elapsed / INTEREST_DIVISOR as nat) as nat
}

/// What settles a loan of `loan_amount` at `rate` basis points a year after
/// `elapsed` seconds: the principal and the interest accrued.
pub open spec fn total_owed(loan_amount: nat, rate: nat, elapsed: nat) -> nat {
    loan_amount + interest_due(loan_amount, rate, elapsed)
}

/// The seconds from `start` to `now`, on a clock that does not run backwards.
pub open spec fn elapsed_since(start: nat, now: nat) -> nat {
    if now >= start {
        (now - start) as nat
    } else {
        0
    }
}

/// The model of a loan.
pub struct LoanView {
    pub id: nat,
    pub borrower: Seq<u8>,
    pub collateral_amount: nat,
    pub loan_amount: nat,
    pub interest_rate: nat,
    pub start_time: nat,
    pub duration: nat,
    pub status: LoanStatus,
}

impl LoanView {
    /// What settles this loan at time `now`.
    pub open spec fn owed_at(self, now: nat) -> nat {
        total_owed(self.loan_amount, self.interest_rate, elapsed_since(self.start_time, now))
    }
}

/// A call of a state-changing operation, with its caller and the time at
/// which it is made where the operation depends on them.
pub enum LoanCall {
    Initialize { admin: Seq<u8> },
    CreateLoan {
        caller: Seq<u8>,
        borrower: Seq<u8>,
        collateral_amount: nat,
        loan_amount: nat,
        duration: nat,
        now: nat,
    },
    RepayLoan { loan_id: nat, repayment_amount: nat, now: nat },
    LiquidateLoan { caller: Seq<u8>, loan_id: nat },
    SetMaxLtv { caller: Seq<u8>, max_ltv: nat },
}

/// The persistent state of the lending engine.
pub struct LoanState {
    /// The administrator, once the engine is initialized.
    pub admin: Option<Seq<u8>>,
    /// The id that the next loan gets.
    pub next_loan_id: nat,
    /// The largest loan-to-value ratio accepted, in basis points.
    pub max_ltv: nat,
    /// All loans, in the order in which they were made.
    pub loans: Seq<LoanView>,
    /// For each borrower the ids of its loans, in the order in which they
    /// were made. A borrower without an entry has none.
    pub borrower_loans: Map<Seq<u8>, Seq<nat>>,
}

impl LoanState {
    /// The state of an engine on which nothing was called yet.
    pub open spec fn uninitialized() -> LoanState {
        LoanState {
            admin: None,
            next_loan_id: 0,
            max_ltv: 0,
            loans: Seq::empty(),
            borrower_loans: Map::empty(),
        }
    }

    /// The loan with the id `loan_id`, if there is one: ids count the loans
    /// from 1 in the order in which they were made.
    pub open spec fn loan(self, loan_id: nat) -> Option<LoanView> {
        if 1 <= loan_id <= self.loans.len() {
            Some(self.loans[loan_id - 1])
        } else {
            None
        }
    }

    /// The ids of the loans of `borrower`.
    pub open spec fn loans_of(self, borrower: Seq<u8>) -> Seq<nat> {
        if self.borrower_loans.dom().contains(borrower) {
            self.borrower_loans[borrower]
        } else {
            Seq::empty()
        }
    }

    /// The invariant of the engine: loans are numbered from 1 in the order
    /// in which they were made, the next id follows the last one given, and
    /// an engine without an administrator has made no loan.
    pub open spec fn sequential(self) -> bool {
        &&& forall|i: int| 0 <= i < self.loans.len() ==> (#[trigger] self.loans[i]).id == i + 1
        &&& self.admin is Some ==> self.next_loan_id == self.loans.len() + 1
        &&& self.admin is None ==> self.loans.len() == 0
    }

    /// The check that guards every administrative operation: the engine has
    /// an administrator and the caller is that principal.
    pub open spec fn admin_gate(self, caller: Seq<u8>) -> Option<LoanError> {
        match self.admin {
            None => Some(LoanError::NotInitialized),
            Some(admin) => if admin == caller {
                None
            } else {
                Some(LoanError::Unauthorized)
            },
        }
    }

    /// `initialize`: refused on an engine that has an administrator;
    /// otherwise installs `admin`, starts the ids at 1 and sets the largest
    /// loan-to-value ratio to one half.
    pub open spec fn initialize(self, admin: Seq<u8>) -> Result<LoanState, LoanError> {
        if self.admin is Some {
            Err(LoanError::AlreadyInitialized)
        } else {
            Ok(
                LoanState {
                    admin: Some(admin),
                    next_loan_id: 1,
                    max_ltv: DEFAULT_MAX_LTV as nat,
                    ..self
                },
            )
        }
    }

    /// The loan that `create_loan` records.
    pub open spec fn new_loan(
        self,
        borrower: Seq<u8>,
        collateral_amount: nat,
        loan_amount: nat,
        duration: nat,
        now: nat,
    ) -> LoanView {
        LoanView {
            id: self.next_loan_id,
            borrower,
            collateral_amount,
            loan_amount,
            interest_rate: INTEREST_RATE as nat,
            start_time: now,
            duration,
            status: LoanStatus::Active,
        }
    }

    /// `create_loan`: for the borrower only, on an initialized engine, and
    /// with at least the collateral that the loan requires. Records an
    /// active loan under the next id, at the fixed interest rate and
    /// starting `now`, and appends its id to the borrower's loans.
    pub open spec fn create_loan(
        self,
        caller: Seq<u8>,
        borrower: Seq<u8>,
        collateral_amount: nat,
        loan_amount: nat,
        duration: nat,
        now: nat,
    ) -> Result<LoanState, LoanError> {
        if caller != borrower {
            Err(LoanError::Unauthorized)
        } else if self.admin is None {
            Err(LoanError::NotInitialized)
        } else if collateral_amount < required_collateral(loan_amount, self.max_ltv) {
            Err(LoanError::InsufficientCollateral)
        } else {
            Ok(
                LoanState {
                    next_loan_id: self.next_loan_id + 1,
                    loans: self.loans.push(
                        self.new_loan(borrower, collateral_amount, loan_amount, duration, now),
                    ),
                    borrower_loans: self.borrower_loans.insert(
                        borrower,
                        self.loans_of(borrower).push(self.next_loan_id),
                    ),
                    ..self
                },
            )
        }
    }

    /// This state with the status of the loan `loan_id` set to `status`.
    pub open spec fn with_status(self, loan_id: nat, status: LoanStatus) -> LoanState
        recommends
            self.loan(loan_id) is Some,
    {
        LoanState {
            loans: self.loans.update(
                loan_id - 1,
                LoanView { status, ..self.loans[loan_id - 1] },
            ),
            ..self
        }
    }

    /// `repay_loan`: open to any caller. Refused where no loan has the id,
    /// where the loan is not active, and where `repayment_amount` is less
    /// than what is owed at `now`; otherwise the loan is repaid.
    pub open spec fn repay_loan(self, loan_id: nat, repayment_amount: nat, now: nat) -> Result<
        LoanState,
        LoanError,
    > {
        match self.loan(loan_id) {
            None => Err(LoanError::LoanNotFound),
            Some(loan) => if loan.status != LoanStatus::Active {
                Err(LoanError::LoanNotActive)
            } else if repayment_amount < loan.owed_at(now) {
                Err(LoanError::InvalidAmount)
            } else {
                Ok(self.with_status(loan_id, LoanStatus::Repaid))
            },
        }
    }

    /// `liquidate_loan`: for the administrator only. Refused where no loan
    /// has the id and where the loan is not active; otherwise the loan is
    /// liquidated, whatever its collateral is worth and whenever it is due.
    pub open spec fn liquidate_loan(self, caller: Seq<u8>, loan_id: nat) -> Result<
        LoanState,
        LoanError,
    > {
        if let Some(e) = self.admin_gate(caller) {
            Err(e)
        } else {
            match self.loan(loan_id) {
                None => Err(LoanError::LoanNotFound),
                Some(loan) => if loan.status != LoanStatus::Active {
                    Err(LoanError::LoanNotActive)
                } else {
                    Ok(self.with_status(loan_id, LoanStatus::Liquidated))
                },
            }
        }
    }

    /// `set_max_ltv`: for the administrator only. Replaces the largest
    /// loan-to-value ratio.
    pub open spec fn set_max_ltv(self, caller: Seq<u8>, max_ltv: nat) -> Result<LoanState, LoanError> {
        if let Some(e) = self.admin_gate(caller) {
            Err(e)
        } else {
            Ok(LoanState { max_ltv, ..self })
        }
    }

    /// What `call` does to this state: the next state, or the refusal.
    pub open spec fn step(self, call: LoanCall) -> Result<LoanState, LoanError> {
        match call {
            LoanCall::Initialize { admin } => self.initialize(admin),
            LoanCall::CreateLoan {
                caller,
                borrower,
                collateral_amount,
                loan_amount,
                duration,
                now,
            } => self.create_loan(caller, borrower, collateral_amount, loan_amount, duration, now),
            LoanCall::RepayLoan { loan_id, repayment_amount, now } => self.repay_loan(
                loan_id,
                repayment_amount,
                now,
            ),
            LoanCall::LiquidateLoan { caller, loan_id } => self.liquidate_loan(caller, loan_id),
            LoanCall::SetMaxLtv { caller, max_ltv } => self.set_max_ltv(caller, max_ltv),
        }
    }

    /// The state after `call`: a refused call changes nothing.
    pub open spec fn after(self, call: LoanCall) -> LoanState {
        match self.step(call) {
            Ok(next) => next,
            Err(_) => self,
        }
    }

    /// The state that a fresh engine reaches through `calls`, made in order.
    pub open spec fn run(calls: Seq<LoanCall>) -> LoanState
        decreases calls.len(),
    {
        if calls.len() == 0 {
            LoanState::uninitialized()
        } else {
            LoanState::run(calls.drop_last()).after(calls.last())
        }
    }
}

/// No call takes an engine out of the invariant: after it, as before it, the
/// loans are numbered from 1 in the order in which they were made.
pub proof fn lemma_step_keeps_numbering(s: LoanState, call: LoanCall)
    requires
        s.sequential(),
    ensures
        s.after(call).sequential(),
        s.after(call).loans.len() >= s.loans.len(),
{
}

/// Loan ids are given out in strictly increasing order, starting at 1,
/// whoever borrows: in every state that a fresh engine can reach, the loan
/// made first has the id 1, each later one the id of the one before it plus
/// 1, and a loan that `create_loan` records next gets the id that follows.
pub proof fn lemma_loan_ids_count_up(calls: Seq<LoanCall>)
    ensures
        LoanState::run(calls).sequential(),
        forall|i: int, j: int|
            0 <= i < j < LoanState::run(calls).loans.len() ==> (#[trigger] LoanState::run(
                calls,
            ).loans[i]).id < (#[trigger] LoanState::run(calls).loans[j]).id,
        LoanState::run(calls).loans.len() > 0 ==> LoanState::run(calls).loans[0].id == 1,
        forall|caller: Seq<u8>, borrower: Seq<u8>, collateral: nat, amount: nat, duration: nat, now: nat|
            (#[trigger] LoanState::run(calls).create_loan(
                caller,
                borrower,
                collateral,
                amount,
                duration,
                now,
            )) matches Ok(next) ==> next.loans.last().id == LoanState::run(calls).loans.len() + 1,
    decreases calls.len(),
{
    if calls.len() > 0 {
        lemma_loan_ids_count_up(calls.drop_last());
        lemma_step_keeps_numbering(LoanState::run(calls.drop_last()), calls.last());
    }
}

/// A loan is granted exactly where the collateral offered is at least the
/// loan amount times 10000, divided by the largest loan-to-value ratio and
/// rounded down; with less it is refused with `InsufficientCollateral`.
pub proof fn lemma_collateral_threshold(
    s: LoanState,
    borrower: Seq<u8>,
    collateral_amount: nat,
    loan_amount: nat,
    duration: nat,
    now: nat,
)
    requires
        s.admin is Some,
        s.max_ltv > 0,
    ensures
        required_collateral(loan_amount, s.max_ltv) == loan_amount * 10000 / s.max_ltv,
        collateral_amount >= required_collateral(loan_amount, s.max_ltv) <==> s.create_loan(
            borrower,
            borrower,
            collateral_amount,
            loan_amount,
            duration,
            now,
        ) is Ok,
        collateral_amount < required_collateral(loan_amount, s.max_ltv) <==> s.create_loan(
            borrower,
            borrower,
            collateral_amount,
            loan_amount,
            duration,
            now,
        ) == Err::<LoanState, LoanError>(LoanError::InsufficientCollateral),
{
    assert(loan_amount * 10000 / s.max_ltv >= 0) by (nonlinear_arith)
        requires
            s.max_ltv > 0,
    ;
}

/// What is owed on a loan never shrinks as time passes.
pub proof fn lemma_total_owed_grows_with_time(loan_amount: nat, rate: nat, earlier: nat, later: nat)
    requires
        earlier <= later,
    ensures
        total_owed(loan_amount, rate, earlier) <= total_owed(loan_amount, rate, later),
{
    let yearly = loan_amount * rate;
    lemma_mul_inequality(earlier as int, later as int, yearly as int);
    lemma_mul_is_commutative(earlier as int, yearly as int);
    lemma_mul_is_commutative(later as int, yearly as int);
    lemma_div_is_ordered((yearly * earlier) as int, (yearly * later) as int, INTEREST_DIVISOR as int);
}

/// On an active loan, a repayment of exactly what is owed settles it, and
/// one unit less is refused with `InvalidAmount` and leaves it active.
pub proof fn lemma_repayment_threshold(s: LoanState, loan_id: nat, now: nat)
    requires
        s.loan(loan_id) matches Some(loan) && loan.status == LoanStatus::Active,
    ensures
        s.repay_loan(loan_id, s.loan(loan_id).unwrap().owed_at(now), now) matches Ok(next)
            && next.loan(loan_id).unwrap().status == LoanStatus::Repaid,
        s.loan(loan_id).unwrap().owed_at(now) > 0 ==> {
            let short = (s.loan(loan_id).unwrap().owed_at(now) - 1) as nat;
            &&& s.repay_loan(loan_id, short, now) == Err::<LoanState, LoanError>(
                LoanError::InvalidAmount,
            )
            &&& s.after(LoanCall::RepayLoan { loan_id, repayment_amount: short, now }).loan(
                loan_id,
            ).unwrap().status == LoanStatus::Active
        },
{
}

/// The administrator is set once, by `initialize`, and never replaced.
pub proof fn lemma_admin_is_set_once(s: LoanState, call: LoanCall)
    ensures
        s.admin is Some ==> s.after(call).admin == s.admin,
        s.admin is None && s.after(call).admin is Some ==> call is Initialize,
{
}

/// Loans are never deleted: a call leaves every loan in its place and
/// changes at most its status, and that only while the loan is active. Each
/// borrower's list of loans only grows, at its end.
pub proof fn lemma_registry_only_grows(s: LoanState, call: LoanCall)
    ensures
        s.after(call).loans.len() >= s.loans.len(),
        forall|i: int|
            0 <= i < s.loans.len() ==> (#[trigger] s.after(call).loans[i]) == (LoanView {
                status: s.after(call).loans[i].status,
                ..s.loans[i]
            }),
        forall|i: int|
            0 <= i < s.loans.len() && s.loans[i].status != LoanStatus::Active ==> (
            #[trigger] s.after(call).loans[i]) == s.loans[i],
        forall|borrower: Seq<u8>|
            s.loans_of(borrower).is_prefix_of(#[trigger] s.after(call).loans_of(borrower)),
{
    assert forall|borrower: Seq<u8>|
        s.loans_of(borrower).is_prefix_of(#[trigger] s.after(call).loans_of(borrower)) by {
        let before = s.loans_of(borrower);
        let after = s.after(call).loans_of(borrower);
        assert(before.len() <= after.len());
        assert(before =~= after.subrange(0, before.len() as int));
    }
}

/// No operation defaults a loan, and every loan is made at the fixed
/// interest rate: in no state that a fresh engine can reach is a loan
/// `Defaulted`, however long ago its term ended, or at another rate.
pub proof fn lemma_no_reachable_loan_is_defaulted(calls: Seq<LoanCall>)
    ensures
        forall|i: int|
            0 <= i < LoanState::run(calls).loans.len() ==> {
                &&& (#[trigger] LoanState::run(calls).loans[i]).status != LoanStatus::Defaulted
                &&& LoanState::run(calls).loans[i].interest_rate == INTEREST_RATE
            },
    decreases calls.len(),
{
    if calls.len() > 0 {
        lemma_no_reachable_loan_is_defaulted(calls.drop_last());
        let before = LoanState::run(calls.drop_last());
        lemma_registry_only_grows(before, calls.last());
        assert forall|i: int| 0 <= i < LoanState::run(calls).loans.len() implies {
            &&& (#[trigger] LoanState::run(calls).loans[i]).status != LoanStatus::Defaulted
            &&& LoanState::run(calls).loans[i].interest_rate == INTEREST_RATE
        } by {
            if i < before.loans.len() {
                assert(before.loans[i].status != LoanStatus::Defaulted);
            }
        }
    }
}

} // verus!
