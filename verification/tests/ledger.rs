use dst_contracts::address::Address;
use dst_contracts::token::DSTToken;
use dst_contracts::token::DataKey;
use dst_contracts::token::ReservesData;
use dst_contracts::token::TokenEvent;
use dst_contracts::token_model::TokenError;
use dst_contracts::token_model::UserRole;

fn principal(tag: u8) -> Address {
    Address::new(vec![tag; 32])
}

fn hash(text: &str) -> String {
    text.to_string()
}

/// A ledger initialized at time 1000 by principal 1, who minted 100 to
/// principal 2 at time 2000.
fn funded() -> (DSTToken, Address, Address) {
    let admin = principal(1);
    let user = principal(2);
    let mut token = DSTToken::new();
    token.initialize(admin.clone(), 1_000).unwrap();
    token.mint(&admin, user.clone(), 100, hash("proof123"), 2_000).unwrap();
    (token, admin, user)
}

#[test]
fn test_initialize() {
    let admin = principal(1);
    let mut token = DSTToken::new();

    token.initialize(admin.clone(), 1_000).unwrap();

    let stored_admin: Address = token.admin().unwrap();
    assert_eq!(stored_admin, admin);
}

#[test]
fn test_mint() {
    let admin = principal(1);
    let user = principal(2);
    let mut token = DSTToken::new();

    token.initialize(admin.clone(), 1_000).unwrap();

    token.mint(&admin, user.clone(), 100, hash("proof123"), 2_000).unwrap();

    let balance = token.balance(&user);
    assert_eq!(balance, 100);

    let total_supply = token.total_supply();
    assert_eq!(total_supply, 100);
}

#[test]
fn test_transfer() {
    let admin = principal(1);
    let from = principal(2);
    let to = principal(3);
    let mut token = DSTToken::new();

    token.initialize(admin.clone(), 1_000).unwrap();

    token.mint(&admin, from.clone(), 100, hash("proof123"), 2_000).unwrap();

    token.transfer(&from, from.clone(), to.clone(), 50).unwrap();

    let from_balance = token.balance(&from);
    let to_balance = token.balance(&to);

    assert_eq!(from_balance, 50);
    assert_eq!(to_balance, 50);
}

#[test]
fn fresh_ledger_holds_nothing() {
    let token = DSTToken::new();
    assert_eq!(token.admin(), None);
    assert_eq!(token.total_supply(), 0);
    assert_eq!(token.balance(&principal(2)), 0);
    assert!(!token.is_frozen(&principal(2)));
    assert_eq!(token.get_role(&principal(2)), UserRole::User);
    assert_eq!(token.get_reserves_proof(), Err(TokenError::NotInitialized));
    assert!(!token.has(&DataKey::Admin));
    assert!(!token.has(&DataKey::TotalSupply));
    assert!(!token.has(&DataKey::ReservesProof));
    assert!(!token.has(&DataKey::Balance(principal(2))));
}

#[test]
fn initialize_sets_up_the_ledger() {
    let admin = principal(1);
    let mut token = DSTToken::new();
    assert_eq!(token.initialize(admin.clone(), 1_000), Ok(()));
    assert_eq!(token.total_supply(), 0);
    assert_eq!(token.get_role(&admin), UserRole::Admin);
    assert_eq!(
        token.get_reserves_proof(),
        Ok(ReservesData { proof_hash: String::new(), total_silver_grams: 0, timestamp: 1_000 })
    );
    assert!(token.has(&DataKey::Admin));
    assert!(token.has(&DataKey::TotalSupply));
    assert!(token.has(&DataKey::ReservesProof));
    assert!(token.has(&DataKey::Role(admin.clone())));
    assert!(!token.has(&DataKey::Role(principal(2))));
    assert!(!token.has(&DataKey::Frozen(admin)));
}

#[test]
fn initialize_twice_is_refused() {
    let mut token = DSTToken::new();
    token.initialize(principal(1), 1_000).unwrap();
    assert_eq!(token.initialize(principal(9), 5_000), Err(TokenError::AlreadyInitialized));
    assert_eq!(token.admin(), Some(principal(1)));
    assert_eq!(token.get_role(&principal(9)), UserRole::User);
    assert_eq!(token.get_reserves_proof().unwrap().timestamp, 1_000);
}

#[test]
fn mint_reports_the_event_and_attests_the_new_supply() {
    let (mut token, admin, user) = funded();
    assert_eq!(
        token.get_reserves_proof(),
        Ok(ReservesData { proof_hash: hash("proof123"), total_silver_grams: 100, timestamp: 2_000 })
    );
    let event = token.mint(&admin, principal(3), 40, hash("second"), 3_000);
    assert_eq!(event, Ok(TokenEvent::Mint { to: principal(3), amount: 40 }));
    assert_eq!(token.total_supply(), 140);
    assert_eq!(token.balance(&user), 100);
    assert_eq!(token.balance(&principal(3)), 40);
    assert_eq!(
        token.get_reserves_proof(),
        Ok(ReservesData { proof_hash: hash("second"), total_silver_grams: 140, timestamp: 3_000 })
    );
    assert!(token.has(&DataKey::Balance(principal(3))));
}

#[test]
fn mint_before_initialize_is_refused() {
    let mut token = DSTToken::new();
    assert_eq!(
        token.mint(&principal(1), principal(2), 5, hash("p"), 1),
        Err(TokenError::NotInitialized)
    );
    assert_eq!(token.total_supply(), 0);
    assert_eq!(token.balance(&principal(2)), 0);
}

#[test]
fn mint_by_a_stranger_is_refused() {
    let (mut token, _admin, user) = funded();
    assert_eq!(
        token.mint(&user, user.clone(), 5, hash("p"), 3_000),
        Err(TokenError::Unauthorized)
    );
    assert_eq!(token.total_supply(), 100);
    assert_eq!(token.balance(&user), 100);
    assert_eq!(token.get_reserves_proof().unwrap().proof_hash, hash("proof123"));
}

#[test]
fn mint_to_a_frozen_holder_is_refused() {
    let (mut token, admin, user) = funded();
    token.set_freeze(&admin, user.clone(), true).unwrap();
    assert_eq!(
        token.mint(&admin, user.clone(), 5, hash("p"), 3_000),
        Err(TokenError::AccountFrozen)
    );
    assert_eq!(token.total_supply(), 100);
    assert_eq!(token.balance(&user), 100);
    assert_eq!(token.get_reserves_proof().unwrap().timestamp, 2_000);
}

#[test]
fn mint_up_to_the_largest_supply() {
    let admin = principal(1);
    let mut token = DSTToken::new();
    token.initialize(admin.clone(), 0).unwrap();
    token.mint(&admin, principal(2), u64::MAX - 1, hash("a"), 1).unwrap();
    token.mint(&admin, principal(3), 1, hash("b"), 2).unwrap();
    assert_eq!(token.total_supply(), u64::MAX);
    assert_eq!(token.balance(&principal(2)), u64::MAX - 1);
    assert_eq!(token.balance(&principal(3)), 1);
    token.transfer(&principal(3), principal(3), principal(2), 1).unwrap();
    assert_eq!(token.balance(&principal(2)), u64::MAX);
    assert_eq!(token.total_supply(), u64::MAX);
}

#[test]
fn burn_lowers_supply_and_balance() {
    let (mut token, admin, user) = funded();
    let event = token.burn(&admin, user.clone(), 30);
    assert_eq!(event, Ok(TokenEvent::Burn { from: user.clone(), amount: 30 }));
    assert_eq!(token.total_supply(), 70);
    assert_eq!(token.balance(&user), 70);
}

#[test]
fn burn_leaves_the_attestation_alone() {
    let (mut token, admin, user) = funded();
    token.burn(&admin, user, 30).unwrap();
    assert_eq!(
        token.get_reserves_proof(),
        Ok(ReservesData { proof_hash: hash("proof123"), total_silver_grams: 100, timestamp: 2_000 })
    );
}

#[test]
fn burn_more_than_held_is_refused() {
    let (mut token, admin, user) = funded();
    assert_eq!(token.burn(&admin, user.clone(), 101), Err(TokenError::InsufficientBalance));
    assert_eq!(token.burn(&admin, principal(7), 1), Err(TokenError::InsufficientBalance));
    assert_eq!(token.total_supply(), 100);
    assert_eq!(token.balance(&user), 100);
    assert_eq!(token.burn(&admin, user.clone(), 100).map(|_| ()), Ok(()));
    assert_eq!(token.total_supply(), 0);
    assert_eq!(token.balance(&user), 0);
    assert!(token.has(&DataKey::Balance(user)));
}

#[test]
fn burn_by_a_stranger_is_refused() {
    let (mut token, _admin, user) = funded();
    assert_eq!(token.burn(&user, user.clone(), 1), Err(TokenError::Unauthorized));
    let mut fresh = DSTToken::new();
    assert_eq!(fresh.burn(&user, user.clone(), 0), Err(TokenError::NotInitialized));
    assert_eq!(token.total_supply(), 100);
}

#[test]
fn burn_from_a_frozen_holder_is_carried_out() {
    let (mut token, admin, user) = funded();
    token.set_freeze(&admin, user.clone(), true).unwrap();
    assert!(token.burn(&admin, user.clone(), 10).is_ok());
    assert_eq!(token.balance(&user), 90);
    assert_eq!(token.total_supply(), 90);
}

#[test]
fn transfer_keeps_the_supply() {
    let (mut token, _admin, user) = funded();
    let user2 = principal(3);
    let event = token.transfer(&user, user.clone(), user2.clone(), 50);
    assert_eq!(event, Ok(TokenEvent::Transfer { from: user.clone(), to: user2.clone(), amount: 50 }));
    assert_eq!(token.balance(&user), 50);
    assert_eq!(token.balance(&user2), 50);
    assert_eq!(token.total_supply(), 100);
    assert_eq!(token.balance(&user) + token.balance(&user2), token.total_supply());
}

#[test]
fn transfer_from_a_frozen_sender_is_refused() {
    let (mut token, admin, user) = funded();
    let user2 = principal(3);
    token.transfer(&user, user.clone(), user2.clone(), 50).unwrap();
    token.set_freeze(&admin, user.clone(), true).unwrap();
    assert_eq!(
        token.transfer(&user, user.clone(), user2.clone(), 1),
        Err(TokenError::AccountFrozen)
    );
    assert_eq!(token.balance(&user), 50);
    assert_eq!(token.balance(&user2), 50);
    assert_eq!(token.total_supply(), 100);
}

#[test]
fn transfer_to_a_frozen_receiver_is_refused() {
    let (mut token, admin, user) = funded();
    let user2 = principal(3);
    token.set_freeze(&admin, user2.clone(), true).unwrap();
    assert_eq!(
        token.transfer(&user, user.clone(), user2.clone(), 1),
        Err(TokenError::AccountFrozen)
    );
    assert_eq!(token.balance(&user), 100);
    assert_eq!(token.balance(&user2), 0);
}

#[test]
fn transfer_resumes_after_the_hold_is_lifted() {
    let (mut token, admin, user) = funded();
    token.set_freeze(&admin, user.clone(), true).unwrap();
    assert!(token.is_frozen(&user));
    token.set_freeze(&admin, user.clone(), false).unwrap();
    assert!(!token.is_frozen(&user));
    assert!(token.has(&DataKey::Frozen(user.clone())));
    assert!(token.transfer(&user, user.clone(), principal(3), 1).is_ok());
    assert_eq!(token.balance(&principal(3)), 1);
}

#[test]
fn transfer_more_than_held_is_refused() {
    let (mut token, _admin, user) = funded();
    assert_eq!(
        token.transfer(&user, user.clone(), principal(3), 101),
        Err(TokenError::InsufficientBalance)
    );
    assert_eq!(
        token.transfer(&principal(3), principal(3), user.clone(), 1),
        Err(TokenError::InsufficientBalance)
    );
    assert_eq!(token.balance(&user), 100);
    assert_eq!(token.balance(&principal(3)), 0);
}

#[test]
fn transfer_by_another_principal_is_refused() {
    let (mut token, admin, user) = funded();
    assert_eq!(
        token.transfer(&admin, user.clone(), principal(3), 1),
        Err(TokenError::Unauthorized)
    );
    assert_eq!(token.balance(&user), 100);
}

#[test]
fn transfer_refusals_come_in_order() {
    let (mut token, admin, user) = funded();
    token.set_freeze(&admin, user.clone(), true).unwrap();
    // Not the sender, frozen and short of funds: the caller is checked first.
    assert_eq!(
        token.transfer(&admin, user.clone(), principal(3), 1_000),
        Err(TokenError::Unauthorized)
    );
    // The sender, frozen and short of funds: the hold is checked next.
    assert_eq!(
        token.transfer(&user, user.clone(), principal(3), 1_000),
        Err(TokenError::AccountFrozen)
    );
}

#[test]
fn transfer_to_oneself_changes_nothing() {
    let (mut token, _admin, user) = funded();
    assert!(token.transfer(&user, user.clone(), user.clone(), 60).is_ok());
    assert_eq!(token.balance(&user), 100);
    assert_eq!(token.total_supply(), 100);
    assert_eq!(
        token.transfer(&user, user.clone(), user.clone(), 101),
        Err(TokenError::InsufficientBalance)
    );
}

#[test]
fn transfer_of_nothing_is_carried_out() {
    let (mut token, _admin, user) = funded();
    assert!(token.transfer(&principal(5), principal(5), principal(6), 0).is_ok());
    assert_eq!(token.balance(&principal(5)), 0);
    assert_eq!(token.balance(&principal(6)), 0);
    assert_eq!(token.balance(&user), 100);
    assert_eq!(token.total_supply(), 100);
}

#[test]
fn supply_equals_the_sum_of_balances_throughout() {
    let admin = principal(1);
    let a = principal(2);
    let b = principal(3);
    let c = principal(4);
    let mut token = DSTToken::new();
    let sum = |t: &DSTToken| t.balance(&admin) + t.balance(&a) + t.balance(&b) + t.balance(&c);
    assert_eq!(token.total_supply(), sum(&token));
    token.initialize(admin.clone(), 0).unwrap();
    assert_eq!(token.total_supply(), sum(&token));
    token.mint(&admin, a.clone(), 700, hash("p1"), 1).unwrap();
    assert_eq!(token.total_supply(), sum(&token));
    token.mint(&admin, b.clone(), 300, hash("p2"), 2).unwrap();
    assert_eq!(token.total_supply(), sum(&token));
    token.transfer(&a, a.clone(), c.clone(), 250).unwrap();
    assert_eq!(token.total_supply(), sum(&token));
    token.burn(&admin, b.clone(), 120).unwrap();
    assert_eq!(token.total_supply(), sum(&token));
    let _ = token.transfer(&c, c.clone(), a.clone(), 900);
    assert_eq!(token.total_supply(), sum(&token));
    token.transfer(&c, c.clone(), c.clone(), 10).unwrap();
    assert_eq!(token.total_supply(), sum(&token));
    assert_eq!(token.total_supply(), 880);
    assert_eq!((token.balance(&a), token.balance(&b), token.balance(&c)), (450, 180, 250));
}

#[test]
fn set_freeze_is_for_the_administrator() {
    let (mut token, admin, user) = funded();
    assert_eq!(token.set_freeze(&user, admin.clone(), true), Err(TokenError::Unauthorized));
    assert!(!token.is_frozen(&admin));
    assert_eq!(
        token.set_freeze(&admin, user.clone(), true),
        Ok(TokenEvent::Freeze { address: user.clone(), frozen: true })
    );
    assert!(token.is_frozen(&user));
    let mut fresh = DSTToken::new();
    assert_eq!(fresh.set_freeze(&admin, user, true), Err(TokenError::NotInitialized));
}

#[test]
fn set_role_is_for_the_administrator() {
    let (mut token, admin, user) = funded();
    assert_eq!(
        token.set_role(&user, user.clone(), UserRole::Operator),
        Err(TokenError::Unauthorized)
    );
    assert_eq!(token.get_role(&user), UserRole::User);
    assert_eq!(
        token.set_role(&admin, user.clone(), UserRole::Operator),
        Ok(TokenEvent::RoleChanged { address: user.clone(), role: UserRole::Operator })
    );
    assert_eq!(token.get_role(&user), UserRole::Operator);
    token.set_role(&admin, admin.clone(), UserRole::User).unwrap();
    assert_eq!(token.get_role(&admin), UserRole::User);
    // The role is a label: the administrator stays the administrator.
    assert!(token.set_role(&admin, user.clone(), UserRole::Admin).is_ok());
    assert_eq!(
        token.set_role(&user, user.clone(), UserRole::User),
        Err(TokenError::Unauthorized)
    );
    let mut fresh = DSTToken::new();
    assert_eq!(
        fresh.set_role(&admin, user, UserRole::Admin),
        Err(TokenError::NotInitialized)
    );
}

#[test]
fn anchor_reserves_overwrites_the_attestation() {
    let (mut token, admin, user) = funded();
    assert_eq!(
        token.anchor_reserves(&admin, hash("audit"), 12_345, 4_000),
        Ok(TokenEvent::ReservesAnchored { total_silver_grams: 12_345 })
    );
    assert_eq!(
        token.get_reserves_proof(),
        Ok(ReservesData { proof_hash: hash("audit"), total_silver_grams: 12_345, timestamp: 4_000 })
    );
    assert_eq!(token.total_supply(), 100);
    assert_eq!(
        token.anchor_reserves(&user, hash("forged"), 1, 5_000),
        Err(TokenError::Unauthorized)
    );
    assert_eq!(token.get_reserves_proof().unwrap().proof_hash, hash("audit"));
    // The next mint replaces the anchored figure by the supply.
    token.mint(&admin, user, 1, hash("m"), 6_000).unwrap();
    assert_eq!(
        token.get_reserves_proof(),
        Ok(ReservesData { proof_hash: hash("m"), total_silver_grams: 101, timestamp: 6_000 })
    );
    let mut fresh = DSTToken::new();
    assert_eq!(
        fresh.anchor_reserves(&admin, hash("x"), 1, 1),
        Err(TokenError::NotInitialized)
    );
}

#[test]
fn addresses_compare_by_their_bytes() {
    let a = Address::new(vec![1, 2, 3]);
    let b = Address::new(vec![1, 2, 3]);
    let c = Address::new(vec![1, 2]);
    let d = Address::new(vec![1, 2, 4]);
    assert!(a.same(&b));
    assert!(!a.same(&c));
    assert!(!c.same(&a));
    assert!(!a.same(&d));
    assert!(Address::new(vec![]).same(&Address::new(vec![])));
    assert_eq!(a.clone(), a);
    assert_eq!(a.as_bytes(), &vec![1u8, 2, 3]);
}

#[test]
fn ledgers_survive_being_taken_apart() {
    let (mut token, admin, user) = funded();
    token.set_freeze(&admin, principal(4), true).unwrap();
    token.transfer(&user, user.clone(), principal(3), 30).unwrap();
    let parts = token.into_parts();
    assert_eq!(parts.total_supply, 100);
    assert_eq!(parts.balances.len(), 2);
    assert_eq!(parts.balances.total(), 100);
    assert_eq!(parts.balances.entry(0), (&user, &70));
    assert_eq!(parts.balances.entry(1), (&principal(3), &30));
    assert_eq!(parts.roles.len(), 1);
    assert_eq!(parts.frozen.len(), 1);
    let restored = DSTToken::restore(parts).unwrap();
    assert_eq!(restored.admin(), Some(admin));
    assert_eq!(restored.balance(&user), 70);
    assert_eq!(restored.balance(&principal(3)), 30);
    assert_eq!(restored.total_supply(), 100);
    assert!(restored.is_frozen(&principal(4)));
    assert_eq!(restored.get_reserves_proof().unwrap().proof_hash, hash("proof123"));
}

#[test]
fn parts_that_do_not_add_up_are_not_restored() {
    let (token, _admin, _user) = funded();
    let mut parts = token.into_parts();
    parts.total_supply = 99;
    assert!(DSTToken::restore(parts).is_none());

    let (token, _admin, user) = funded();
    let mut parts = token.into_parts();
    parts.balances.set(user, 101);
    assert!(DSTToken::restore(parts).is_none());

    let (token, _admin, _user) = funded();
    let mut parts = token.into_parts();
    parts.admin = None;
    assert!(DSTToken::restore(parts).is_none());

    let (token, _admin, _user) = funded();
    let mut parts = token.into_parts();
    parts.balances.set(principal(8), 0);
    parts.balances.set(principal(9), u64::MAX);
    parts.balances.set(principal(9), 0);
    assert!(DSTToken::restore(parts).is_some());
}
