use carbon_tokens::commitment::{
    CarbonCreditContract, CommitmentState, ContractData, CreditEvent,
};
use carbon_tokens::ledger::TokenContract;
use carbon_tokens::{AccountId, Error};

#[test]
fn test_create_contract() {
    let buyer = AccountId { id: 1 };
    let price_per_token = 10;
    let total_value = 100;

    let mut contract = CarbonCreditContract::new();
    contract
        .create(buyer, price_per_token, total_value, true)
        .unwrap();

    let contract_data = contract.get_contract_data().unwrap();
    assert_eq!(contract_data.buyer, buyer);
    assert_eq!(contract_data.price_per_token, price_per_token);
    assert_eq!(contract_data.total_value, total_value);
    assert_eq!(contract_data.assigned_tokens, 0);

    let events = &contract.events;
    assert_eq!(events.len(), 1);
    match events[0] {
        CreditEvent::CommitmentCreated {
            buyer: event_buyer,
            price_per_token: event_price,
            total_value: event_total,
        } => {
            assert_eq!(event_buyer, buyer);
            assert_eq!(event_price, price_per_token);
            assert_eq!(event_total, total_value);
        }
        _ => panic!("expected a CommitmentCreated event"),
    }
}

#[test]
fn test_assign_tokens_and_retire() {
    let buyer = AccountId { id: 1 };
    let seller = AccountId { id: 2 };

    let price_per_token = 10;
    let total_value = 100;

    let mut contract = CarbonCreditContract::new();
    contract
        .create(buyer, price_per_token, total_value, true)
        .unwrap();

    let initial_token_amount = 50;
    let mut token = TokenContract::new();
    token.mint(seller, initial_token_amount as u128).unwrap();

    contract
        .assign_tokens(seller, &mut token, initial_token_amount, true)
        .unwrap();

    let contract_data = contract.get_contract_data().unwrap();
    assert_eq!(contract_data.assigned_tokens, initial_token_amount);
    assert_eq!(
        contract_data.total_value - contract_data.assigned_tokens,
        50
    );

    let events = &contract.events;
    assert_eq!(events.len(), 2);
    match events[1] {
        CreditEvent::TokensAssigned {
            seller: event_seller,
            amount,
            outstanding,
        } => {
            assert_eq!(event_seller, seller);
            assert_eq!(amount, initial_token_amount);
            assert_eq!(outstanding, 50);
        }
        _ => panic!("expected a TokensAssigned event"),
    }

    // The assigned credits were burned, not merely moved.
    assert_eq!(token.balance_of(seller), 0);
    assert_eq!(token.total_supply(), 0);
}

#[test]
fn test_fully_assign_tokens() {
    let buyer = AccountId { id: 1 };
    let seller = AccountId { id: 2 };

    let price_per_token = 10;
    let total_value = 100;

    let mut contract = CarbonCreditContract::new();
    contract
        .create(buyer, price_per_token, total_value, true)
        .unwrap();

    let token_amount = 100;
    let mut token = TokenContract::new();
    token.mint(seller, token_amount as u128).unwrap();

    contract
        .assign_tokens(seller, &mut token, token_amount, true)
        .unwrap();

    let contract_data = contract.get_contract_data().unwrap();
    assert_eq!(contract_data.assigned_tokens, total_value);
    assert_eq!(contract_data.total_value - contract_data.assigned_tokens, 0);

    let events = &contract.events;
    assert_eq!(events.len(), 2);
    match events[1] {
        CreditEvent::TokensAssigned {
            seller: event_seller,
            amount,
            outstanding,
        } => {
            assert_eq!(event_seller, seller);
            assert_eq!(amount, token_amount);
            assert_eq!(outstanding, 0);
        }
        _ => panic!("expected a TokensAssigned event"),
    }

    assert_eq!(contract.state(), CommitmentState::Fulfilled);
}

#[test]
fn create_twice_fails_with_already_exists() {
    let buyer = AccountId { id: 1 };
    let mut contract = CarbonCreditContract::new();
    contract.create(buyer, 10, 100, true).unwrap();
    assert_eq!(
        contract.create(buyer, 10, 100, true),
        Err(Error::AlreadyExists)
    );
    let contract_data = contract.get_contract_data().unwrap();
    assert_eq!(
        contract_data,
        ContractData {
            buyer,
            price_per_token: 10,
            total_value: 100,
            assigned_tokens: 0,
        }
    );
    assert_eq!(contract.events.len(), 1);
}

#[test]
fn create_rejects_bad_parameters_and_missing_authorization() {
    let buyer = AccountId { id: 1 };
    let mut contract = CarbonCreditContract::new();
    assert_eq!(
        contract.create(buyer, 0, 100, true),
        Err(Error::InvalidParameters)
    );
    assert_eq!(
        contract.create(buyer, 10, 0, true),
        Err(Error::InvalidParameters)
    );
    assert_eq!(
        contract.create(buyer, 10, -5, true),
        Err(Error::InvalidParameters)
    );
    assert_eq!(
        contract.create(buyer, 10, 100, false),
        Err(Error::Unauthorized)
    );
    assert_eq!(contract.get_contract_data(), Err(Error::NotFound));
    assert_eq!(contract.state(), CommitmentState::Uninitialized);
    assert_eq!(contract.events.len(), 0);
}

#[test]
fn assign_before_create_fails_with_not_found() {
    let seller = AccountId { id: 2 };
    let mut contract = CarbonCreditContract::new();
    let mut token = TokenContract::new();
    token.mint(seller, 10).unwrap();
    assert_eq!(
        contract.assign_tokens(seller, &mut token, 10, true),
        Err(Error::NotFound)
    );
    assert_eq!(token.balance_of(seller), 10);
}

#[test]
fn assign_rejects_bad_amounts_and_missing_authorization() {
    let buyer = AccountId { id: 1 };
    let seller = AccountId { id: 2 };
    let mut contract = CarbonCreditContract::new();
    contract.create(buyer, 10, 100, true).unwrap();
    let mut token = TokenContract::new();
    token.mint(seller, 500).unwrap();

    assert_eq!(
        contract.assign_tokens(seller, &mut token, 0, true),
        Err(Error::InvalidParameters)
    );
    assert_eq!(
        contract.assign_tokens(seller, &mut token, -3, true),
        Err(Error::InvalidParameters)
    );
    assert_eq!(
        contract.assign_tokens(seller, &mut token, 10, false),
        Err(Error::Unauthorized)
    );
    // Overshooting the committed total is rejected before any burn.
    assert_eq!(
        contract.assign_tokens(seller, &mut token, 101, true),
        Err(Error::InvalidParameters)
    );
    assert_eq!(token.balance_of(seller), 500);
    assert_eq!(token.total_supply(), 500);
    assert_eq!(contract.get_contract_data().unwrap().assigned_tokens, 0);
}

#[test]
fn assign_with_insufficient_balance_fails_atomically() {
    let buyer = AccountId { id: 1 };
    let seller = AccountId { id: 2 };
    let mut contract = CarbonCreditContract::new();
    contract.create(buyer, 10, 100, true).unwrap();
    let mut token = TokenContract::new();
    token.mint(seller, 30).unwrap();

    assert_eq!(
        contract.assign_tokens(seller, &mut token, 40, true),
        Err(Error::InsufficientBalance)
    );
    assert_eq!(token.balance_of(seller), 30);
    assert_eq!(token.total_supply(), 30);
    assert_eq!(contract.get_contract_data().unwrap().assigned_tokens, 0);
    assert_eq!(contract.events.len(), 1);
}

#[test]
fn fulfilled_commitment_is_terminal() {
    let buyer = AccountId { id: 1 };
    let seller = AccountId { id: 2 };
    let mut contract = CarbonCreditContract::new();
    contract.create(buyer, 10, 100, true).unwrap();
    let mut token = TokenContract::new();
    token.mint(seller, 200).unwrap();

    contract.assign_tokens(seller, &mut token, 60, true).unwrap();
    assert_eq!(contract.state(), CommitmentState::Active);
    contract.assign_tokens(seller, &mut token, 40, true).unwrap();
    assert_eq!(contract.state(), CommitmentState::Fulfilled);

    assert_eq!(
        contract.assign_tokens(seller, &mut token, 1, true),
        Err(Error::InvalidParameters)
    );
    assert_eq!(contract.state(), CommitmentState::Fulfilled);
    assert_eq!(contract.get_contract_data().unwrap().assigned_tokens, 100);
    assert_eq!(token.balance_of(seller), 100);
}

#[test]
fn assigned_quantity_is_monotonic() {
    let buyer = AccountId { id: 1 };
    let seller = AccountId { id: 2 };
    let mut contract = CarbonCreditContract::new();
    contract.create(buyer, 10, 100, true).unwrap();
    let mut token = TokenContract::new();
    token.mint(seller, 45).unwrap();

    let mut last_assigned = 0;
    for amount in [20i128, 200, 15, -1, 10, 70] {
        let _ = contract.assign_tokens(seller, &mut token, amount, true);
        let assigned = contract.get_contract_data().unwrap().assigned_tokens;
        assert!(assigned >= last_assigned);
        assert!(assigned <= 100);
        last_assigned = assigned;
    }
    assert_eq!(last_assigned, 45);
}

#[test]
fn get_contract_data_is_idempotent() {
    let buyer = AccountId { id: 1 };
    let mut contract = CarbonCreditContract::new();
    assert_eq!(contract.get_contract_data(), contract.get_contract_data());
    contract.create(buyer, 10, 100, true).unwrap();
    assert_eq!(contract.get_contract_data(), contract.get_contract_data());
}
