use chioma::{
    calculate_payment_split, AgreementStatus, ChiomaContract, ContractState, Error, HostOutcome,
    Identity, RentalContract, Transfer,
};

fn account(key: &str) -> Identity {
    Identity::new(key.to_string())
}

fn create(state: &mut ContractState, id: &str, agent: Option<Identity>, rent: i128, rate: u32) -> Result<(), Error> {
    ChiomaContract::create_agreement(
        state,
        id.to_string(),
        account("landlord"),
        account("tenant"),
        agent,
        rent,
        2 * rent,
        100,
        200,
        rate,
    )
}

fn active(state: &mut ContractState, id: &str, agent: Option<Identity>, rent: i128, rate: u32) -> String {
    create(state, id, agent, rent, rate).unwrap();
    let id = id.to_string();
    ChiomaContract::update_status(state, &id, AgreementStatus::Active).unwrap();
    id
}

#[test]
fn split_conserves_amount_with_rounding() {
    for (amount, rate) in [(999i128, 333u32), (1, 9999), (7, 10000), (123456789, 1), (0, 500)] {
        let (landlord, agent) = calculate_payment_split(&amount, &rate);
        assert_eq!(landlord + agent, amount);
    }
    let (landlord, agent) = calculate_payment_split(&999, &333);
    assert_eq!(agent, 33);
    assert_eq!(landlord, 966);
}

#[test]
fn split_with_full_commission_and_huge_amount() {
    let (landlord, agent) = calculate_payment_split(&7, &10000);
    assert_eq!((landlord, agent), (0, 7));
    let (landlord, agent) = calculate_payment_split(&i128::MAX, &10000);
    assert_eq!((landlord, agent), (0, i128::MAX));
    let (landlord, agent) = calculate_payment_split(&i128::MAX, &5000);
    assert_eq!(landlord + agent, i128::MAX);
    assert_eq!(agent, i128::MAX / 2);
}

#[test]
fn split_zero_commission_gives_landlord_everything() {
    let (landlord, agent) = calculate_payment_split(&54321, &0);
    assert_eq!(landlord, 54321);
    assert_eq!(agent, 0);
}

#[test]
fn initialize_succeeds_once_and_zeroes_counters() {
    let mut state = ContractState::new();
    assert_eq!(ChiomaContract::check_initialized(&state), Err(Error::NotInitialized));
    assert_eq!(ChiomaContract::get_payment_count(&state), 0);
    assert_eq!(ChiomaContract::initialize(&mut state, account("admin")), Ok(()));
    assert_eq!(state.agreement_count(), 0);
    assert_eq!(state.payment_count(), 0);
    assert_eq!(state.dispute_count(), 0);
    assert_eq!(state.admin(), &Some(account("admin")));
    assert_eq!(ChiomaContract::check_initialized(&state), Ok(()));
    assert_eq!(
        ChiomaContract::initialize(&mut state, account("other")),
        Err(Error::AlreadyInitialized)
    );
    assert_eq!(state.admin(), &Some(account("admin")));
}

#[test]
fn version_is_fixed() {
    assert_eq!(ChiomaContract::version(), "1.0.0");
}

#[test]
fn create_agreement_stores_a_draft() {
    let mut state = ContractState::new();
    ChiomaContract::initialize(&mut state, account("admin")).unwrap();
    create(&mut state, "AGREEMENT_001", Some(account("agent")), 1000, 10).unwrap();
    let stored = ChiomaContract::get_agreement(&state, &"AGREEMENT_001".to_string()).unwrap();
    assert_eq!(stored.agreement_id, "AGREEMENT_001");
    assert_eq!(stored.monthly_rent, 1000);
    assert_eq!(stored.security_deposit, 2000);
    assert_eq!(stored.status, AgreementStatus::Draft);
    assert_eq!(stored.landlord, account("landlord"));
    assert_eq!(stored.tenant, account("tenant"));
    assert_eq!(stored.agent, Some(account("agent")));
    assert_eq!(stored.total_rent_paid, 0);
    assert_eq!(stored.payment_count, 0);
    assert_eq!(state.agreement_count(), 1);
}

#[test]
fn create_agreement_rejects_each_bad_input_without_writing() {
    let mut state = ContractState::new();
    let before = |s: &ContractState| (s.agreement_count(), ChiomaContract::get_agreement(s, &"X".to_string()).is_ok());
    assert_eq!(create(&mut state, "X", None, -100, 0), Err(Error::InvalidAmount));
    assert_eq!(create(&mut state, "X", None, 0, 0), Err(Error::InvalidAmount));
    let dates = ChiomaContract::create_agreement(
        &mut state, "X".to_string(), account("l"), account("t"), None, 1000, 2000, 200, 100, 0,
    );
    assert_eq!(dates, Err(Error::InvalidDateRange));
    let same_day = ChiomaContract::create_agreement(
        &mut state, "X".to_string(), account("l"), account("t"), None, 1000, 2000, 150, 150, 0,
    );
    assert_eq!(same_day, Err(Error::InvalidDateRange));
    assert_eq!(create(&mut state, "X", None, 1000, 10001), Err(Error::InvalidCommissionRate));
    assert_eq!(before(&state), (0, false));
    assert_eq!(create(&mut state, "X", None, 1000, 10000), Ok(()));
    assert_eq!(create(&mut state, "X", None, 1500, 0), Err(Error::DuplicateAgreement));
    assert_eq!(before(&state), (1, true));
    assert_eq!(ChiomaContract::get_agreement(&state, &"X".to_string()).unwrap().monthly_rent, 1000);
}

#[test]
fn status_transitions_follow_the_lifecycle() {
    let mut state = ContractState::new();
    create(&mut state, "A", None, 1000, 0).unwrap();
    let id = "A".to_string();
    assert_eq!(
        ChiomaContract::update_status(&mut state, &id, AgreementStatus::Completed),
        Err(Error::InvalidStatusTransition)
    );
    assert_eq!(ChiomaContract::update_status(&mut state, &id, AgreementStatus::Active), Ok(()));
    assert_eq!(ChiomaContract::update_status(&mut state, &id, AgreementStatus::Completed), Ok(()));
    assert_eq!(
        ChiomaContract::update_status(&mut state, &id, AgreementStatus::Active),
        Err(Error::InvalidStatusTransition)
    );
    assert_eq!(
        ChiomaContract::update_status(&mut state, &"missing".to_string(), AgreementStatus::Active),
        Err(Error::AgreementNotFound)
    );
}

#[test]
fn settlement_plans_both_transfers_with_an_agent() {
    let mut state = ContractState::new();
    let id = active(&mut state, "A", Some(account("agent")), 1000, 500);
    let plan = RentalContract::settlement(&state, &id, &account("token"), 1000).unwrap();
    assert_eq!(plan.payer, account("tenant"));
    assert_eq!(plan.token, account("token"));
    assert_eq!(plan.landlord_amount, 950);
    assert_eq!(plan.agent_amount, 50);
    assert_eq!(
        plan.transfers,
        vec![
            Transfer { from: account("tenant"), to: account("landlord"), amount: 950 },
            Transfer { from: account("tenant"), to: account("agent"), amount: 50 },
        ]
    );
}

#[test]
fn settlement_skips_zero_agent_share() {
    let mut state = ContractState::new();
    let id = active(&mut state, "A", Some(account("agent")), 1000, 0);
    let plan = RentalContract::settlement(&state, &id, &account("token"), 1000).unwrap();
    assert_eq!(plan.transfers, vec![Transfer { from: account("tenant"), to: account("landlord"), amount: 1000 }]);
    let id = active(&mut state, "B", Some(account("agent")), 5, 1);
    let plan = RentalContract::settlement(&state, &id, &account("token"), 5).unwrap();
    assert_eq!(plan.agent_amount, 0);
    assert_eq!(plan.transfers.len(), 1);
}

#[test]
fn settlement_refuses_like_pay_rent() {
    let mut state = ContractState::new();
    create(&mut state, "D", None, 1000, 0).unwrap();
    let token = account("token");
    assert_eq!(
        RentalContract::settlement(&state, &"none".to_string(), &token, 1000),
        Err(Error::AgreementNotFound)
    );
    assert_eq!(RentalContract::settlement(&state, &"D".to_string(), &token, 1000), Err(Error::AgreementNotActive));
    let id = active(&mut state, "A", None, 1000, 0);
    assert_eq!(RentalContract::settlement(&state, &id, &token, 1001), Err(Error::InvalidAmount));
}

#[test]
fn pay_rent_records_the_split_and_steps_the_counters() {
    let mut state = ContractState::new();
    ChiomaContract::initialize(&mut state, account("admin")).unwrap();
    let id = active(&mut state, "A", Some(account("agent")), 2000, 1000);
    RentalContract::pay_rent(&mut state, &id, 2000, HostOutcome::Settled, 77).unwrap();
    let record = ChiomaContract::get_payment(&state, &id, 1).unwrap();
    assert_eq!(record.agreement_id, "A");
    assert_eq!(record.payment_number, 1);
    assert_eq!(record.amount, 2000);
    assert_eq!(record.landlord_amount, 1800);
    assert_eq!(record.agent_amount, 200);
    assert_eq!(record.timestamp, 77);
    assert_eq!(record.tenant, account("tenant"));
    assert_eq!(ChiomaContract::get_payment_count(&state), 1);
    assert_eq!(ChiomaContract::get_total_paid(&state, &id), Ok(2000));
}

#[test]
fn two_payments_are_numbered_one_and_two() {
    let mut state = ContractState::new();
    let id = active(&mut state, "A", None, 1000, 0);
    let other = active(&mut state, "B", None, 500, 0);
    RentalContract::pay_rent(&mut state, &id, 1000, HostOutcome::Settled, 1).unwrap();
    RentalContract::pay_rent(&mut state, &other, 500, HostOutcome::Settled, 2).unwrap();
    RentalContract::pay_rent(&mut state, &id, 1000, HostOutcome::Settled, 3).unwrap();
    assert_eq!(ChiomaContract::get_total_paid(&state, &id), Ok(2000));
    let agreement = ChiomaContract::get_agreement(&state, &id).unwrap();
    assert_eq!(agreement.payment_count, 2);
    assert_eq!(ChiomaContract::get_payment(&state, &id, 1).unwrap().timestamp, 1);
    assert_eq!(ChiomaContract::get_payment(&state, &id, 2).unwrap().timestamp, 3);
    assert_eq!(ChiomaContract::get_payment(&state, &id, 2).unwrap().payment_number, 2);
    assert_eq!(ChiomaContract::get_payment(&state, &other, 1).unwrap().amount, 500);
    assert_eq!(ChiomaContract::get_payment(&state, &id, 3), Err(Error::PaymentNotFound));
    assert_eq!(ChiomaContract::get_payment_count(&state), 3);
}

#[test]
fn failed_payments_change_nothing() {
    let mut state = ContractState::new();
    let id = active(&mut state, "A", None, 1000, 0);
    let draft = "D".to_string();
    create(&mut state, "D", None, 1000, 0).unwrap();
    let cases = [
        (&id, 900, HostOutcome::Settled, Error::InvalidAmount),
        (&draft, 1000, HostOutcome::Settled, Error::AgreementNotActive),
        (&id, 1000, HostOutcome::Unauthorized, Error::NotAuthorized),
        (&id, 1000, HostOutcome::TransferFailed, Error::PaymentFailed),
    ];
    for (agreement_id, amount, outcome, error) in cases {
        assert_eq!(RentalContract::pay_rent(&mut state, agreement_id, amount, outcome, 5), Err(error));
    }
    assert_eq!(
        RentalContract::pay_rent(&mut state, &"missing".to_string(), 1000, HostOutcome::Settled, 5),
        Err(Error::AgreementNotFound)
    );
    assert_eq!(ChiomaContract::get_total_paid(&state, &id), Ok(0));
    assert_eq!(ChiomaContract::get_agreement(&state, &id).unwrap().payment_count, 0);
    assert_eq!(ChiomaContract::get_payment(&state, &id, 1), Err(Error::PaymentNotFound));
    assert_eq!(ChiomaContract::get_payment_count(&state), 0);
}

#[test]
fn terminated_agreement_takes_no_payment() {
    let mut state = ContractState::new();
    let id = active(&mut state, "A", None, 1000, 0);
    RentalContract::pay_rent(&mut state, &id, 1000, HostOutcome::Settled, 1).unwrap();
    ChiomaContract::update_status(&mut state, &id, AgreementStatus::Terminated).unwrap();
    assert_eq!(
        RentalContract::pay_rent(&mut state, &id, 1000, HostOutcome::Settled, 2),
        Err(Error::AgreementNotActive)
    );
    assert_eq!(ChiomaContract::get_total_paid(&state, &id), Ok(1000));
}

#[test]
fn lookups_of_unknown_ids_fail() {
    let state = ContractState::new();
    let id = "nonexistent".to_string();
    assert_eq!(ChiomaContract::get_total_paid(&state, &id), Err(Error::AgreementNotFound));
    assert_eq!(ChiomaContract::get_payment(&state, &id, 1), Err(Error::PaymentNotFound));
    assert!(ChiomaContract::get_agreement(&state, &id).is_err());
}
