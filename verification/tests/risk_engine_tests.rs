use risk_engine::account::{Account, OrderType};
use risk_engine::risk_engine::{
    CompletedTransaction, RiskEngine, WithdrawTransaction, WithdrawalStatus,
};

fn funded(id: usize, usd: i64, btc: i64) -> Account {
    let mut account = Account::new(id);
    account.usd_order(usd);
    account.btc_order(btc);
    account
}

fn withdrawal(user_id: usize, amount: i64, order_type: OrderType) -> WithdrawTransaction {
    WithdrawTransaction { user_id, amount, order_type }
}

fn trade(
    user_id: usize,
    bought_amount: i64,
    bought_type: OrderType,
    sold_amount: i64,
    sold_type: OrderType,
) -> CompletedTransaction {
    CompletedTransaction { user_id, bought_amount, bought_type, sold_amount, sold_type }
}

fn balances(engine: &mut RiskEngine, id: usize) -> Vec<i64> {
    engine.get_account(id).unwrap().get_balances()
}

#[test]
fn it_inserts_an_account_to_db() {
    let mut engine = RiskEngine::new();
    let account = Account::new(100);
    engine.put_account(account);
    let retrieved = engine.get_account(100);
    match retrieved {
        Ok(ac) => {
            assert_eq!(ac.get_id(), 100);
        },
        Err(_) => {},
    }
}

#[test]
#[should_panic]
fn it_should_throw_an_error_if_account_not_found() {
    let mut engine = RiskEngine::new();
    let account = Account::new(100);
    engine.put_account(account);
    let retrieved = engine.get_account(150);
    match retrieved {
        Ok(ac) => {
            assert_eq!(ac.get_id(), 100);
        },
        Err(_) => panic!("Should be an error"),
    }
}

#[test]
fn a_missing_account_is_reported_by_name() {
    let mut engine = RiskEngine::new();
    match engine.get_account(150) {
        Ok(_) => panic!("no account was put"),
        Err(e) => assert_eq!(e, "Account not found"),
    }
}

#[test]
fn what_is_put_is_read_back_and_a_second_put_replaces_it() {
    let mut engine = RiskEngine::new();
    engine.put_account(funded(7, 10, 0));
    assert_eq!(balances(&mut engine, 7), vec![10, 0, 0, 0, 0]);
    engine.put_account(funded(7, 0, 3));
    assert_eq!(balances(&mut engine, 7), vec![0, 0, 3, 0, 0]);
}

#[test]
fn an_account_changed_through_get_account_stays_changed() {
    let mut engine = RiskEngine::new();
    engine.put_account(Account::new(4));
    engine.get_account(4).unwrap().eur_order(55);
    assert_eq!(balances(&mut engine, 4), vec![0, 55, 0, 0, 0]);
}

#[test]
fn a_covered_withdrawal_is_granted_and_set_aside() {
    let mut engine = RiskEngine::new();
    engine.put_account(funded(1, 100, 0));
    let r = engine.process_withdrawal(withdrawal(1, 30, OrderType::USD));
    assert_eq!(r, Ok(WithdrawalStatus::SUFFICIENT_BALANCE));
    assert_eq!(balances(&mut engine, 1), vec![70, 0, 0, 0, 0]);
}

#[test]
fn an_uncovered_withdrawal_is_refused_and_changes_nothing() {
    let mut engine = RiskEngine::new();
    engine.put_account(funded(1, 100, 0));
    let r = engine.process_withdrawal(withdrawal(1, 101, OrderType::USD));
    assert_eq!(r, Ok(WithdrawalStatus::INSUFFICIENT_BALANCE));
    assert_eq!(balances(&mut engine, 1), vec![100, 0, 0, 0, 0]);
    let mut t = trade(1, 1, OrderType::BTC, 1, OrderType::USD);
    assert_eq!(engine.process_settlement(&mut t), Err("Not found".to_string()));
}

#[test]
fn a_withdrawal_of_an_unknown_user_is_an_error() {
    let mut engine = RiskEngine::new();
    let r = engine.process_withdrawal(withdrawal(2, 1, OrderType::USD));
    assert_eq!(r, Err("Account not found".to_string()));
}

#[test]
fn a_settlement_without_pending_withdrawals_is_an_error() {
    let mut engine = RiskEngine::new();
    engine.put_account(funded(1, 100, 0));
    let mut t = trade(1, 5, OrderType::BTC, 10, OrderType::USD);
    assert_eq!(engine.process_settlement(&mut t), Err("Not found".to_string()));
    assert_eq!(balances(&mut engine, 1), vec![100, 0, 0, 0, 0]);
}

#[test]
fn a_settlement_nets_out_to_the_trade() {
    let mut engine = RiskEngine::new();
    engine.put_account(funded(1, 100, 0));
    engine.process_withdrawal(withdrawal(1, 40, OrderType::USD)).unwrap();
    let mut t = trade(1, 3, OrderType::BTC, 25, OrderType::USD);
    assert_eq!(engine.process_settlement(&mut t), Ok(()));
    assert_eq!(balances(&mut engine, 1), vec![75, 0, 3, 0, 0]);
    assert_eq!(t.sold_amount, 25);
    assert_eq!(engine.process_settlement(&mut t), Err("Not found".to_string()));
}

#[test]
fn a_settlement_takes_the_first_withdrawal_that_can_pay() {
    let mut engine = RiskEngine::new();
    engine.put_account(funded(1, 100, 100));
    engine.process_withdrawal(withdrawal(1, 10, OrderType::USD)).unwrap();
    engine.process_withdrawal(withdrawal(1, 20, OrderType::BTC)).unwrap();
    engine.process_withdrawal(withdrawal(1, 30, OrderType::USD)).unwrap();
    engine.process_withdrawal(withdrawal(1, 40, OrderType::USD)).unwrap();
    assert_eq!(balances(&mut engine, 1), vec![20, 0, 80, 0, 0]);
    // The 10 USD one is too small, the BTC one is in another currency: the
    // 30 USD one pays, and its 5 left over go back.
    let mut t = trade(1, 7, OrderType::ETH, 25, OrderType::USD);
    engine.process_settlement(&mut t).unwrap();
    assert_eq!(balances(&mut engine, 1), vec![25, 0, 80, 0, 7]);
    // Next the 40 USD one pays for a sale of 25.
    engine.process_settlement(&mut t).unwrap();
    assert_eq!(balances(&mut engine, 1), vec![40, 0, 80, 0, 14]);
}

#[test]
fn where_no_withdrawal_can_pay_the_first_one_is_settled() {
    let mut engine = RiskEngine::new();
    engine.put_account(funded(1, 100, 100));
    engine.process_withdrawal(withdrawal(1, 10, OrderType::USD)).unwrap();
    engine.process_withdrawal(withdrawal(1, 20, OrderType::BTC)).unwrap();
    assert_eq!(balances(&mut engine, 1), vec![90, 0, 80, 0, 0]);
    let mut t = trade(1, 1, OrderType::EUR, 50, OrderType::BCH);
    engine.process_settlement(&mut t).unwrap();
    // The 10 USD one is taken out; 10 - 50 goes to BCH.
    assert_eq!(balances(&mut engine, 1), vec![90, 1, 80, -40, 0]);
    let mut t = trade(1, 0, OrderType::EUR, 20, OrderType::BTC);
    engine.process_settlement(&mut t).unwrap();
    assert_eq!(balances(&mut engine, 1), vec![90, 1, 80, -40, 0]);
    assert_eq!(engine.process_settlement(&mut t), Err("Not found".to_string()));
}

#[test]
fn pending_withdrawals_are_kept_per_user() {
    let mut engine = RiskEngine::new();
    engine.put_account(funded(1, 100, 0));
    engine.put_account(funded(2, 100, 0));
    engine.process_withdrawal(withdrawal(1, 50, OrderType::USD)).unwrap();
    let mut t = trade(2, 1, OrderType::BTC, 10, OrderType::USD);
    assert_eq!(engine.process_settlement(&mut t), Err("Not found".to_string()));
    let mut t = trade(1, 1, OrderType::BTC, 10, OrderType::USD);
    assert_eq!(engine.process_settlement(&mut t), Ok(()));
    assert_eq!(balances(&mut engine, 1), vec![90, 0, 1, 0, 0]);
    assert_eq!(balances(&mut engine, 2), vec![100, 0, 0, 0, 0]);
}

#[test]
fn a_default_withdrawal_asks_for_nothing() {
    let w = WithdrawTransaction::default();
    assert_eq!(w.user_id, 0);
    assert_eq!(w.amount, 0);
    assert_eq!(w.order_type, OrderType::USD);
}

#[test]
fn every_account_read_back_belongs_to_the_id_asked_for() {
    let mut engine = RiskEngine::new();
    engine.put_account(funded(1, 100, 0));
    engine.put_account(funded(2, 50, 0));
    engine.process_withdrawal(withdrawal(1, 30, OrderType::USD)).unwrap();
    let mut t = trade(1, 2, OrderType::ETH, 10, OrderType::USD);
    engine.process_settlement(&mut t).unwrap();
    assert_eq!(engine.get_account(1).unwrap().get_id(), 1);
    assert_eq!(engine.get_account(2).unwrap().get_id(), 2);
}

#[test]
fn a_clone_holds_what_the_engine_holds_and_goes_its_own_way() {
    let mut engine = RiskEngine::new();
    engine.put_account(funded(1, 100, 0));
    engine.process_withdrawal(withdrawal(1, 30, OrderType::USD)).unwrap();
    let mut copy = engine.clone();
    assert_eq!(balances(&mut copy, 1), vec![70, 0, 0, 0, 0]);
    let mut t = trade(1, 4, OrderType::BTC, 30, OrderType::USD);
    assert_eq!(copy.process_settlement(&mut t), Ok(()));
    assert_eq!(balances(&mut copy, 1), vec![70, 0, 4, 0, 0]);
    assert_eq!(balances(&mut engine, 1), vec![70, 0, 0, 0, 0]);
    assert_eq!(engine.process_settlement(&mut t), Ok(()));
}
