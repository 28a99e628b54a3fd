use risk_engine::account::{Account, OrderType};
use risk_engine::amount::UNITS_PER_COIN;

fn units(coins: f64) -> i64 {
    (coins * UNITS_PER_COIN as f64).round() as i64
}

#[test]
fn it_initialises_an_account_with_zero_balance() {
    let account = Account::new(100);
    assert_eq!(account.get_balances(), vec![0, 0, 0, 0, 0]);
}

#[test]
fn it_adjusts_the_balance_of_currencies_up_and_down() {
    let mut account = Account::new(100);
    account.usd_order(units(23.5));
    account.eth_order(units(1.12344));
    assert_eq!(account.get_balances(), vec![units(23.5), 0, 0, 0, units(1.12344)]);
    account.usd_order(-units(23.5));
    account.eth_order(-units(1.12344));
    assert_eq!(account.get_balances(), vec![0, 0, 0, 0, 0]);
}

#[test]
fn it_should_not_permit_transactions_where_spendable_balance_does_not_exist() {
    let mut account = Account::new(100);
    account.usd_order(units(23.5));
    account.eth_order(units(1.12344));
    let valid = account.valid_order(units(22.0), OrderType::USD);
    let invalid = account.valid_order(units(1.5), OrderType::ETH);
    assert_eq!(valid, true);
    assert_eq!(invalid, false);
    assert_eq!(account.get_balances(), vec![units(1.5), 0, 0, 0, units(1.12344)]);
}

#[test]
fn new_account_keeps_its_owner_id() {
    assert_eq!(Account::new(42).get_id(), 42);
}

#[test]
fn each_order_function_moves_only_its_currency() {
    let mut account = Account::new(7);
    account.usd_order(1);
    account.eur_order(2);
    account.btc_order(3);
    account.bch_order(4);
    account.eth_order(5);
    assert_eq!(account.get_balances(), vec![1, 2, 3, 4, 5]);
    account.btc_order(-10);
    assert_eq!(account.get_balances(), vec![1, 2, -7, 4, 5]);
}

#[test]
fn an_order_and_its_opposite_cancel_out() {
    let mut account = Account::new(1);
    account.bch_order(1_000);
    let before = account.get_balances();
    account.bch_order(250);
    account.bch_order(-250);
    assert_eq!(account.get_balances(), before);
}

#[test]
fn balances_are_held_at_the_limits_of_i64() {
    let mut account = Account::new(1);
    account.usd_order(i64::MAX);
    account.usd_order(10);
    account.eur_order(i64::MIN);
    account.eur_order(-10);
    assert_eq!(account.get_balances(), vec![i64::MAX, i64::MIN, 0, 0, 0]);
}

#[test]
fn update_credits_the_bought_and_adjusts_the_sold_currency() {
    let mut account = Account::new(3);
    account.update(500, OrderType::ETH, 20, OrderType::BTC);
    assert_eq!(account.get_balances(), vec![0, 0, 20, 0, 500]);
}

#[test]
fn update_with_one_currency_adds_both_amounts() {
    let mut account = Account::new(3);
    account.update(500, OrderType::EUR, -200, OrderType::EUR);
    assert_eq!(account.get_balances(), vec![0, 300, 0, 0, 0]);
}

#[test]
fn a_covered_withdrawal_of_the_whole_balance_is_permitted() {
    let mut account = Account::new(9);
    account.eur_order(100);
    assert!(account.valid_order(100, OrderType::EUR));
    assert_eq!(account.get_balances(), vec![0, 0, 0, 0, 0]);
    assert!(!account.valid_order(1, OrderType::EUR));
    assert_eq!(account.get_balances(), vec![0, 0, 0, 0, 0]);
}

#[test]
fn a_withdrawal_from_an_empty_currency_is_refused_whatever_the_others_hold() {
    let mut account = Account::new(9);
    account.usd_order(1_000);
    assert!(!account.valid_order(1, OrderType::BCH));
    assert_eq!(account.get_balances(), vec![1_000, 0, 0, 0, 0]);
}

#[test]
fn accounts_are_ordered_by_owner_id_alone() {
    let mut rich = Account::new(5);
    rich.usd_order(1_000);
    let poor = Account::new(5);
    let other = Account::new(9);
    assert_eq!(rich.partial_cmp(&poor), Some(std::cmp::Ordering::Equal));
    assert_eq!(rich.partial_cmp(&other), Some(std::cmp::Ordering::Less));
    assert_eq!(other.partial_cmp(&poor), Some(std::cmp::Ordering::Greater));
    assert!(poor < other);
}

#[test]
fn a_withdrawal_of_a_negative_amount_is_held_at_the_upper_limit() {
    let mut account = Account::new(2);
    assert!(account.valid_order(i64::MIN, OrderType::USD));
    assert_eq!(account.get_balances(), vec![i64::MAX, 0, 0, 0, 0]);
}

#[test]
fn an_update_of_zero_amounts_changes_nothing() {
    let mut account = Account::new(8);
    account.usd_order(12);
    account.eth_order(-3);
    let before = account.get_balances();
    account.update(0, OrderType::ETH, 0, OrderType::USD);
    assert_eq!(account.get_balances(), before);
    assert_eq!(account.get_id(), 8);
}
