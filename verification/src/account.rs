use vstd::prelude::*;

use crate::amount::{add_saturating, saturate, sub_saturating};

verus! {

/// The currencies an account holds.
#[derive(Copy, Clone, Debug, PartialEq, Eq, Structural)]
pub enum OrderType {
    USD,
    EUR,
    BTC,
    BCH,
    ETH,
}

/// A user's account: one balance per currency, in smallest units.
#[derive(Copy, Clone, Debug, PartialEq, Eq, Structural)]
pub struct Account {
    id: usize,
    usd: i64,
    eur: i64,
    btc: i64,
    bch: i64,
    eth: i64,
}

/// What an account is: its owner's id and its five balances.
pub struct AccountModel {
    pub id: usize,
    pub usd: int,
    pub eur: int,
    pub btc: int,
    pub bch: int,
    pub eth: int,
}

impl AccountModel {
    /// A fresh account of user `id`: every balance is zero.
    pub open spec fn empty(id: usize) -> AccountModel {
        AccountModel { id, usd: 0, eur: 0, btc: 0, bch: 0, eth: 0 }
    }

    /// The balance held in currency `t`.
    pub open spec fn balance(self, t: OrderType) -> int {
        match t {
            OrderType::USD => self.usd,
            OrderType::EUR => self.eur,
            OrderType::BTC => self.btc,
            OrderType::BCH => self.bch,
            OrderType::ETH => self.eth,
        }
    }

    /// The account with the balance of currency `t` replaced by `v`.
    pub open spec fn with_balance(self, t: OrderType, v: int) -> AccountModel {
        match t {
            OrderType::USD => AccountModel { usd: v, ..self },
            OrderType::EUR => AccountModel { eur: v, ..self },
            OrderType::BTC => AccountModel { btc: v, ..self },
            OrderType::BCH => AccountModel { bch: v, ..self },
            OrderType::ETH => AccountModel { eth: v, ..self },
        }
    }

    /// The account after `amount` (which may be negative) is added to the
    /// balance of currency `t`, held at the limits of `i64`.
    pub open spec fn credited(self, t: OrderType, amount: int) -> AccountModel {
        self.with_balance(t, saturate(self.balance(t) + amount) as int)
    }

    /// The five balances in the order USD, EUR, BTC, BCH, ETH.
    pub open spec fn balances(self) -> Seq<int> {
        seq![self.usd, self.eur, self.btc, self.bch, self.eth]
    }
}

/// An order in one currency leaves the owner and every other balance as they
/// were.
pub proof fn lemma_order_touches_one_currency(
    a: AccountModel,
    t: OrderType,
    amount: int,
    u: OrderType,
)
    requires
        u != t,
    ensures
        a.credited(t, amount).id == a.id,
        a.credited(t, amount).balance(u) == a.balance(u),
{
}

/// An order adds its amount to the balance of its currency, exactly where the
/// sum fits in an `i64`, and holds the balance at the nearer limit where it
/// does not.
pub proof fn lemma_order_adds_its_amount(a: AccountModel, t: OrderType, amount: int)
    ensures
        i64::MIN <= a.balance(t) + amount <= i64::MAX ==> a.credited(t, amount).balance(t)
            == a.balance(t) + amount,
        a.balance(t) + amount > i64::MAX ==> a.credited(t, amount).balance(t) == i64::MAX,
        a.balance(t) + amount < i64::MIN ==> a.credited(t, amount).balance(t) == i64::MIN,
{
}

/// An order of `amount` followed by one of `-amount` in the same currency
/// gives back the account as it was, where no balance on the way passes the
/// limits of `i64`.
pub proof fn lemma_order_round_trip(a: AccountModel, t: OrderType, amount: int)
    requires
        i64::MIN <= a.balance(t) <= i64::MAX,
        i64::MIN <= a.balance(t) + amount <= i64::MAX,
    ensures
        a.credited(t, amount).credited(t, -amount) == a,
{
}

/// A withdrawal that the balance covers never leaves that balance below
/// zero: nothing is spent that the account does not hold.
pub proof fn lemma_covered_withdrawal_stays_spendable(a: AccountModel, t: OrderType, amount: int)
    requires
        a.balance(t) >= amount,
    ensures
        a.credited(t, -amount).balance(t) >= 0,
{
}

impl View for Account {
    type V = AccountModel;

    closed spec fn view(&self) -> AccountModel {
        AccountModel {
            id: self.id,
            usd: self.usd as int,
            eur: self.eur as int,
            btc: self.btc as int,
            bch: self.bch as int,
            eth: self.eth as int,
        }
    }
}

/// Every balance of an account lies within the range of `i64`.
pub proof fn lemma_balances_fit(a: Account)
    ensures
        i64::MIN <= a@.usd <= i64::MAX,
        i64::MIN <= a@.eur <= i64::MAX,
        i64::MIN <= a@.btc <= i64::MAX,
        i64::MIN <= a@.bch <= i64::MAX,
        i64::MIN <= a@.eth <= i64::MAX,
{
}

/// Booking zero in any two currencies, as `update(0, t, 0, s)` does, leaves
/// the account as it was.
pub proof fn lemma_zero_update_is_identity(a: Account, t: OrderType, s: OrderType)
    ensures
        a@.credited(t, 0).credited(s, 0) == a@,
{
    lemma_balances_fit(a);
}

impl Account {
    /// A new account of user `id`, with every balance at zero.
    pub fn new(id: usize) -> (r: Self)
        ensures
            r@ == AccountModel::empty(id),
    {
        Self { id, usd: 0, eur: 0, btc: 0, bch: 0, eth: 0 }
    }

    /// The id of the account's owner.
    pub fn get_id(&self) -> (r: usize)
        ensures
            r == self@.id,
    {
        self.id
    }

    /// Adds `buy_amt` to the balance of `buy_type`, then `sell_adjustment` to
    /// the balance of `sell_type` (each held at the limits of `i64`); where the
    /// two currencies are the same, both amounts land on that balance.
    pub fn update(
        &mut self,
        buy_amt: i64,
        buy_type: OrderType,
        sell_adjustment: i64,
        sell_type: OrderType,
    )
        ensures
            final(self)@ == old(self)@.credited(buy_type, buy_amt as int).credited(
                sell_type,
                sell_adjustment as int,
            ),
    {
        match buy_type {
            OrderType::USD => { self.usd = add_saturating(self.usd, buy_amt) },
            OrderType::EUR => { self.eur = add_saturating(self.eur, buy_amt) },
            OrderType::BTC => { self.btc = add_saturating(self.btc, buy_amt) },
            OrderType::BCH => { self.bch = add_saturating(self.bch, buy_amt) },
            OrderType::ETH => { self.eth = add_saturating(self.eth, buy_amt) },
        }
        match sell_type {
            OrderType::USD => { self.usd = add_saturating(self.usd, sell_adjustment) },
            OrderType::EUR => { self.eur = add_saturating(self.eur, sell_adjustment) },
            OrderType::BTC => { self.btc = add_saturating(self.btc, sell_adjustment) },
            OrderType::BCH => { self.bch = add_saturating(self.bch, sell_adjustment) },
            OrderType::ETH => { self.eth = add_saturating(self.eth, sell_adjustment) },
        }
    }

    /// Adds `amount` (negative to take away) to the USD balance.
    pub fn usd_order(&mut self, amount: i64)
        ensures
            final(self)@ == old(self)@.credited(OrderType::USD, amount as int),
    {
        self.usd = add_saturating(self.usd, amount);
    }

    /// Adds `amount` (negative to take away) to the EUR balance.
    pub fn eur_order(&mut self, amount: i64)
        ensures
            final(self)@ == old(self)@.credited(OrderType::EUR, amount as int),
    {
        self.eur = add_saturating(self.eur, amount);
    }

    /// Adds `amount` (negative to take away) to the BTC balance.
    pub fn btc_order(&mut self, amount: i64)
        ensures
            final(self)@ == old(self)@.credited(OrderType::BTC, amount as int),
    {
        self.btc = add_saturating(self.btc, amount);
    }

    /// Adds `amount` (negative to take away) to the BCH balance.
    pub fn bch_order(&mut self, amount: i64)
        ensures
            final(self)@ == old(self)@.credited(OrderType::BCH, amount as int),
    {
        self.bch = add_saturating(self.bch, amount);
    }

    /// Adds `amount` (negative to take away) to the ETH balance.
    pub fn eth_order(&mut self, amount: i64)
        ensures
            final(self)@ == old(self)@.credited(OrderType::ETH, amount as int),
    {
        self.eth = add_saturating(self.eth, amount);
    }

    /// The five balances in the order USD, EUR, BTC, BCH, ETH.
    pub fn get_balances(&self) -> (r: Vec<i64>)
        ensures
            r@.map_values(|b: i64| b as int) == self@.balances(),
    {
        let r = vec![self.usd, self.eur, self.btc, self.bch, self.eth];
        assert(r@.map_values(|b: i64| b as int) =~= self@.balances());
        r
    }

    /// Takes `amount` out of the balance of `order_type` where that balance
    /// covers it, and says whether it did; where it does not, nothing changes.
    pub fn valid_order(&mut self, amount: i64, order_type: OrderType) -> (r: bool)
        ensures
            r == (old(self)@.balance(order_type) >= amount),
            r ==> final(self)@.balance(order_type) == old(self)@.balance(order_type) - amount
                || (final(self)@.balance(order_type) == i64::MAX && old(self)@.balance(order_type)
                - amount > i64::MAX),
            r ==> final(self)@ == old(self)@.credited(order_type, -amount),
            !r ==> final(self)@ == old(self)@,
    {
        match order_type {
            OrderType::USD => {
                if self.usd >= amount {
                    self.usd = sub_saturating(self.usd, amount);
                    true
                } else {
                    false
                }
            },
            OrderType::EUR => {
                if self.eur >= amount {
                    self.eur = sub_saturating(self.eur, amount);
                    true
                } else {
                    false
                }
            },
            OrderType::BTC => {
                if self.btc >= amount {
                    self.btc = sub_saturating(self.btc, amount);
                    true
                } else {
                    false
                }
            },
            OrderType::BCH => {
                if self.bch >= amount {
                    self.bch = sub_saturating(self.bch, amount);
                    true
                } else {
                    false
                }
            },
            OrderType::ETH => {
                if self.eth >= amount {
                    self.eth = sub_saturating(self.eth, amount);
                    true
                } else {
                    false
                }
            },
        }
    }
}

} // verus!
