use vstd::prelude::*;

use std::collections::HashMap;
use std::collections::VecDeque;
use std::time::SystemTime;

use crate::account::{Account, AccountModel, OrderType};
use crate::amount::{saturate, sub_saturating};

verus! {

broadcast use {vstd::std_specs::hash::group_hash_axioms, vstd::string::group_string_axioms};

/// The point in time at which an account was last active.
#[verifier::external_type_specification]
#[verifier::external_body]
pub struct ExSystemTime(SystemTime);

/// An account that was active lately, with the time it last was.
#[derive(Copy, Clone)]
pub struct ActiveAccount {
    user_id: usize,
    last_active: SystemTime,
}

/// A request to take `amount` of `order_type` out of the account of `user_id`.
#[derive(Copy, Clone)]
pub struct WithdrawTransaction {
    pub user_id: usize,
    pub amount: i64,
    pub order_type: OrderType,
}

impl Default for WithdrawTransaction {
    fn default() -> (r: Self)
        ensures
            r.user_id == 0,
            r.amount == 0,
            r.order_type == OrderType::USD,
    {
        Self { user_id: 0, amount: 0, order_type: OrderType::USD }
    }
}

/// A trade that has been carried out for `user_id`: `bought_amount` of
/// `bought_type` was bought, paid for with `sold_amount` of `sold_type`.
#[derive(Debug)]
pub struct CompletedTransaction {
    pub user_id: usize,
    pub bought_amount: i64,
    pub bought_type: OrderType,
    pub sold_amount: i64,
    pub sold_type: OrderType,
}

/// The answer to a withdrawal request of a known user.
#[allow(non_camel_case_types)]
#[derive(Copy, Clone, Debug, PartialEq, Eq, Structural)]
pub enum WithdrawalStatus {
    SUFFICIENT_BALANCE,
    INSUFFICIENT_BALANCE,
}

/// The text of the error for a user the engine holds no account of.
pub open spec fn account_not_found() -> Seq<char> {
    "Account not found"@
}

/// The text of the error for a settlement of a user with nothing pending.
pub open spec fn pending_not_found() -> Seq<char> {
    "Not found"@
}

/// The pending withdrawal `w` can pay for the trade `tx`: it is in the
/// currency that was sold, and for at least the amount that was sold.
pub open spec fn pays_for(w: WithdrawTransaction, tx: CompletedTransaction) -> bool {
    w.order_type == tx.sold_type && w.amount >= tx.sold_amount
}

/// `s[i]` is the first withdrawal of `s` that can pay for `tx`.
pub open spec fn is_first_payer(s: Seq<WithdrawTransaction>, tx: CompletedTransaction, i: int) -> bool {
    &&& 0 <= i < s.len()
    &&& pays_for(s[i], tx)
    &&& forall|j: int| 0 <= j < i ==> !pays_for(#[trigger] s[j], tx)
}

/// The position in `s` of the withdrawal that the trade `tx` settles: the
/// first one that can pay for it, or the first one of all where none can.
pub open spec fn settled_index(s: Seq<WithdrawTransaction>, tx: CompletedTransaction) -> int {
    if exists|i: int| is_first_payer(s, tx, i) {
        choose|i: int| is_first_payer(s, tx, i)
    } else {
        0
    }
}

/// There is at most one first withdrawal that can pay for a trade.
pub proof fn lemma_first_payer_unique(
    s: Seq<WithdrawTransaction>,
    tx: CompletedTransaction,
    i: int,
    k: int,
)
    requires
        is_first_payer(s, tx, i),
        is_first_payer(s, tx, k),
    ensures
        i == k,
{
    if i < k {
        assert(!pays_for(s[i], tx));
    } else if k < i {
        assert(!pays_for(s[k], tx));
    }
}

/// The accounts, the pending withdrawals and the recent activity that the
/// engine holds.
#[allow(non_snake_case)]
pub struct RiskEngine {
    pending_book: HashMap<usize, Vec<WithdrawTransaction>>,
    recent_accounts: HashMap<usize, Account>,
    cache_list: VecDeque<ActiveAccount>,
    DB: HashMap<usize, Account>,
}

/// What the engine holds: per user, the withdrawals that wait for
/// settlement, oldest first; the accounts held in the cache of recently used
/// ones; the accounts held in the store; and the list of recent activity.
pub struct EngineModel {
    pub pending: Map<usize, Seq<WithdrawTransaction>>,
    pub recent: Map<usize, AccountModel>,
    pub db: Map<usize, AccountModel>,
    pub cache: Seq<ActiveAccount>,
}

impl EngineModel {
    /// Every user with an entry in the pending book has at least one
    /// withdrawal waiting, and each one is that user's.
    pub open spec fn wf(self) -> bool {
        forall|id: usize| #[trigger]
            self.pending.contains_key(id) ==> {
                &&& self.pending[id].len() > 0
                &&& forall|i: int|
                    0 <= i < self.pending[id].len() ==> (#[trigger] self.pending[id][i]).user_id
                        == id
            }
    }

    /// Every account, cached or stored, is held under its owner's id.
    pub open spec fn ids_keyed(self) -> bool {
        &&& forall|id: usize| #[trigger] self.recent.contains_key(id) ==> self.recent[id].id == id
        &&& forall|id: usize| #[trigger] self.db.contains_key(id) ==> self.db[id].id == id
    }

    /// The engine holds an account of user `id`, in the cache or the store.
    pub open spec fn has_account(self, id: usize) -> bool {
        self.recent.contains_key(id) || self.db.contains_key(id)
    }

    /// The account of user `id`: the cached one where the cache holds one,
    /// else the stored one.
    pub open spec fn account(self, id: usize) -> AccountModel {
        if self.recent.contains_key(id) {
            self.recent[id]
        } else {
            self.db[id]
        }
    }

    /// The engine with the account of user `id` replaced by `a`, where that
    /// account is held: in the cache if it is there, else in the store.
    pub open spec fn with_account(self, id: usize, a: AccountModel) -> EngineModel {
        if self.recent.contains_key(id) {
            EngineModel { recent: self.recent.insert(id, a), ..self }
        } else {
            EngineModel { db: self.db.insert(id, a), ..self }
        }
    }

    /// The engine after `a` is put in the store under its owner's id.
    pub open spec fn with_stored(self, a: AccountModel) -> EngineModel {
        EngineModel { db: self.db.insert(a.id, a), ..self }
    }

    /// The engine with `tx` added at the end of its user's pending
    /// withdrawals.
    pub open spec fn enqueued(self, tx: WithdrawTransaction) -> EngineModel {
        let id = tx.user_id;
        let list = if self.pending.contains_key(id) {
            self.pending[id].push(tx)
        } else {
            seq![tx]
        };
        EngineModel { pending: self.pending.insert(id, list), ..self }
    }

    /// The balance of the user of `tx` covers what `tx` asks for.
    pub open spec fn covers(self, tx: WithdrawTransaction) -> bool {
        self.account(tx.user_id).balance(tx.order_type) >= tx.amount
    }

    /// The engine after the withdrawal request `tx`: where the user's balance
    /// covers it, the amount is taken out and the request waits for
    /// settlement; else nothing changes.
    pub open spec fn after_withdrawal(self, tx: WithdrawTransaction) -> EngineModel {
        let id = tx.user_id;
        if self.has_account(id) && self.covers(tx) {
            self.with_account(id, self.account(id).credited(tx.order_type, -tx.amount)).enqueued(
                tx,
            )
        } else {
            self
        }
    }

    /// Putting back the account the engine already holds changes nothing.
    pub proof fn lemma_with_same_account(self, id: usize)
        requires
            self.has_account(id),
        ensures
            self.with_account(id, self.account(id)) == self,
    {
        assert(self.recent.contains_key(id) ==> self.recent.insert(id, self.account(id))
            =~= self.recent);
        assert(!self.recent.contains_key(id) ==> self.db.insert(id, self.account(id))
            =~= self.db);
    }

    /// The withdrawal of the user of `tx` that the trade `tx` settles.
    pub open spec fn settled_withdrawal(self, tx: CompletedTransaction) -> WithdrawTransaction {
        let s = self.pending[tx.user_id];
        s[settled_index(s, tx)]
    }

    /// The engine with the withdrawal that `tx` settles taken out of its
    /// user's pending ones, and the user's entry dropped where none is left.
    pub open spec fn without_settled(self, tx: CompletedTransaction) -> EngineModel {
        let id = tx.user_id;
        let s = self.pending[id];
        let rest = s.remove(settled_index(s, tx));
        let pending = if rest.len() == 0 {
            self.pending.remove(id)
        } else {
            self.pending.insert(id, rest)
        };
        EngineModel { pending, ..self }
    }

    /// The engine after the trade `tx` is settled: where its user has
    /// pending withdrawals, the one it settles is taken out; then, where the
    /// user has an account, the bought amount is added in the bought
    /// currency, and what the withdrawal held beyond the sold amount goes back
    /// to the sold currency.
    pub open spec fn after_settlement(self, tx: CompletedTransaction) -> EngineModel {
        let id = tx.user_id;
        if !self.pending.contains_key(id) {
            self
        } else {
            let e = self.without_settled(tx);
            let w = self.settled_withdrawal(tx);
            if e.has_account(id) {
                e.with_account(
                    id,
                    e.account(id).credited(tx.bought_type, tx.bought_amount as int).credited(
                        tx.sold_type,
                        saturate(w.amount - tx.sold_amount) as int,
                    ),
                )
            } else {
                e
            }
        }
    }
}

/// What is put in the store is what is read back: after `a` is stored, the
/// engine holds an account of its owner, and it is `a`, unless the cache of
/// recent accounts holds one of that owner.
pub proof fn lemma_put_then_get(e: EngineModel, a: AccountModel)
    requires
        !e.recent.contains_key(a.id),
    ensures
        e.with_stored(a).has_account(a.id),
        e.with_stored(a).account(a.id) == a,
{
}

/// Every account the engine holds sits under its owner's id: the account of
/// user `id` is owned by `id`. `new` sets this up, and `put_account`,
/// `process_withdrawal` and `process_settlement` keep it.
pub proof fn lemma_account_owned_by_its_key(e: EngineModel, id: usize)
    requires
        e.ids_keyed(),
        e.has_account(id),
    ensures
        e.account(id).id == id,
{
}

/// A withdrawal request of a user the engine holds an account of is granted
/// exactly when the balance in the asked currency is at least the amount.
/// Granted, the amount leaves that balance (held at the upper limit of `i64`),
/// every other balance and the owner stay, and the request joins the end of
/// the user's pending withdrawals, one more than before, with the earlier
/// ones and every other user's untouched. Refused, nothing changes.
pub proof fn lemma_withdrawal_granted_exactly_when_covered(
    e: EngineModel,
    tx: WithdrawTransaction,
    u: OrderType,
    other: usize,
)
    requires
        e.has_account(tx.user_id),
        other != tx.user_id,
    ensures
        ({
            let id = tx.user_id;
            let f = e.after_withdrawal(tx);
            let before = e.account(id);
            let bal = before.balance(tx.order_type);
            let n = if e.pending.contains_key(id) {
                e.pending[id].len() as int
            } else {
                0
            };
            &&& bal >= tx.amount ==> {
                &&& f.has_account(id)
                &&& f.account(id).id == before.id
                &&& bal - tx.amount <= i64::MAX ==> f.account(id).balance(tx.order_type) == bal
                    - tx.amount
                &&& bal - tx.amount > i64::MAX ==> f.account(id).balance(tx.order_type)
                    == i64::MAX
                &&& u != tx.order_type ==> f.account(id).balance(u) == before.balance(u)
                &&& f.pending.contains_key(id)
                &&& f.pending[id].len() == n + 1
                &&& f.pending[id][n] == tx
                &&& forall|j: int| 0 <= j < n ==> f.pending[id][j] == e.pending[id][j]
                &&& f.pending.contains_key(other) == e.pending.contains_key(other)
                &&& f.pending.contains_key(other) ==> f.pending[other] == e.pending[other]
            }
            &&& bal < tx.amount ==> f == e
        }),
{
}

/// A settlement takes out the first of its user's pending withdrawals that is
/// in the sold currency and covers the sold amount. Whatever is left of the
/// user's pending withdrawals stays in order; the user's account, where the
/// engine holds one, gets the bought amount in the bought currency and, in
/// the sold currency, what that withdrawal held beyond the sold amount.
pub proof fn lemma_settlement_takes_first_covering_in_sold_currency(
    e: EngineModel,
    tx: CompletedTransaction,
    k: int,
)
    requires
        e.wf(),
        e.pending.contains_key(tx.user_id),
        0 <= k < e.pending[tx.user_id].len(),
        e.pending[tx.user_id][k].order_type == tx.sold_type,
        e.pending[tx.user_id][k].amount >= tx.sold_amount,
        forall|j: int|
            0 <= j < k ==> !(#[trigger] e.pending[tx.user_id][j].order_type == tx.sold_type
                && e.pending[tx.user_id][j].amount >= tx.sold_amount),
    ensures
        ({
            let id = tx.user_id;
            let s = e.pending[id];
            let f = e.after_settlement(tx);
            &&& s.len() == 1 ==> !f.pending.contains_key(id)
            &&& s.len() > 1 ==> f.pending.contains_key(id) && f.pending[id] == s.remove(k)
            &&& e.has_account(id) ==> f.has_account(id) && f.account(id) == e.account(id).credited(
                tx.bought_type,
                tx.bought_amount as int,
            ).credited(tx.sold_type, saturate(s[k].amount - tx.sold_amount) as int)
            &&& !e.has_account(id) ==> !f.has_account(id)
        }),
{
    let s = e.pending[tx.user_id];
    assert(is_first_payer(s, tx, k));
    lemma_first_payer_unique(s, tx, k, settled_index(s, tx));
}

/// Where the oldest pending withdrawal of the user is in the sold currency
/// and covers the sold amount, a settlement takes that one out.
pub proof fn lemma_settlement_takes_oldest_when_it_covers(e: EngineModel, tx: CompletedTransaction)
    requires
        e.wf(),
        e.pending.contains_key(tx.user_id),
        e.pending[tx.user_id][0].order_type == tx.sold_type,
        e.pending[tx.user_id][0].amount >= tx.sold_amount,
    ensures
        ({
            let id = tx.user_id;
            let s = e.pending[id];
            let f = e.after_settlement(tx);
            &&& s.len() > 1 ==> f.pending.contains_key(id) && f.pending[id] == s.drop_first()
            &&& e.has_account(id) ==> f.account(id) == e.account(id).credited(
                tx.bought_type,
                tx.bought_amount as int,
            ).credited(tx.sold_type, saturate(s[0].amount - tx.sold_amount) as int)
        }),
{
    let s = e.pending[tx.user_id];
    assert(s.len() > 0);
    lemma_settlement_takes_first_covering_in_sold_currency(e, tx, 0);
    assert(s.remove(0) =~= s.drop_first());
}

/// Where none of the user's pending withdrawals is in the sold currency and
/// covers the sold amount, a settlement takes out the oldest one.
pub proof fn lemma_settlement_without_cover_takes_oldest(e: EngineModel, tx: CompletedTransaction)
    requires
        e.wf(),
        e.pending.contains_key(tx.user_id),
        forall|j: int|
            0 <= j < e.pending[tx.user_id].len() ==> !(
            #[trigger] e.pending[tx.user_id][j].order_type == tx.sold_type
                && e.pending[tx.user_id][j].amount >= tx.sold_amount),
    ensures
        ({
            let id = tx.user_id;
            let s = e.pending[id];
            let f = e.after_settlement(tx);
            &&& s.len() > 1 ==> f.pending.contains_key(id) && f.pending[id] == s.drop_first()
            &&& s.len() == 1 ==> !f.pending.contains_key(id)
            &&& e.has_account(id) ==> f.account(id) == e.account(id).credited(
                tx.bought_type,
                tx.bought_amount as int,
            ).credited(tx.sold_type, saturate(s[0].amount - tx.sold_amount) as int)
        }),
{
    let s = e.pending[tx.user_id];
    assert(s.len() > 0);
    assert(!exists|i: int| is_first_payer(s, tx, i));
    assert(s.remove(0) =~= s.drop_first());
}

/// A settlement takes out exactly one pending withdrawal of its user, and
/// leaves the pending withdrawals of every other user as they were.
pub proof fn lemma_settlement_takes_one(e: EngineModel, tx: CompletedTransaction, other: usize)
    requires
        e.wf(),
        e.pending.contains_key(tx.user_id),
        other != tx.user_id,
    ensures
        ({
            let f = e.after_settlement(tx);
            let left = if f.pending.contains_key(tx.user_id) {
                f.pending[tx.user_id].len() as int
            } else {
                0
            };
            &&& left == e.pending[tx.user_id].len() - 1
            &&& f.pending.contains_key(other) == e.pending.contains_key(other)
            &&& f.pending.contains_key(other) ==> f.pending[other] == e.pending[other]
        }),
{
    let s = e.pending[tx.user_id];
    assert(s.len() > 0);
    if exists|i: int| is_first_payer(s, tx, i) {
        let k = choose|i: int| is_first_payer(s, tx, i);
        assert(0 <= k < s.len());
    }
}

/// A withdrawal that the balance covers, followed by the settlement of a
/// trade paid for with it, nets out to the trade: for a user with nothing
/// else pending, who sold at most what was set aside in one currency and
/// bought in another, the sold currency goes down by the sold amount, the
/// bought one up by the bought amount, every other balance stays, and
/// nothing is left pending; where no balance on the way passes the limits of
/// `i64`.
pub proof fn lemma_withdrawal_then_settlement(
    e: EngineModel,
    w: WithdrawTransaction,
    tx: CompletedTransaction,
    t: OrderType,
)
    requires
        e.wf(),
        e.has_account(w.user_id),
        !e.pending.contains_key(w.user_id),
        e.covers(w),
        tx.user_id == w.user_id,
        tx.sold_type == w.order_type,
        tx.sold_amount <= w.amount,
        tx.bought_type != tx.sold_type,
        i64::MIN <= e.account(w.user_id).balance(w.order_type) <= i64::MAX,
        i64::MIN <= e.account(w.user_id).balance(tx.bought_type) <= i64::MAX,
        e.account(w.user_id).balance(w.order_type) - w.amount <= i64::MAX,
        w.amount - tx.sold_amount <= i64::MAX,
        e.account(w.user_id).balance(w.order_type) - tx.sold_amount <= i64::MAX,
        i64::MIN <= e.account(w.user_id).balance(tx.bought_type) + tx.bought_amount <= i64::MAX,
    ensures
        ({
            let id = w.user_id;
            let f = e.after_withdrawal(w).after_settlement(tx);
            let before = e.account(id);
            let after = f.account(id);
            &&& f.has_account(id)
            &&& !f.pending.contains_key(id)
            &&& after.id == before.id
            &&& after.balance(tx.sold_type) == before.balance(tx.sold_type) - tx.sold_amount
            &&& after.balance(tx.bought_type) == before.balance(tx.bought_type)
                + tx.bought_amount
            &&& (t != tx.sold_type && t != tx.bought_type) ==> after.balance(t) == before.balance(
                t,
            )
        }),
{
    let id = w.user_id;
    let m = e.after_withdrawal(w);
    assert(m.pending[id] == seq![w]);
    assert(is_first_payer(m.pending[id], tx, 0));
    lemma_first_payer_unique(m.pending[id], tx, 0, settled_index(m.pending[id], tx));
    assert(m.pending[id].remove(0).len() == 0);
    let before = e.account(id);
    let mid = before.credited(w.order_type, -w.amount);
    assert(m.has_account(id));
    assert(m.account(id) == mid);
    let g = m.without_settled(tx);
    assert(g.has_account(id));
    assert(g.account(id) == mid);
    assert(m.settled_withdrawal(tx) == w);
    assert(mid.balance(w.order_type) == before.balance(w.order_type) - w.amount);
    let fin = mid.credited(tx.bought_type, tx.bought_amount as int).credited(
        tx.sold_type,
        saturate(w.amount - tx.sold_amount) as int,
    );
    assert(mid.credited(tx.bought_type, tx.bought_amount as int).balance(tx.sold_type)
        == mid.balance(tx.sold_type));
    assert(fin.balance(tx.sold_type) == before.balance(tx.sold_type) - tx.sold_amount);
    let f = m.after_settlement(tx);
    assert(f == g.with_account(id, fin));
    assert(f.account(id) == fin);
}

impl View for RiskEngine {
    type V = EngineModel;

    closed spec fn view(&self) -> EngineModel {
        EngineModel {
            pending: pending_models(self.pending_book@),
            recent: account_models(self.recent_accounts@),
            db: account_models(self.DB@),
            cache: self.cache_list@,
        }
    }
}

/// The models of the accounts of a map of accounts.
pub open spec fn account_models(m: Map<usize, Account>) -> Map<usize, AccountModel> {
    m.map_values(|a: Account| a@)
}

/// The contents of the lists of a map of lists of withdrawals.
pub open spec fn pending_models(m: Map<usize, Vec<WithdrawTransaction>>) -> Map<
    usize,
    Seq<WithdrawTransaction>,
> {
    m.map_values(|v: Vec<WithdrawTransaction>| v@)
}

proof fn lemma_pending_models_insert(
    m: Map<usize, Vec<WithdrawTransaction>>,
    k: usize,
    v: Vec<WithdrawTransaction>,
)
    ensures
        pending_models(m.insert(k, v)) == pending_models(m).insert(k, v@),
{
    assert(pending_models(m.insert(k, v)) =~= pending_models(m).insert(k, v@));
}

proof fn lemma_pending_models_remove(m: Map<usize, Vec<WithdrawTransaction>>, k: usize)
    ensures
        pending_models(m.remove(k)) == pending_models(m).remove(k),
{
    assert(pending_models(m.remove(k)) =~= pending_models(m).remove(k));
}

proof fn lemma_account_models_insert(m: Map<usize, Account>, k: usize, a: Account)
    ensures
        account_models(m.insert(k, a)) == account_models(m).insert(k, a@),
{
    assert(account_models(m.insert(k, a)) =~= account_models(m).insert(k, a@));
}

/// What `HashMap::get_mut` gives: the value held under `id`, to be changed in
/// place, where the map holds one; the map then holds whatever that value has
/// become. Where the map holds none, nothing is returned and the map stays as
/// it was. A lookup under a `usize` key does not panic.
#[verifier::external_body]
fn get_entry_mut<'a, V>(m: &'a mut HashMap<usize, V>, id: &usize) -> (r: Option<&'a mut V>)
    ensures
        !old(m)@.contains_key(*id) ==> r.is_none() && final(m)@ == old(m)@,
        old(m)@.contains_key(*id) ==> r.is_some() && *r.unwrap() == old(m)@[*id] && final(m)@
            == old(m)@.insert(*id, *final(r.unwrap())),
    no_unwind
{
    m.get_mut(id)
}

impl Clone for RiskEngine {
    /// A copy of the engine that holds what it holds.
    fn clone(&self) -> (r: Self)
        ensures
            r@ == self@,
    {
        proof {
            use_type_invariant(self);
        }
        let r = RiskEngine {
            pending_book: self.pending_book.clone(),
            recent_accounts: self.recent_accounts.clone(),
            cache_list: self.cache_list.clone(),
            DB: self.DB.clone(),
        };
        assert(r.cache_list@ =~= self.cache_list@);
        r
    }
}

impl RiskEngine {
    /// The pending book of every engine is well formed.
    #[verifier::type_invariant]
    closed spec fn pending_book_well_formed(self) -> bool {
        self@.wf()
    }

    /// An engine that holds nothing.
    pub fn new() -> (r: Self)
        ensures
            r@.wf(),
            r@.ids_keyed(),
            r@.pending == Map::<usize, Seq<WithdrawTransaction>>::empty(),
            r@.recent == Map::<usize, AccountModel>::empty(),
            r@.db == Map::<usize, AccountModel>::empty(),
            r@.cache == Seq::<ActiveAccount>::empty(),
    {
        let pending_book = HashMap::new();
        let recent_accounts = HashMap::with_capacity(300);
        let cache_list = VecDeque::with_capacity(300);
        let accounts = HashMap::new();
        assert(pending_models(pending_book@) =~= Map::<usize, Seq<WithdrawTransaction>>::empty());
        assert(account_models(recent_accounts@) =~= Map::<usize, AccountModel>::empty());
        assert(account_models(accounts@) =~= Map::<usize, AccountModel>::empty());
        Self { pending_book, recent_accounts, cache_list, DB: accounts }
    }

    /// The account of user `account_id`, to be changed in place: the cached
    /// one where the cache holds one, else the stored one; an error where the
    /// engine holds none.
    pub fn get_account(&mut self, account_id: usize) -> (r: Result<&mut Account, String>)
        ensures
            final(self)@.wf(),
            r is Ok <==> old(self)@.has_account(account_id),
            r is Ok ==> {
                &&& (*r.unwrap())@ == old(self)@.account(account_id)
                &&& final(self)@ == old(self)@.with_account(account_id, (*final(r.unwrap()))@)
            },
            r is Ok && old(self)@.ids_keyed() ==> (*r.unwrap())@.id == account_id,
            r is Ok && old(self)@.ids_keyed() && (*final(r.unwrap()))@.id == account_id
                ==> final(self)@.ids_keyed(),
            r matches Err(e) ==> e@ == account_not_found() && final(self)@ == old(self)@,
    {
        proof {
            use_type_invariant(&*self);
        }
        let ghost recent = self.recent_accounts@;
        let ghost db = self.DB@;
        if let Some(account) = get_entry_mut(&mut self.recent_accounts, &account_id) {
            proof {
                lemma_account_models_insert(recent, account_id, *final(account));
            }
            Ok(account)
        } else if let Some(account) = get_entry_mut(&mut self.DB, &account_id) {
            proof {
                lemma_account_models_insert(db, account_id, *final(account));
            }
            Ok(account)
        } else {
            Err("Account not found".to_string())
        }
    }

    /// Puts `account` in the store under its owner's id, in place of any
    /// account stored there before.
    pub fn put_account(&mut self, account: Account)
        ensures
            final(self)@.wf(),
            final(self)@ == old(self)@.with_stored(account@),
            old(self)@.ids_keyed() ==> final(self)@.ids_keyed(),
    {
        proof {
            use_type_invariant(&*self);
        }
        let mut accounts = HashMap::new();
        std::mem::swap(&mut accounts, &mut self.DB);
        let ghost db = accounts@;
        accounts.insert(account.get_id(), account);
        proof {
            lemma_account_models_insert(db, account@.id, account);
        }
        self.DB = accounts;
        proof {
            let pre = old(self)@;
            let post = self@;
            assert(post == pre.with_stored(account@));
            assert forall|id: usize| #[trigger] post.db.contains_key(id) && pre.ids_keyed()
                implies post.db[id].id == id by {
                if id != account@.id {
                    assert(pre.db.contains_key(id));
                }
            }
        }
    }

    /// Answers the withdrawal request `tx`: an error where the engine holds
    /// no account of its user; else whether the balance covers the amount,
    /// which is then taken out and the request kept until it is settled.
    pub fn process_withdrawal(&mut self, tx: WithdrawTransaction) -> (r: Result<
        WithdrawalStatus,
        String,
    >)
        ensures
            final(self)@.wf(),
            final(self)@ == old(self)@.after_withdrawal(tx),
            old(self)@.ids_keyed() ==> final(self)@.ids_keyed(),
            r is Err <==> !old(self)@.has_account(tx.user_id),
            r matches Err(e) ==> e@ == account_not_found(),
            r matches Ok(status) ==> (status == WithdrawalStatus::SUFFICIENT_BALANCE
                <==> old(self)@.account(tx.user_id).balance(tx.order_type) >= tx.amount),
            r matches Ok(status) ==> status == if old(self)@.covers(tx) {
                WithdrawalStatus::SUFFICIENT_BALANCE
            } else {
                WithdrawalStatus::INSUFFICIENT_BALANCE
            },
    {
        proof {
            use_type_invariant(&*self);
        }
        let account = match self.get_account(tx.user_id) {
            Ok(account) => account,
            Err(e) => return Err(e),
        };
        let valid = account.valid_order(tx.amount, tx.order_type);
        let ghost id = tx.user_id;
        let ghost pre = old(self)@;
        assert(valid ==> self@ == pre.with_account(
            id,
            pre.account(id).credited(tx.order_type, -tx.amount),
        ));
        proof {
            pre.lemma_with_same_account(id);
        }
        assert(!valid ==> self@ == pre);
        if valid {
            let ghost mid = self@;
            let mut book = HashMap::new();
            std::mem::swap(&mut book, &mut self.pending_book);
            let ghost old_book = book@;
            if let Some(pendings) = get_entry_mut(&mut book, &tx.user_id) {
                pendings.push(tx);
                proof {
                    lemma_pending_models_insert(old_book, tx.user_id, *final(pendings));
                }
                assert(final(pendings)@ == mid.pending[id].push(tx));
            } else {
                book.insert(tx.user_id, vec![tx]);
                proof {
                    lemma_pending_models_insert(old_book, tx.user_id, book@[tx.user_id]);
                }
                assert(book@[id]@ == seq![tx]);
            }
            assert(pending_models(book@) == mid.enqueued(tx).pending);
            self.pending_book = book;
            assert(self@ == mid.enqueued(tx));
            Ok(WithdrawalStatus::SUFFICIENT_BALANCE)
        } else {
            Ok(WithdrawalStatus::INSUFFICIENT_BALANCE)
        }
    }

    /// Books the trade `tx` against its user's pending withdrawals: takes
    /// out the one it settles, then adds the bought amount to the user's
    /// balance in the bought currency and gives back, in the sold currency,
    /// what that withdrawal held beyond the sold amount. An error where the
    /// user has nothing pending; an error too where the engine holds no
    /// account of the user, the withdrawal being taken out all the same.
    pub fn process_settlement(&mut self, tx: &mut CompletedTransaction) -> (r: Result<(), String>)
        ensures
            final(self)@.wf(),
            *final(tx) == *old(tx),
            final(self)@ == old(self)@.after_settlement(*old(tx)),
            old(self)@.ids_keyed() ==> final(self)@.ids_keyed(),
            r is Ok <==> old(self)@.pending.contains_key(old(tx).user_id) && old(self)@.has_account(
                old(tx).user_id,
            ),
            r matches Err(e) ==> e@ == if old(self)@.pending.contains_key(old(tx).user_id) {
                account_not_found()
            } else {
                pending_not_found()
            },
    {
        proof {
            use_type_invariant(&*self);
        }
        let ghost pre = self@;
        let ghost id = tx.user_id;
        let mut book = HashMap::new();
        std::mem::swap(&mut book, &mut self.pending_book);
        let ghost old_book = book@;
        if let Some(pendings) = get_entry_mut(&mut book, &tx.user_id) {
            let mut remove: usize = 0;
            let mut i: usize = 0;
            while i < pendings.len()
                invariant_except_break
                    i <= pendings@.len(),
                    remove == 0,
                    forall|j: int| 0 <= j < i ==> !pays_for(#[trigger] pendings@[j], *tx),
                invariant
                    pendings@ == pre.pending[id],
                ensures
                    remove < pendings@.len() || pendings@.len() == 0,
                    is_first_payer(pendings@, *tx, remove as int) || (remove == 0 && forall|j: int|
                        0 <= j < pendings@.len() ==> !pays_for(#[trigger] pendings@[j], *tx)),
                decreases pendings@.len() - i,
            {
                if pendings[i].order_type == tx.sold_type && pendings[i].amount >= tx.sold_amount {
                    remove = i;
                    break;
                }
                i += 1;
            }
            proof {
                let s = pre.pending[id];
                assert(pre.pending.contains_key(id));
                assert(s.len() > 0);
                if is_first_payer(s, *tx, remove as int) {
                    lemma_first_payer_unique(s, *tx, remove as int, settled_index(s, *tx));
                }
            }
            assert(remove == settled_index(pre.pending[id], *tx));
            let removed = pendings.remove(remove);
            let ghost rest = *pendings;
            proof {
                lemma_pending_models_insert(old_book, id, *final(pendings));
            }
            if pendings.len() == 0 {
                book.remove(&tx.user_id);
                proof {
                    lemma_pending_models_remove(old_book.insert(id, rest), id);
                    assert(pending_models(old_book).insert(id, rest@).remove(id)
                        =~= pre.pending.remove(id));
                }
            }
            proof {
                let s = pre.pending[id];
                let post = pre.without_settled(*tx);
                assert(pending_models(book@) == post.pending);
                assert forall|k: usize| #[trigger] post.pending.contains_key(k) implies {
                    &&& post.pending[k].len() > 0
                    &&& forall|n: int|
                        0 <= n < post.pending[k].len() ==> (#[trigger] post.pending[k][n]).user_id
                            == k
                } by {
                    if k == id {
                        assert forall|n: int| 0 <= n < post.pending[k].len() implies (
                        #[trigger] post.pending[k][n]).user_id == k by {
                            if n < remove {
                                assert(post.pending[k][n] == s[n]);
                            } else {
                                assert(post.pending[k][n] == s[n + 1]);
                            }
                        }
                    }
                }
                assert(post.wf());
            }
            self.pending_book = book;
            assert(self@ == pre.without_settled(*tx));
            let account = match self.get_account(tx.user_id) {
                Ok(account) => account,
                Err(e) => return Err(e),
            };
            account.update(
                tx.bought_amount,
                tx.bought_type,
                sub_saturating(removed.amount, tx.sold_amount),
                tx.sold_type,
            );
        } else {
            self.pending_book = book;
            return Err("Not found".to_string());
        }
        Ok(())
    }
}

} // verus!
