//! The simulated matching and bookkeeping engine.
//!
//! The broker keeps settled balances and a separate buying-power ledger,
//! a price per asset pair, and every order ever placed.  Placing an
//! order reserves buying power; a market order fills at once at the
//! current price, a limit order fills as soon as the price satisfies
//! its bound, re-checked on every price update.  A failed call leaves
//! the broker unchanged.

use vstd::prelude::*;
use vstd::string::StringExecFns;

use crate::assets::{spec_pair_string, AssetPair};
use crate::common::{Amount, Order, OrderSide, OrderStatus, OrderType};
use crate::errors::TradeError;
use crate::ledger::Ledger;
use crate::rational::{
    rat_add, rat_div, rat_eq, rat_fits, rat_int, rat_le, rat_lt, rat_mul, rat_neg, rat_norm,
    rat_sub, rat_wf, Rat, Rational,
};
use crate::request::OrderRequest;
use crate::tables::{OrderTable, PriceTable};

verus! {

/// Whether one of the strings reads `a`.
pub open spec fn contains_str(s: Seq<String>, a: Seq<char>) -> bool {
    exists|i: int| 0 <= i < s.len() && (#[trigger] s[i])@ == a
}

/// When a pending limit order fills at the current price: at the limit
/// itself, below it for a buy, above it for a sell.
pub open spec fn spec_fill_condition(side: OrderSide, cur: Rat, limit: Rat) -> bool {
    rat_eq(cur, limit) || ((side == OrderSide::Buy) <==> rat_lt(cur, limit))
}

/// Whether the quantity of `a` at price `cur` is computable and fits.
pub open spec fn quantity_ok(a: Amount, cur: Rat) -> bool {
    match a {
        Amount::Quantity { .. } => true,
        Amount::Notional { notional } => cur.n != 0 && rat_fits(rat_div(notional@, cur)),
    }
}

/// The exact quantity stored for `a` at price `cur`: the requested
/// quantity itself, or the requested notional divided by the price.
pub open spec fn quantity_rep(a: Amount, cur: Rat) -> Rat {
    match a {
        Amount::Quantity { quantity } => quantity@,
        Amount::Notional { notional } => rat_norm(rat_div(notional@, cur)),
    }
}

/// Whether the notional of `a` at price `cur` fits.
pub open spec fn notional_ok(a: Amount, cur: Rat) -> bool {
    match a {
        Amount::Quantity { quantity } => rat_fits(rat_mul(quantity@, cur)),
        Amount::Notional { .. } => true,
    }
}

/// The exact notional stored for `a` at price `cur`: the requested
/// quantity times the price, or the requested notional itself.
pub open spec fn notional_rep(a: Amount, cur: Rat) -> Rat {
    match a {
        Amount::Quantity { quantity } => rat_norm(rat_mul(quantity@, cur)),
        Amount::Notional { notional } => notional@,
    }
}

/// A per-asset table with the entry for `key` replaced by the checked
/// sum of its old value and `delta`.
pub open spec fn upd_fn(
    f: spec_fn(Seq<char>) -> Rat,
    key: Seq<char>,
    delta: Rat,
) -> spec_fn(Seq<char>) -> Rat {
    |k: Seq<char>| if k == key {
        rat_norm(rat_add(f(key), delta))
    } else {
        f(k)
    }
}

/// The settled balances after a fill, as a per-asset table: on a buy
/// the notional leg is paid first and the quantity leg received; on a
/// sell the notional leg is received first and the quantity leg paid.
pub open spec fn fill_bal(
    bal: spec_fn(Seq<char>) -> Rat,
    pair: AssetPair,
    side: OrderSide,
    q: Rat,
    n: Rat,
) -> spec_fn(Seq<char>) -> Rat {
    let qa = pair.quantity_asset@;
    let na = pair.notional_asset@;
    if side == OrderSide::Buy {
        upd_fn(upd_fn(bal, na, rat_neg(n)), qa, q)
    } else {
        upd_fn(upd_fn(bal, na, n), qa, rat_neg(q))
    }
}

/// The buying power after a fill: a buy releases the bought quantity
/// and, for a limit order, refunds the reserved worst case less the
/// actual cost; a sell releases the notional received.
pub open spec fn fill_bp(
    bp: spec_fn(Seq<char>) -> Rat,
    pair: AssetPair,
    side: OrderSide,
    has_limit: bool,
    needed: Rat,
    q: Rat,
    n: Rat,
) -> spec_fn(Seq<char>) -> Rat {
    let qa = pair.quantity_asset@;
    let na = pair.notional_asset@;
    if side == OrderSide::Buy {
        let p1 = upd_fn(bp, qa, q);
        if has_limit {
            upd_fn(p1, na, rat_norm(rat_sub(needed, n)))
        } else {
            p1
        }
    } else {
        upd_fn(bp, na, n)
    }
}

/// Whether every ledger write of a fill fits the numeric range.
pub open spec fn fill_ok(
    bal: spec_fn(Seq<char>) -> Rat,
    bp: spec_fn(Seq<char>) -> Rat,
    pair: AssetPair,
    side: OrderSide,
    has_limit: bool,
    needed: Rat,
    q: Rat,
    n: Rat,
) -> bool {
    let qa = pair.quantity_asset@;
    let na = pair.notional_asset@;
    if side == OrderSide::Buy {
        let b1 = upd_fn(bal, na, rat_neg(n));
        let p1 = upd_fn(bp, qa, q);
        let rf = rat_norm(rat_sub(needed, n));
        &&& rat_fits(rat_add(bal(na), rat_neg(n)))
        &&& rat_fits(rat_add(b1(qa), q))
        &&& rat_fits(rat_add(bp(qa), q))
        &&& (has_limit ==> rat_fits(rat_sub(needed, n)) && rat_fits(rat_add(p1(na), rf)))
    } else {
        let b1 = upd_fn(bal, na, n);
        &&& rat_fits(rat_add(bal(na), n))
        &&& rat_fits(rat_add(b1(qa), rat_neg(q)))
        &&& rat_fits(rat_add(bp(na), n))
    }
}

/// How the fields of a freshly placed order relate to the request and
/// the computed fill, if one happened.
pub open spec fn order_matches(
    o: Order,
    id: String,
    req: OrderRequest,
    fill: bool,
    q: Rat,
    n: Rat,
    avg: Rat,
) -> bool {
    &&& o.order_id == id
    &&& o.asset_symbol@ == spec_pair_string(
        req.asset_pair.quantity_asset@,
        req.asset_pair.notional_asset@,
    )
    &&& o.amount == req.amount
    &&& o.limit_price == req.limit_price
    &&& o.side == req.side
    &&& o.type_ == (if req.limit_price is Some {
        OrderType::Limit
    } else {
        OrderType::Market
    })
    &&& if fill {
        &&& o.status == OrderStatus::Filled
        &&& o.filled_quantity@ == q
        &&& (o.average_fill_price matches Some(a) && a@ == avg)
    } else {
        &&& o.status == OrderStatus::New
        &&& o.filled_quantity@ == rat_int(0)
        &&& o.average_fill_price is None
    }
}

/// Everything `place_order` does, case by case: the errors it reports,
/// exactly when each occurs, that a failed call changes nothing, and
/// the full effect of a successful one on the ledgers and the order
/// table.
pub open spec fn place_order_post(
    pre: SimulatedBroker,
    req: OrderRequest,
    r: Result<String, TradeError>,
    post: SimulatedBroker,
) -> bool {
    let qa = req.asset_pair.quantity_asset@;
    let na = req.asset_pair.notional_asset@;
    if !pre.is_notional(na) {
        &&& r == Err::<String, TradeError>(
            TradeError::InvalidNotionalAsset(req.asset_pair.notional_asset),
        )
        &&& post == pre
    } else if pre.price_of((qa, na)) is None {
        &&& (r matches Err(e) && e matches TradeError::NoNotionalPerUnit(p) && p@
            == spec_pair_string(qa, na))
        &&& post == pre
    } else {
        let cur = pre.price_of((qa, na)).unwrap()@;
        let q = quantity_rep(req.amount, cur);
        let n = notional_rep(req.amount, cur);
        let ra = if req.side == OrderSide::Buy {
            na
        } else {
            qa
        };
        let needed_ok = if req.side == OrderSide::Buy {
            match req.limit_price {
                Some(l) => rat_fits(rat_mul(l@, q)),
                None => true,
            }
        } else {
            true
        };
        let needed = if req.side == OrderSide::Buy {
            match req.limit_price {
                Some(l) => rat_norm(rat_mul(l@, q)),
                None => n,
            }
        } else {
            q
        };
        if !(quantity_ok(req.amount, cur) && notional_ok(req.amount, cur) && needed_ok) {
            &&& r == Err::<String, TradeError>(TradeError::NumericOverflow)
            &&& post == pre
        } else if rat_lt(pre.buying_power_of(ra), needed) {
            &&& (r matches Err(e) && e matches TradeError::InsufficientBuyingPower(a) && a@ == ra)
            &&& post == pre
        } else {
            let fill = match req.limit_price {
                None => true,
                Some(l) => spec_fill_condition(req.side, cur, l@),
            };
            let bal0 = |k: Seq<char>| pre.balance_of(k);
            let bp0 = |k: Seq<char>| pre.buying_power_of(k);
            let bp1 = upd_fn(bp0, ra, rat_neg(needed));
            let reserve_ok = rat_fits(rat_add(pre.buying_power_of(ra), rat_neg(needed)));
            let avg_ok = q.n != 0 && rat_fits(rat_div(n, q));
            let avg = rat_norm(rat_div(n, q));
            let all_ok = reserve_ok && (fill ==> avg_ok && fill_ok(
                bal0,
                bp1,
                req.asset_pair,
                req.side,
                req.limit_price is Some,
                needed,
                q,
                n,
            ));
            if !all_ok {
                &&& r == Err::<String, TradeError>(TradeError::NumericOverflow)
                &&& post == pre
            } else {
                let bal_post = if fill {
                    fill_bal(bal0, req.asset_pair, req.side, q, n)
                } else {
                    bal0
                };
                let bp_post = if fill {
                    fill_bp(bp1, req.asset_pair, req.side, req.limit_price is Some, needed, q, n)
                } else {
                    bp1
                };
                &&& r matches Ok(id) && {
                    &&& (post.order_lookup(id@) matches Some(e) && e.0 == req.asset_pair
                        && order_matches(e.1, id, req, fill, q, n, avg))
                    &&& forall|oid: Seq<char>|
                        oid != id@ ==> #[trigger] post.order_lookup(oid) == pre.order_lookup(oid)
                    &&& (pre.order_lookup(id@) is None ==> post.orders_model()
                        == pre.orders_model().push(
                        (id@, req.asset_pair, post.order_lookup(id@).unwrap().1),
                    ))
                    &&& forall|k: Seq<char>| #[trigger] post.balance_of(k) == bal_post(k)
                    &&& forall|k: Seq<char>| #[trigger] post.buying_power_of(k) == bp_post(k)
                    &&& forall|k2: (Seq<char>, Seq<char>)|
                        #[trigger] post.price_of(k2) == pre.price_of(k2)
                    &&& forall|a: Seq<char>| #[trigger] post.is_notional(a) == pre.is_notional(a)
                    &&& post.currency_of() == pre.currency_of()
                    &&& (fill ==> rat_eq(avg, cur))
                    &&& (fill ==> rat_eq(n, rat_mul(q, cur)))
                }
            }
        }
    }
}

/// The price of a pair once the price of `key` has been set to
/// `price`: the new price for `key` itself, the old one elsewhere.
pub open spec fn cur_after(
    pre: SimulatedBroker,
    key: (Seq<char>, Seq<char>),
    price: Rational,
    k2: (Seq<char>, Seq<char>),
) -> Option<Rational> {
    if k2 == key {
        Some(price)
    } else {
        pre.price_of(k2)
    }
}

/// Whether a stored order fills once the price of `key` is `price`:
/// it must be a pending limit order whose bound the price of its own
/// pair now satisfies.
pub open spec fn order_fills(
    e: (Seq<char>, AssetPair, Order),
    pre: SimulatedBroker,
    key: (Seq<char>, Seq<char>),
    price: Rational,
) -> bool {
    let cur_opt = cur_after(pre, key, price, (e.1.quantity_asset@, e.1.notional_asset@));
    &&& e.2.status == OrderStatus::New
    &&& e.2.type_ == OrderType::Limit
    &&& cur_opt is Some
    &&& e.2.limit_price is Some
    &&& spec_fill_condition(e.2.side, cur_opt.unwrap()@, e.2.limit_price.unwrap()@)
}

/// The current price of the pair of entry `e` once `key` is priced.
pub open spec fn entry_cur(
    e: (Seq<char>, AssetPair, Order),
    pre: SimulatedBroker,
    key: (Seq<char>, Seq<char>),
    price: Rational,
) -> Rat {
    cur_after(pre, key, price, (e.1.quantity_asset@, e.1.notional_asset@)).unwrap()@
}

/// The settled balances after replaying, in table order, the fills of
/// the first `i` stored orders at the new price, starting from the
/// pre-state.
pub open spec fn replay_bal(
    m: Seq<(Seq<char>, AssetPair, Order)>,
    pre: SimulatedBroker,
    key: (Seq<char>, Seq<char>),
    price: Rational,
    i: int,
) -> spec_fn(Seq<char>) -> Rat
    decreases i,
{
    if i <= 0 {
        |k: Seq<char>| pre.balance_of(k)
    } else {
        let f = replay_bal(m, pre, key, price, i - 1);
        if order_fills(m[i - 1], pre, key, price) {
            let cur = entry_cur(m[i - 1], pre, key, price);
            fill_bal(
                f,
                m[i - 1].1,
                m[i - 1].2.side,
                quantity_rep(m[i - 1].2.amount, cur),
                notional_rep(m[i - 1].2.amount, cur),
            )
        } else {
            f
        }
    }
}

/// The buying power after replaying those same fills.
pub open spec fn replay_bp(
    m: Seq<(Seq<char>, AssetPair, Order)>,
    pre: SimulatedBroker,
    key: (Seq<char>, Seq<char>),
    price: Rational,
    i: int,
) -> spec_fn(Seq<char>) -> Rat
    decreases i,
{
    if i <= 0 {
        |k: Seq<char>| pre.buying_power_of(k)
    } else {
        let f = replay_bp(m, pre, key, price, i - 1);
        if order_fills(m[i - 1], pre, key, price) {
            let cur = entry_cur(m[i - 1], pre, key, price);
            let q = quantity_rep(m[i - 1].2.amount, cur);
            fill_bp(
                f,
                m[i - 1].1,
                m[i - 1].2.side,
                true,
                rat_norm(rat_mul(m[i - 1].2.limit_price.unwrap()@, q)),
                q,
                notional_rep(m[i - 1].2.amount, cur),
            )
        } else {
            f
        }
    }
}

/// Whether one fill's arithmetic fits, starting from the given
/// per-asset tables.
pub open spec fn step_ok(
    e: (Seq<char>, AssetPair, Order),
    pre: SimulatedBroker,
    key: (Seq<char>, Seq<char>),
    price: Rational,
    balf: spec_fn(Seq<char>) -> Rat,
    bpf: spec_fn(Seq<char>) -> Rat,
) -> bool {
    let cur = entry_cur(e, pre, key, price);
    let q = quantity_rep(e.2.amount, cur);
    let n = notional_rep(e.2.amount, cur);
    let lqv = rat_norm(rat_mul(e.2.limit_price.unwrap()@, q));
    &&& quantity_ok(e.2.amount, cur)
    &&& notional_ok(e.2.amount, cur)
    &&& q.n != 0 && rat_fits(rat_div(n, q))
    &&& (e.2.side == OrderSide::Buy ==> rat_fits(rat_mul(e.2.limit_price.unwrap()@, q)))
    &&& fill_ok(balf, bpf, e.1, e.2.side, true, lqv, q, n)
}

/// Whether every fill among the first `i` stored orders fits, each
/// starting from the tables the fills before it produced.  This is
/// exactly the success condition of a price update.
pub open spec fn replay_ok(
    m: Seq<(Seq<char>, AssetPair, Order)>,
    pre: SimulatedBroker,
    key: (Seq<char>, Seq<char>),
    price: Rational,
    i: int,
) -> bool
    decreases i,
{
    if i <= 0 {
        true
    } else {
        &&& replay_ok(m, pre, key, price, i - 1)
        &&& (order_fills(m[i - 1], pre, key, price) ==> step_ok(
            m[i - 1],
            pre,
            key,
            price,
            replay_bal(m, pre, key, price, i - 1),
            replay_bp(m, pre, key, price, i - 1),
        ))
    }
}

/// A prefix of an accepted replay is accepted.
proof fn lemma_replay_ok_prefix(
    m: Seq<(Seq<char>, AssetPair, Order)>,
    pre: SimulatedBroker,
    key: (Seq<char>, Seq<char>),
    price: Rational,
    a: int,
    b: int,
)
    requires
        a <= b,
        replay_ok(m, pre, key, price, b),
    ensures
        replay_ok(m, pre, key, price, a),
    decreases b - a,
{
    if a < b {
        lemma_replay_ok_prefix(m, pre, key, price, a, b - 1);
    }
}

/// How a re-evaluated order changes: an order that fills keeps its
/// identity and request fields and records the fill at the current
/// price of its pair; any other order is untouched.
pub open spec fn order_transition(
    e0: (Seq<char>, AssetPair, Order),
    e1: (Seq<char>, AssetPair, Order),
    pre: SimulatedBroker,
    key: (Seq<char>, Seq<char>),
    price: Rational,
) -> bool {
    if order_fills(e0, pre, key, price) {
        let cur = cur_after(pre, key, price, (e0.1.quantity_asset@, e0.1.notional_asset@)).unwrap()@;
        let q = quantity_rep(e0.2.amount, cur);
        let n = notional_rep(e0.2.amount, cur);
        let o0 = e0.2;
        let o1 = e1.2;
        &&& e1.0 == e0.0
        &&& e1.1 == e0.1
        &&& o1.order_id == o0.order_id
        &&& o1.asset_symbol == o0.asset_symbol
        &&& o1.amount == o0.amount
        &&& o1.limit_price == o0.limit_price
        &&& o1.side == o0.side
        &&& o1.type_ == o0.type_
        &&& o1.status == OrderStatus::Filled
        &&& o1.filled_quantity@ == q
        &&& (o1.average_fill_price matches Some(a) && a@ == rat_norm(rat_div(n, q)) && rat_eq(
            a@,
            cur,
        ))
        &&& rat_eq(n, rat_mul(q, cur))
    } else {
        e1 == e0
    }
}

/// Whether every arithmetic step of filling order `o` at price `cur`
/// fits, starting from the given staged ledgers.
pub open spec fn attempt_ok(bal: Ledger, bp: Ledger, pair: AssetPair, o: Order, cur: Rat) -> bool {
    let q = quantity_rep(o.amount, cur);
    let n = notional_rep(o.amount, cur);
    let bal0 = |k: Seq<char>| bal.val(k);
    let bp0 = |k: Seq<char>| bp.val(k);
    let lqv = rat_norm(rat_mul(o.limit_price.unwrap()@, q));
    &&& quantity_ok(o.amount, cur)
    &&& notional_ok(o.amount, cur)
    &&& q.n != 0 && rat_fits(rat_div(n, q))
    &&& (o.side == OrderSide::Buy ==> rat_fits(rat_mul(o.limit_price.unwrap()@, q)))
    &&& fill_ok(bal0, bp0, pair, o.side, true, lqv, q, n)
}

/// Fills one pending limit order at price `cur` against the staged
/// ledgers: settles the balances, releases and refunds buying power,
/// and returns the filled order.  Reports `None`, changing nothing,
/// exactly when some arithmetic step does not fit.
fn refill_entry(bal: &mut Ledger, bp: &mut Ledger, pair: &AssetPair, o: &Order, cur: Rational) -> (
    r: Option<Order>)
    requires
        old(bal).wf(),
        old(bp).wf(),
        o.amount.wf(),
        o.limit_price matches Some(l) ==> l.wf(),
        o.limit_price is Some,
        cur.wf(),
    ensures
        final(bal).wf(),
        final(bp).wf(),
        r is Some <==> attempt_ok(*old(bal), *old(bp), *pair, *o, cur@),
        r is None ==> *final(bal) == *old(bal) && *final(bp) == *old(bp),
        r matches Some(f) ==> {
            let q = quantity_rep(o.amount, cur@);
            let n = notional_rep(o.amount, cur@);
            let bal0 = |k: Seq<char>| old(bal).val(k);
            let bp0 = |k: Seq<char>| old(bp).val(k);
            let lqv = rat_norm(rat_mul(o.limit_price.unwrap()@, q));
            &&& (forall|k: Seq<char>|
                #[trigger] final(bal).val(k) == fill_bal(bal0, *pair, o.side, q, n)(k))
            &&& (forall|k: Seq<char>|
                #[trigger] final(bp).val(k) == fill_bp(bp0, *pair, o.side, true, lqv, q, n)(k))
            &&& f.order_id == o.order_id
            &&& f.asset_symbol == o.asset_symbol
            &&& f.amount == o.amount
            &&& f.limit_price == o.limit_price
            &&& f.side == o.side
            &&& f.type_ == o.type_
            &&& f.status == OrderStatus::Filled
            &&& f.filled_quantity@ == q
            &&& f.filled_quantity.wf()
            &&& (f.average_fill_price matches Some(a) && a@ == rat_norm(rat_div(n, q)) && a.wf()
                && rat_eq(a@, cur@))
            &&& rat_eq(n, rat_mul(q, cur@))
        },
{
    let quantity = match &o.amount {
        Amount::Quantity { quantity } => *quantity,
        Amount::Notional { notional } => match notional.checked_div(&cur) {
            Some(v) => v,
            None => {
                return None;
            },
        },
    };
    let notional = match &o.amount {
        Amount::Quantity { quantity } => match quantity.checked_mul(&cur) {
            Some(v) => v,
            None => {
                return None;
            },
        },
        Amount::Notional { notional } => *notional,
    };
    let avg = match notional.checked_div(&quantity) {
        Some(a) => a,
        None => {
            return None;
        },
    };
    let limit = o.limit_price.unwrap();
    let lqv_opt: Option<Rational> = if o.side == OrderSide::Buy {
        match limit.checked_mul(&quantity) {
            Some(v) => Some(v),
            None => {
                return None;
            },
        }
    } else {
        None
    };
    let mut bal2 = bal.duplicate();
    let mut bp2 = bp.duplicate();
    if o.side == OrderSide::Buy {
        if !bal2.checked_update(pair.notional_asset.as_str(), notional.neg()) {
            return None;
        }
        if !bal2.checked_update(pair.quantity_asset.as_str(), quantity) {
            return None;
        }
        if !bp2.checked_update(pair.quantity_asset.as_str(), quantity) {
            return None;
        }
        let refund = match lqv_opt.unwrap().checked_sub(&notional) {
            Some(v) => v,
            None => {
                return None;
            },
        };
        if !bp2.checked_update(pair.notional_asset.as_str(), refund) {
            return None;
        }
    } else {
        if !bal2.checked_update(pair.notional_asset.as_str(), notional) {
            return None;
        }
        if !bal2.checked_update(pair.quantity_asset.as_str(), quantity.neg()) {
            return None;
        }
        if !bp2.checked_update(pair.notional_asset.as_str(), notional) {
            return None;
        }
    }
    *bal = bal2;
    *bp = bp2;
    proof {
        let cv = cur@;
        let qv = quantity_rep(o.amount, cv);
        let nv = notional_rep(o.amount, cv);
        crate::rational::lemma_fill_notional(qv, nv, avg@);
        match o.amount {
            Amount::Quantity { quantity: q0 } => {
                crate::rational::lemma_mul_wf(q0@, cv);
                crate::rational::lemma_norm_eq(rat_mul(q0@, cv));
                crate::rational::lemma_avg_price(qv, nv, cv, avg@);
            },
            Amount::Notional { notional: n0 } => {
                crate::rational::lemma_div_wf(n0@, cv);
                crate::rational::lemma_norm_eq(rat_div(n0@, cv));
                crate::rational::lemma_mul_of_div(qv, n0@, cv);
                crate::rational::lemma_avg_price(qv, nv, cv, avg@);
            },
        }
    }
    Some(
        Order {
            order_id: o.order_id.clone(),
            asset_symbol: o.asset_symbol.clone(),
            amount: o.amount,
            limit_price: o.limit_price,
            filled_quantity: quantity,
            average_fill_price: Some(avg),
            status: OrderStatus::Filled,
            type_: o.type_,
            side: o.side,
        },
    )
}

/// Everything `set_notional_per_unit` does: validates the pair,
/// stores the price, and re-evaluates every pending limit order
/// against the new table, atomically.  It succeeds exactly when every
/// triggered fill fits the numeric range, and then the ledgers hold
/// the replay of all those fills, in table order.
pub open spec fn set_price_post(
    pre: SimulatedBroker,
    pair: AssetPair,
    price: Rational,
    r: Result<(), TradeError>,
    post: SimulatedBroker,
) -> bool {
    let key = (pair.quantity_asset@, pair.notional_asset@);
    let m0 = pre.orders_model();
    if !pre.is_notional(pair.notional_asset@) {
        &&& r == Err::<(), TradeError>(TradeError::InvalidNotionalAsset(pair.notional_asset))
        &&& post == pre
    } else {
        &&& (r is Err ==> r == Err::<(), TradeError>(TradeError::NumericOverflow) && post == pre)
        &&& (r is Ok <==> replay_ok(m0, pre, key, price, m0.len() as int))
        &&& (r is Ok ==> {
            &&& post.price_of(key) == Some(price)
            &&& forall|k2: (Seq<char>, Seq<char>)|
                k2 != key ==> #[trigger] post.price_of(k2) == pre.price_of(k2)
            &&& post.orders_model().len() == m0.len()
            &&& forall|i: int|
                0 <= i < m0.len() ==> order_transition(
                    #[trigger] m0[i],
                    post.orders_model()[i],
                    pre,
                    key,
                    price,
                )
            &&& (forall|id: Seq<char>|
                pre.order_lookup(id) is None ==> #[trigger] post.order_lookup(id) is None)
            &&& (forall|id: Seq<char>|
                #[trigger] pre.order_lookup(id) matches Some(e) ==> (post.order_lookup(id)
                    matches Some(e2) && e2.0 == e.0 && order_transition(
                    (id, e.0, e.1),
                    (id, e2.0, e2.1),
                    pre,
                    key,
                    price,
                )))
            &&& (forall|k: Seq<char>|
                #[trigger] post.balance_of(k) == replay_bal(m0, pre, key, price, m0.len() as int)(
                    k,
                ))
            &&& (forall|k: Seq<char>|
                #[trigger] post.buying_power_of(k) == replay_bp(
                    m0,
                    pre,
                    key,
                    price,
                    m0.len() as int,
                )(k))
            &&& forall|a: Seq<char>| #[trigger] post.is_notional(a) == pre.is_notional(a)
            &&& post.currency_of() == pre.currency_of()
        })
    }
}

/// Replaying a prefix in which no order fills touches nothing and
/// cannot fail.
proof fn lemma_no_fill_replay_identity(
    m: Seq<(Seq<char>, AssetPair, Order)>,
    pre: SimulatedBroker,
    key: (Seq<char>, Seq<char>),
    price: Rational,
    i: int,
)
    requires
        forall|j: int| 0 <= j < i ==> !order_fills(#[trigger] m[j], pre, key, price),
    ensures
        forall|k: Seq<char>| #[trigger] replay_bal(m, pre, key, price, i)(k) == pre.balance_of(k),
        forall|k: Seq<char>|
            #[trigger] replay_bp(m, pre, key, price, i)(k) == pre.buying_power_of(k),
        replay_ok(m, pre, key, price, i),
    decreases i,
{
    if i > 0 {
        lemma_no_fill_replay_identity(m, pre, key, price, i - 1);
        assert(!order_fills(m[i - 1], pre, key, price));
        assert(replay_bal(m, pre, key, price, i) == replay_bal(m, pre, key, price, i - 1));
        assert(replay_bp(m, pre, key, price, i) == replay_bp(m, pre, key, price, i - 1));
    } else {
        assert forall|k: Seq<char>| #[trigger] replay_bal(m, pre, key, price, i)(k)
            == pre.balance_of(k) by {}
        assert forall|k: Seq<char>| #[trigger] replay_bp(m, pre, key, price, i)(k)
            == pre.buying_power_of(k) by {}
    }
}

/// A price write that satisfies no pending order's bound always
/// succeeds: nothing has to fill, so nothing can overflow.
pub proof fn lemma_irrelevant_price_update_succeeds(
    pre: SimulatedBroker,
    pair: AssetPair,
    price: Rational,
)
    requires
        forall|j: int|
            0 <= j < pre.orders_model().len() ==> !order_fills(
                #[trigger] pre.orders_model()[j],
                pre,
                (pair.quantity_asset@, pair.notional_asset@),
                price,
            ),
    ensures
        replay_ok(
            pre.orders_model(),
            pre,
            (pair.quantity_asset@, pair.notional_asset@),
            price,
            pre.orders_model().len() as int,
        ),
{
    let key = (pair.quantity_asset@, pair.notional_asset@);
    lemma_no_fill_replay_identity(
        pre.orders_model(),
        pre,
        key,
        price,
        pre.orders_model().len() as int,
    );
}

/// A price write that satisfies no pending order's bound is
/// irrelevant: it stores the price and changes nothing else — every
/// order is exactly as before (a pending limit order in particular
/// stays `New`), and so is every balance and buying-power entry.
/// Since the orders and ledgers come out identical, any sequence of
/// such writes leaves a never-crossed limit order `New` indefinitely.
pub proof fn lemma_irrelevant_price_update(
    pre: SimulatedBroker,
    pair: AssetPair,
    price: Rational,
    post: SimulatedBroker,
)
    requires
        pre.wf(),
        set_price_post(pre, pair, price, Ok(()), post),
        pre.is_notional(pair.notional_asset@),
        forall|j: int|
            0 <= j < pre.orders_model().len() ==> !order_fills(
                #[trigger] pre.orders_model()[j],
                pre,
                (pair.quantity_asset@, pair.notional_asset@),
                price,
            ),
    ensures
        post.orders_model() == pre.orders_model(),
        forall|id: Seq<char>| #[trigger] post.order_lookup(id) == pre.order_lookup(id),
        forall|k: Seq<char>| #[trigger] post.balance_of(k) == pre.balance_of(k),
        forall|k: Seq<char>| #[trigger] post.buying_power_of(k) == pre.buying_power_of(k),
{
    let key = (pair.quantity_asset@, pair.notional_asset@);
    let m0 = pre.orders_model();
    lemma_no_fill_replay_identity(m0, pre, key, price, m0.len() as int);
    assert forall|j: int| 0 <= j < m0.len() implies post.orders_model()[j] == m0[j] by {
        assert(order_transition(m0[j], post.orders_model()[j], pre, key, price));
    }
    assert(post.orders_model() =~= m0);
    assert forall|id: Seq<char>| #[trigger] post.order_lookup(id) == pre.order_lookup(id) by {
        if pre.order_lookup(id) is Some {
            pre.orders.lemma_lookup_in_model(id);
            let mi = choose|mi: int|
                0 <= mi < pre.orders.model().len() && #[trigger] pre.orders.model()[mi] == (
                    id,
                    pre.orders.lookup(id).unwrap().0,
                    pre.orders.lookup(id).unwrap().1,
                );
            assert(!order_fills(m0[mi], pre, key, price));
        }
    }
}

/// One simulation step: one of the tracked pairs got a well-formed
/// price stored successfully, with every consequence of
/// [`set_price_post`].
pub open spec fn broker_step(b0: SimulatedBroker, b1: SimulatedBroker, pairs: Seq<AssetPair>) -> bool {
    exists|i: int, price: Rational|
        0 <= i < pairs.len() && price.wf() && #[trigger] set_price_post(
            b0,
            pairs[i],
            price,
            Ok(()),
            b1,
        )
}

/// `b1` is what `steps` successful price writes of tracked pairs make
/// of `b0`: how a simulation update, and nothing else, evolves the
/// broker.
pub open spec fn broker_reachable(
    b0: SimulatedBroker,
    b1: SimulatedBroker,
    pairs: Seq<AssetPair>,
    steps: nat,
) -> bool
    decreases steps,
{
    if steps == 0 {
        b1 == b0
    } else {
        exists|mid: SimulatedBroker|
            broker_reachable(b0, mid, pairs, (steps - 1) as nat) && #[trigger] broker_step(
                mid,
                b1,
                pairs,
            )
    }
}

/// A chain of successful price writes keeps the currency, the
/// notional-asset set and the set of orders: no id appears or
/// disappears, every order keeps its pair and request fields, and an
/// order once filled never changes again.
pub proof fn lemma_reachable_frame(
    b0: SimulatedBroker,
    b1: SimulatedBroker,
    pairs: Seq<AssetPair>,
    steps: nat,
)
    requires
        broker_reachable(b0, b1, pairs, steps),
    ensures
        b1.currency_of() == b0.currency_of(),
        forall|a: Seq<char>| #[trigger] b1.is_notional(a) == b0.is_notional(a),
        b1.orders_model().len() == b0.orders_model().len(),
        forall|id: Seq<char>|
            b0.order_lookup(id) is None ==> #[trigger] b1.order_lookup(id) is None,
        forall|id: Seq<char>|
            #[trigger] b0.order_lookup(id) is Some ==> (b1.order_lookup(id) matches Some(e2) && {
                let e = b0.order_lookup(id).unwrap();
                &&& e2.0 == e.0
                &&& e2.1.order_id == e.1.order_id
                &&& e2.1.asset_symbol == e.1.asset_symbol
                &&& e2.1.amount == e.1.amount
                &&& e2.1.limit_price == e.1.limit_price
                &&& e2.1.side == e.1.side
                &&& e2.1.type_ == e.1.type_
                &&& (e.1.status == OrderStatus::Filled ==> e2.1 == e.1)
            }),
    decreases steps,
{
    if steps != 0 {
        reveal_with_fuel(broker_reachable, 2);
        assert(exists|mid: SimulatedBroker|
            broker_reachable(b0, mid, pairs, (steps - 1) as nat) && #[trigger] broker_step(
                mid,
                b1,
                pairs,
            ));
        let mid = choose|mid: SimulatedBroker|
            broker_reachable(b0, mid, pairs, (steps - 1) as nat) && #[trigger] broker_step(
                mid,
                b1,
                pairs,
            );
        lemma_reachable_frame(b0, mid, pairs, (steps - 1) as nat);
        let (i, price) = choose|i: int, price: Rational|
            0 <= i < pairs.len() && price.wf() && #[trigger] set_price_post(
                mid,
                pairs[i],
                price,
                Ok(()),
                b1,
            );
        assert(mid.is_notional(pairs[i].notional_asset@));
        assert forall|id: Seq<char>| #[trigger] b0.order_lookup(id) is Some implies (
        b1.order_lookup(id) matches Some(e2) && {
            let e = b0.order_lookup(id).unwrap();
            &&& e2.0 == e.0
            &&& e2.1.order_id == e.1.order_id
            &&& e2.1.asset_symbol == e.1.asset_symbol
            &&& e2.1.amount == e.1.amount
            &&& e2.1.limit_price == e.1.limit_price
            &&& e2.1.side == e.1.side
            &&& e2.1.type_ == e.1.type_
            &&& (e.1.status == OrderStatus::Filled ==> e2.1 == e.1)
        }) by {
            assert(mid.order_lookup(id) is Some);
        }
    }
}

/// A uniform abstraction of order placing and tracking against a
/// trading venue, entirely in process.
#[derive(Debug)]
pub struct SimulatedBroker {
    currency: String,
    notional_assets: Vec<String>,
    buying_power_balances: Ledger,
    orders: OrderTable,
    notional_per_unit: PriceTable,
    balances: Ledger,
}

impl SimulatedBroker {
    /// The settlement currency.
    pub closed spec fn currency_of(&self) -> Seq<char> {
        self.currency@
    }

    /// Whether `a` is a permitted notional (settlement) asset.
    pub closed spec fn is_notional(&self, a: Seq<char>) -> bool {
        contains_str(self.notional_assets@, a)
    }

    /// The settled balance of an asset, zero when unseen.
    pub closed spec fn balance_of(&self, k: Seq<char>) -> Rat {
        self.balances.val(k)
    }

    /// The buying power of an asset, zero when unseen.
    pub closed spec fn buying_power_of(&self, k: Seq<char>) -> Rat {
        self.buying_power_balances.val(k)
    }

    /// The stored price of a pair, keyed by the two legs.
    pub closed spec fn price_of(&self, k: (Seq<char>, Seq<char>)) -> Option<Rational> {
        self.notional_per_unit.lookup(k)
    }

    /// The broker's price table.
    pub closed spec fn prices(&self) -> PriceTable {
        self.notional_per_unit
    }

    /// The pair and order stored under an order id.
    pub closed spec fn order_lookup(&self, id: Seq<char>) -> Option<(AssetPair, Order)> {
        self.orders.lookup(id)
    }

    /// The order stored under an id.
    pub open spec fn order_of(&self, id: Seq<char>) -> Option<Order> {
        match self.order_lookup(id) {
            Some(e) => Some(e.1),
            None => None,
        }
    }

    /// All orders, in table order: id, pair, order.
    pub closed spec fn orders_model(&self) -> Seq<(Seq<char>, AssetPair, Order)> {
        self.orders.model()
    }

    /// The invariants the broker maintains: well-formed tables, the
    /// currency among the notional assets, and every stored order
    /// consistent, well-formed, and priced.
    pub closed spec fn wf(&self) -> bool {
        &&& self.balances.wf()
        &&& self.buying_power_balances.wf()
        &&& self.orders.wf()
        &&& self.notional_per_unit.wf()
        &&& self.is_notional(self.currency@)
        &&& forall|i: int|
            0 <= i < self.orders.model().len() ==> Self::order_entry_wf(
                #[trigger] self.orders.model()[i],
                self.notional_per_unit,
            )
    }

    /// What holds of every stored order entry.
    pub open spec fn order_entry_wf(e: (Seq<char>, AssetPair, Order), pt: PriceTable) -> bool {
        let o = e.2;
        &&& o.order_id@ == e.0
        &&& o.asset_symbol@ == spec_pair_string(e.1.quantity_asset@, e.1.notional_asset@)
        &&& o.amount.wf()
        &&& (o.limit_price matches Some(l) ==> l.wf())
        &&& ((o.type_ == OrderType::Limit) <==> o.limit_price is Some)
        &&& o.filled_quantity.wf()
        &&& (o.average_fill_price matches Some(a) ==> a.wf())
        &&& (o.status == OrderStatus::New || o.status == OrderStatus::Filled)
        &&& (o.status == OrderStatus::New ==> o.type_ == OrderType::Limit)
        &&& pt.lookup((e.1.quantity_asset@, e.1.notional_asset@)) is Some
    }

    /// Every entry of the order table is what `order_of` reports for
    /// its id.
    pub proof fn lemma_order_entry(&self, i: int)
        requires
            self.wf(),
            0 <= i < self.orders_model().len(),
        ensures
            self.order_lookup(self.orders_model()[i].0) == Some(
                (self.orders_model()[i].1, self.orders_model()[i].2),
            ),
    {
        self.orders.lemma_entry_lookup(i);
    }

    /// A broker over the given notional assets, seeded with the given
    /// balances; the buying power starts equal to the balances.  Fails
    /// exactly when the settlement currency is not a notional asset.
    pub fn new(currency: &str, notional_assets: Vec<String>, starting_balances: Ledger) -> (r:
        Result<SimulatedBroker, TradeError>)
        requires
            starting_balances.wf(),
        ensures
            r is Ok <==> contains_str(notional_assets@, currency@),
            r matches Err(e) ==> (e matches TradeError::MissingCurrencyNotionalAsset(c) && c@
                == currency@),
            r matches Ok(b) ==> {
                &&& b.wf()
                &&& b.currency_of() == currency@
                &&& forall|a: Seq<char>|
                    #[trigger] b.is_notional(a) <==> contains_str(notional_assets@, a)
                &&& forall|k: Seq<char>| #[trigger] b.balance_of(k) == starting_balances.val(k)
                &&& forall|k: Seq<char>|
                    #[trigger] b.buying_power_of(k) == starting_balances.val(k)
                &&& forall|id: Seq<char>| #[trigger] b.order_of(id) is None
                &&& b.orders_model().len() == 0
                &&& forall|k2: (Seq<char>, Seq<char>)| #[trigger] b.price_of(k2) is None
            },
    {
        let needle = String::from_str(currency);
        let n = notional_assets.len();
        let mut i: usize = 0;
        let mut found: bool = false;
        while i < n
            invariant
                0 <= i <= n,
                n == notional_assets@.len(),
                needle@ == currency@,
                found <==> exists|j: int|
                    0 <= j < i && (#[trigger] notional_assets@[j])@ == currency@,
            decreases n - i,
        {
            if notional_assets[i] == needle {
                found = true;
            }
            i = i + 1;
        }
        if !found {
            return Err(TradeError::MissingCurrencyNotionalAsset(needle));
        }
        let buying_power_balances = starting_balances.duplicate();
        Ok(
            SimulatedBroker {
                currency: needle,
                notional_assets,
                buying_power_balances,
                orders: OrderTable::new(),
                notional_per_unit: PriceTable::new(),
                balances: starting_balances,
            },
        )
    }

    pub fn get_currency(&self) -> (r: String)
        ensures
            r@ == self.currency_of(),
    {
        self.currency.clone()
    }

    pub fn get_balance(&self, asset: &str) -> (r: Rational)
        requires
            self.wf(),
        ensures
            r.wf(),
            r@ == self.balance_of(asset@),
    {
        self.balances.get(asset)
    }

    pub fn get_buying_power(&self, asset: &str) -> (r: Rational)
        requires
            self.wf(),
        ensures
            r.wf(),
            r@ == self.buying_power_of(asset@),
    {
        self.buying_power_balances.get(asset)
    }

    /// The settled balance table: each asset with its value, in
    /// storage order.
    pub closed spec fn balance_entries(&self) -> Seq<(Seq<char>, Rat)> {
        self.balances.model()
    }

    /// Every balance entry holds the value `balance_of` reports.
    pub proof fn lemma_balance_entry(&self, i: int)
        requires
            self.wf(),
            0 <= i < self.balance_entries().len(),
        ensures
            self.balance_of(self.balance_entries()[i].0) == self.balance_entries()[i].1,
    {
        self.balances.lemma_entry_val(i);
    }

    /// The settlement currency is itself a notional asset.
    pub proof fn lemma_wf_currency(&self)
        requires
            self.wf(),
        ensures
            self.is_notional(self.currency_of()),
    {
    }

    /// An asset with a nonzero settled balance sits in the balance
    /// table, with that value.
    pub proof fn lemma_balance_has_entry(&self, k: Seq<char>)
        requires
            self.wf(),
            self.balance_of(k).n != 0,
        ensures
            exists|m: int|
                0 <= m < self.balance_entries().len() && (#[trigger] self.balance_entries()[m]).0
                    == k && self.balance_entries()[m].1 == self.balance_of(k),
    {
        self.balances.lemma_val_in_model(k);
        let m = choose|m: int|
            0 <= m < self.balances.model().len() && (#[trigger] self.balances.model()[m]).0 == k
                && self.balances.model()[m].1 == self.balances.val(k);
        assert(0 <= m < self.balance_entries().len() && self.balance_entries()[m].0 == k
            && self.balance_entries()[m].1 == self.balance_of(k));
    }

    /// The assets other than the currency that the broker holds a
    /// nonzero settled balance of.
    pub fn get_purchased_asset_symbols(&self) -> (r: Vec<String>)
        requires
            self.wf(),
        ensures
            forall|j: int|
                0 <= j < r@.len() ==> (#[trigger] r@[j])@ != self.currency_of() && self.balance_of(
                    r@[j]@,
                ).n != 0,
            forall|i: int|
                0 <= i < self.balance_entries().len() && (#[trigger] self.balance_entries()[i]).0
                    != self.currency_of() && self.balance_entries()[i].1.n != 0 ==> exists|j: int|
                    0 <= j < r@.len() && (#[trigger] r@[j])@ == self.balance_entries()[i].0,
            forall|j1: int, j2: int|
                0 <= j1 < j2 < r@.len() ==> (#[trigger] r@[j1])@ != (#[trigger] r@[j2])@,
    {
        let n = self.balances.len();
        let mut out: Vec<String> = Vec::new();
        let mut i: usize = 0;
        while i < n
            invariant
                0 <= i <= n,
                n == self.balance_entries().len(),
                self.wf(),
                forall|j: int|
                    0 <= j < out@.len() ==> (#[trigger] out@[j])@ != self.currency_of()
                        && self.balance_of(out@[j]@).n != 0,
                forall|m: int|
                    0 <= m < i && (#[trigger] self.balance_entries()[m]).0 != self.currency_of()
                        && self.balance_entries()[m].1.n != 0 ==> exists|j: int|
                        0 <= j < out@.len() && (#[trigger] out@[j])@
                            == self.balance_entries()[m].0,
                forall|j: int|
                    0 <= j < out@.len() ==> exists|m: int|
                        0 <= m < i && (#[trigger] out@[j])@ == self.balance_entries()[m].0,
                forall|j1: int, j2: int|
                    0 <= j1 < j2 < out@.len() ==> (#[trigger] out@[j1])@ != (#[trigger] out@[j2])@,
            decreases n - i,
        {
            let entry = self.balances.entry_at(i);
            if !(entry.0 == self.currency) && !entry.1.is_zero() {
                proof {
                    self.balances.lemma_entry_val(i as int);
                }
                let ghost out0 = out@;
                out.push(entry.0);
                proof {
                    self.balances.lemma_model_keys_unique();
                    assert(out@[out0.len() as int]@ == self.balance_entries()[i as int].0);
                    assert forall|m: int|
                        0 <= m < i + 1 && (#[trigger] self.balance_entries()[m]).0
                            != self.currency_of() && self.balance_entries()[m].1.n != 0 implies exists|
                        j: int,
                    |
                        0 <= j < out@.len() && (#[trigger] out@[j])@
                            == self.balance_entries()[m].0 by {
                        if m < i {
                            let j0 = choose|j: int|
                                0 <= j < out0.len() && (#[trigger] out0[j])@
                                    == self.balance_entries()[m].0;
                            assert(out@[j0]@ == self.balance_entries()[m].0);
                        } else {
                            assert(out@[out0.len() as int]@ == self.balance_entries()[m].0);
                        }
                    }
                    assert forall|j: int| 0 <= j < out@.len() implies exists|m: int|
                        0 <= m < i + 1 && (#[trigger] out@[j])@ == self.balance_entries()[m].0 by {
                        if j < out0.len() {
                            let m0 = choose|m: int|
                                0 <= m < i && (#[trigger] out0[j])@ == self.balance_entries()[m].0;
                            assert(out@[j]@ == self.balance_entries()[m0].0);
                        } else {
                            assert(out@[j]@ == self.balance_entries()[i as int].0);
                        }
                    }
                    assert forall|j1: int, j2: int| 0 <= j1 < j2 < out@.len() implies (
                    #[trigger] out@[j1])@ != (#[trigger] out@[j2])@ by {
                        if j2 == out0.len() {
                            let m0 = choose|m: int|
                                0 <= m < i && (#[trigger] out0[j1])@
                                    == self.balance_entries()[m].0;
                            assert(out@[j1]@ == self.balance_entries()[m0].0);
                            assert(out@[j2]@ == self.balance_entries()[i as int].0);
                            assert(self.balance_entries()[m0].0 != self.balance_entries()[i as int].0);
                        }
                    }
                }
            } else {
                proof {
                    assert(self.balance_entries()[i as int].0 == self.currency_of()
                        || self.balance_entries()[i as int].1.n == 0);
                }
            }
            i = i + 1;
        }
        out
    }

    /// The stored price of the pair; fails with `InvalidNotionalAsset`
    /// for a pair whose notional leg is not permitted, and with
    /// `NoNotionalPerUnit` when no price was ever set.
    pub fn get_notional_per_unit(&self, asset_pair: &AssetPair) -> (r: Result<
        Rational,
        TradeError,
    >)
        requires
            self.wf(),
        ensures
            !self.is_notional(asset_pair.notional_asset@) ==> (r matches Err(e) && e matches
                TradeError::InvalidNotionalAsset(a) && a@ == asset_pair.notional_asset@),
            self.is_notional(asset_pair.notional_asset@) ==> match self.price_of(
                (asset_pair.quantity_asset@, asset_pair.notional_asset@),
            ) {
                Some(v) => r == Ok::<Rational, TradeError>(v) && v.wf(),
                None => r matches Err(e) && e matches TradeError::NoNotionalPerUnit(p) && p@
                    == spec_pair_string(asset_pair.quantity_asset@, asset_pair.notional_asset@),
            },
    {
        if !self.check_notional(asset_pair) {
            return Err(TradeError::InvalidNotionalAsset(asset_pair.notional_asset.clone()));
        }
        match self.notional_per_unit.get(asset_pair) {
            Some(v) => Ok(v),
            None => Err(TradeError::NoNotionalPerUnit(asset_pair.to_string())),
        }
    }

    /// Whether the notional leg of the pair is permitted.
    fn check_notional(&self, asset_pair: &AssetPair) -> (r: bool)
        ensures
            r == self.is_notional(asset_pair.notional_asset@),
    {
        let n = self.notional_assets.len();
        let mut i: usize = 0;
        while i < n
            invariant
                0 <= i <= n,
                n == self.notional_assets@.len(),
                forall|j: int|
                    0 <= j < i ==> (#[trigger] self.notional_assets@[j])@
                        != asset_pair.notional_asset@,
            decreases n - i,
        {
            if self.notional_assets[i] == asset_pair.notional_asset {
                return true;
            }
            i = i + 1;
        }
        false
    }

    /// A snapshot of every order, in table order.
    pub fn get_orders(&self) -> (r: Vec<Order>)
        requires
            self.wf(),
        ensures
            r@.len() == self.orders_model().len(),
            forall|i: int|
                0 <= i < r@.len() ==> r@[i] == (#[trigger] self.orders_model()[i]).2,
    {
        let n = self.orders.len();
        let mut out: Vec<Order> = Vec::new();
        let mut i: usize = 0;
        while i < n
            invariant
                0 <= i <= n,
                n == self.orders_model().len(),
                self.wf(),
                out@.len() == i,
                forall|j: int|
                    0 <= j < i ==> out@[j] == (#[trigger] self.orders_model()[j]).2,
            decreases n - i,
        {
            let entry = self.orders.entry_at(i);
            out.push(entry.1);
            i = i + 1;
        }
        out
    }

    /// The order with the given id; fails with `OrderNotFound` when
    /// none exists.
    pub fn get_order(&self, order_id: &str) -> (r: Result<Order, TradeError>)
        requires
            self.wf(),
        ensures
            match self.order_of(order_id@) {
                Some(o) => r == Ok::<Order, TradeError>(o),
                None => r matches Err(e) && e matches TradeError::OrderNotFound(id) && id@
                    == order_id@,
            },
    {
        match self.orders.get(order_id) {
            Some(e) => Ok(e.1),
            None => Err(TradeError::OrderNotFound(String::from_str(order_id))),
        }
    }

    /// Places an order: reserves buying power, then fills at once when
    /// the order is a market order or a limit order whose bound the
    /// current price already satisfies.  A failed call reports why and
    /// leaves the broker exactly as it was.  Order ids come from a
    /// random source and no uniqueness is assumed of it: in the
    /// (practically unreachable) event of a collision the new order
    /// replaces the stored one, and the contract states that case.
    pub fn place_order(&mut self, order_req: OrderRequest) -> (r: Result<String, TradeError>)
        requires
            old(self).wf(),
            order_req.amount.wf(),
            order_req.limit_price matches Some(l) ==> l.wf(),
        ensures
            final(self).wf(),
            place_order_post(*old(self), order_req, r, *final(self)),
    {
        let ghost pre = *self;
        if !self.check_notional(&order_req.asset_pair) {
            return Err(TradeError::InvalidNotionalAsset(order_req.asset_pair.notional_asset.clone()));
        }
        let cur = match self.notional_per_unit.get(&order_req.asset_pair) {
            Some(c) => c,
            None => {
                return Err(TradeError::NoNotionalPerUnit(order_req.asset_pair.to_string()));
            },
        };
        let quantity = match &order_req.amount {
            Amount::Quantity { quantity } => *quantity,
            Amount::Notional { notional } => match notional.checked_div(&cur) {
                Some(v) => v,
                None => {
                    return Err(TradeError::NumericOverflow);
                },
            },
        };
        let notional = match &order_req.amount {
            Amount::Quantity { quantity } => match quantity.checked_mul(&cur) {
                Some(v) => v,
                None => {
                    return Err(TradeError::NumericOverflow);
                },
            },
            Amount::Notional { notional } => *notional,
        };
        let needed = if order_req.side == OrderSide::Buy {
            match &order_req.limit_price {
                Some(l) => match l.checked_mul(&quantity) {
                    Some(v) => v,
                    None => {
                        return Err(TradeError::NumericOverflow);
                    },
                },
                None => notional,
            }
        } else {
            quantity
        };
        let buying: bool = order_req.side == OrderSide::Buy;
        let bp0 = if buying {
            self.buying_power_balances.get(order_req.asset_pair.notional_asset.as_str())
        } else {
            self.buying_power_balances.get(order_req.asset_pair.quantity_asset.as_str())
        };
        if bp0.lt(&needed) {
            let asset = if buying {
                order_req.asset_pair.notional_asset.clone()
            } else {
                order_req.asset_pair.quantity_asset.clone()
            };
            return Err(TradeError::InsufficientBuyingPower(asset));
        }
        let fill: bool = match &order_req.limit_price {
            None => true,
            Some(l) => {
                let at_limit = cur == *l;
                let below = cur.lt(l);
                at_limit || ((order_req.side == OrderSide::Buy) == below)
            },
        };
        let avg_opt: Option<Rational> = if fill {
            match notional.checked_div(&quantity) {
                Some(a) => Some(a),
                None => {
                    return Err(TradeError::NumericOverflow);
                },
            }
        } else {
            None
        };
        // All further arithmetic happens on copies; the broker itself
        // changes only once every write is known to fit.
        let mut bal = self.balances.duplicate();
        let mut bp = self.buying_power_balances.duplicate();
        let reserve_done = if buying {
            bp.checked_update(order_req.asset_pair.notional_asset.as_str(), needed.neg())
        } else {
            bp.checked_update(order_req.asset_pair.quantity_asset.as_str(), needed.neg())
        };
        if !reserve_done {
            return Err(TradeError::NumericOverflow);
        }
        if fill {
            if buying {
                if !bal.checked_update(
                    order_req.asset_pair.notional_asset.as_str(),
                    notional.neg(),
                ) {
                    return Err(TradeError::NumericOverflow);
                }
                if !bal.checked_update(order_req.asset_pair.quantity_asset.as_str(), quantity) {
                    return Err(TradeError::NumericOverflow);
                }
                if !bp.checked_update(order_req.asset_pair.quantity_asset.as_str(), quantity) {
                    return Err(TradeError::NumericOverflow);
                }
                if order_req.limit_price.is_some() {
                    let refund = match needed.checked_sub(&notional) {
                        Some(v) => v,
                        None => {
                            return Err(TradeError::NumericOverflow);
                        },
                    };
                    if !bp.checked_update(order_req.asset_pair.notional_asset.as_str(), refund) {
                        return Err(TradeError::NumericOverflow);
                    }
                }
            } else {
                if !bal.checked_update(order_req.asset_pair.notional_asset.as_str(), notional) {
                    return Err(TradeError::NumericOverflow);
                }
                if !bal.checked_update(
                    order_req.asset_pair.quantity_asset.as_str(),
                    quantity.neg(),
                ) {
                    return Err(TradeError::NumericOverflow);
                }
                if !bp.checked_update(order_req.asset_pair.notional_asset.as_str(), notional) {
                    return Err(TradeError::NumericOverflow);
                }
            }
        }
        let order_id = generate_order_id();
        let order = Order {
            order_id: order_id.clone(),
            asset_symbol: order_req.asset_pair.to_string(),
            amount: order_req.amount,
            limit_price: order_req.limit_price,
            filled_quantity: if fill {
                quantity
            } else {
                Rational::zero()
            },
            average_fill_price: if fill {
                avg_opt
            } else {
                None
            },
            status: if fill {
                OrderStatus::Filled
            } else {
                OrderStatus::New
            },
            type_: if order_req.limit_price.is_some() {
                OrderType::Limit
            } else {
                OrderType::Market
            },
            side: order_req.side,
        };
        proof {
            let cv = cur@;
            let qv = quantity_rep(order_req.amount, cv);
            let nv = notional_rep(order_req.amount, cv);
            if fill {
                crate::rational::lemma_fill_notional(qv, nv, avg_opt.unwrap()@);
                match order_req.amount {
                    Amount::Quantity { quantity: q0 } => {
                        crate::rational::lemma_mul_wf(q0@, cv);
                        crate::rational::lemma_norm_eq(rat_mul(q0@, cv));
                        crate::rational::lemma_avg_price(qv, nv, cv, avg_opt.unwrap()@);
                    },
                    Amount::Notional { notional: n0 } => {
                        crate::rational::lemma_div_wf(n0@, cv);
                        crate::rational::lemma_norm_eq(rat_div(n0@, cv));
                        crate::rational::lemma_mul_of_div(qv, n0@, cv);
                        crate::rational::lemma_avg_price(qv, nv, cv, avg_opt.unwrap()@);
                    },
                }
            }
        }
        self.balances = bal;
        self.buying_power_balances = bp;
        let ghost pair = order_req.asset_pair;
        self.orders.upsert(order_req.asset_pair, order);
        proof {
            assert forall|i: int|
                0 <= i < self.orders.model().len() implies Self::order_entry_wf(
                #[trigger] self.orders.model()[i],
                self.notional_per_unit,
            ) by {
                let m0 = pre.orders.model();
                if pre.orders.lookup(order_id@) is None {
                    if i < m0.len() {
                        assert(self.orders.model()[i] == m0[i]);
                        assert(Self::order_entry_wf(m0[i], pre.notional_per_unit));
                    } else {
                        assert(self.orders.model()[i] == (order_id@, pair, order));
                    }
                } else {
                    if m0[i].0 == order_id@ {
                        assert(self.orders.model()[i] == (order_id@, pair, order));
                    } else {
                        assert(self.orders.model()[i] == m0[i]);
                        assert(Self::order_entry_wf(m0[i], pre.notional_per_unit));
                    }
                }
            }
        }
        Ok(order_id)
    }

    /// Stores a price for the pair and re-evaluates every pending
    /// limit order against the new table: each one whose bound the
    /// price of its own pair now satisfies fills at that price.  The
    /// call is atomic: any failure leaves the broker unchanged.
    pub fn set_notional_per_unit(&mut self, asset_pair: AssetPair, notional_per_unit: Rational) -> (
        r: Result<(), TradeError>)
        requires
            old(self).wf(),
            notional_per_unit.wf(),
        ensures
            final(self).wf(),
            set_price_post(*old(self), asset_pair, notional_per_unit, r, *final(self)),
    {
        let ghost pre = *self;
        let ghost key = (asset_pair.quantity_asset@, asset_pair.notional_asset@);
        if !self.check_notional(&asset_pair) {
            return Err(TradeError::InvalidNotionalAsset(asset_pair.notional_asset.clone()));
        }
        let mut prices = self.notional_per_unit.duplicate();
        prices.set(asset_pair, notional_per_unit);
        let mut bal = self.balances.duplicate();
        let mut bp = self.buying_power_balances.duplicate();
        let mut orders = self.orders.duplicate();
        let ghost m0 = pre.orders_model();
        let n = orders.len();
        let mut i: usize = 0;
        while i < n
            invariant
                0 <= i <= n,
                n == m0.len(),
                pre == *old(self),
                *self == pre,
                pre.wf(),
                m0 == pre.orders_model(),
                key == (asset_pair.quantity_asset@, asset_pair.notional_asset@),
                pre.is_notional(asset_pair.notional_asset@),
                notional_per_unit.wf(),
                bal.wf(),
                bp.wf(),
                orders.wf(),
                prices.wf(),
                orders.model().len() == n,
                forall|k2: (Seq<char>, Seq<char>)|
                    #[trigger] prices.lookup(k2) == cur_after(pre, key, notional_per_unit, k2),
                forall|j: int| i <= j < n ==> #[trigger] orders.model()[j] == m0[j],
                forall|j: int|
                    0 <= j < i ==> order_transition(
                        #[trigger] m0[j],
                        orders.model()[j],
                        pre,
                        key,
                        notional_per_unit,
                    ),
                forall|j: int|
                    0 <= j < n ==> Self::order_entry_wf(#[trigger] orders.model()[j], prices),
                replay_ok(m0, pre, key, notional_per_unit, i as int),
                forall|k: Seq<char>|
                    #[trigger] bal.val(k) == replay_bal(m0, pre, key, notional_per_unit, i as int)(
                        k,
                    ),
                forall|k: Seq<char>|
                    #[trigger] bp.val(k) == replay_bp(m0, pre, key, notional_per_unit, i as int)(
                        k,
                    ),
            decreases n - i,
        {
            let entry = orders.entry_at(i);
            let pair_i = entry.0;
            let o_i = entry.1;
            proof {
                assert(orders.model()[i as int] == m0[i as int]);
            }
            let pending = match (&o_i.status, &o_i.type_) {
                (OrderStatus::New, OrderType::Limit) => true,
                _ => false,
            };
            if pending {
                let cur = prices.get(&pair_i).unwrap();
                let limit = o_i.limit_price.unwrap();
                let at_limit = cur == limit;
                let below = cur.lt(&limit);
                if at_limit || ((o_i.side == OrderSide::Buy) == below) {
                    proof {
                        assert(order_fills(m0[i as int], pre, key, notional_per_unit));
                        assert(cur@ == entry_cur(m0[i as int], pre, key, notional_per_unit));
                    }
                    let ghost bal_before = bal;
                    let ghost bp_before = bp;
                    match refill_entry(&mut bal, &mut bp, &pair_i, &o_i, cur) {
                        Some(filled) => {
                            orders.replace_at(i, filled);
                            proof {
                                assert(attempt_ok(bal_before, bp_before, pair_i, o_i, cur@));
                                assert(step_ok(
                                    m0[i as int],
                                    pre,
                                    key,
                                    notional_per_unit,
                                    replay_bal(m0, pre, key, notional_per_unit, i as int),
                                    replay_bp(m0, pre, key, notional_per_unit, i as int),
                                ));
                                assert(replay_ok(m0, pre, key, notional_per_unit, i as int + 1));
                            }
                        },
                        None => {
                            proof {
                                assert(!attempt_ok(bal_before, bp_before, pair_i, o_i, cur@));
                                assert(!step_ok(
                                    m0[i as int],
                                    pre,
                                    key,
                                    notional_per_unit,
                                    replay_bal(m0, pre, key, notional_per_unit, i as int),
                                    replay_bp(m0, pre, key, notional_per_unit, i as int),
                                ));
                                assert(!replay_ok(m0, pre, key, notional_per_unit, i as int + 1));
                                if replay_ok(m0, pre, key, notional_per_unit, m0.len() as int) {
                                    lemma_replay_ok_prefix(
                                        m0,
                                        pre,
                                        key,
                                        notional_per_unit,
                                        i as int + 1,
                                        m0.len() as int,
                                    );
                                }
                            }
                            return Err(TradeError::NumericOverflow);
                        },
                    }
                } else {
                    proof {
                        assert(!order_fills(m0[i as int], pre, key, notional_per_unit));
                    }
                }
            } else {
                proof {
                    assert(!order_fills(m0[i as int], pre, key, notional_per_unit));
                }
            }
            i = i + 1;
        }
        self.notional_per_unit = prices;
        self.balances = bal;
        self.buying_power_balances = bp;
        self.orders = orders;
        proof {
            assert forall|id: Seq<char>| pre.order_lookup(id) is None implies #[trigger] self.order_lookup(
                id,
            ) is None by {
                if self.orders.lookup(id) is Some {
                    self.orders.lemma_lookup_in_model(id);
                    let m = choose|m: int|
                        0 <= m < self.orders.model().len() && #[trigger] self.orders.model()[m] == (
                            id,
                            self.orders.lookup(id).unwrap().0,
                            self.orders.lookup(id).unwrap().1,
                        );
                    assert(m0[m].0 == id);
                    pre.orders.lemma_entry_lookup(m);
                }
            }
            assert forall|id: Seq<char>| #[trigger] pre.order_lookup(id) is Some implies (
            self.order_lookup(id) matches Some(e2) && e2.0 == pre.order_lookup(id).unwrap().0
                && order_transition(
                (id, pre.order_lookup(id).unwrap().0, pre.order_lookup(id).unwrap().1),
                (id, e2.0, e2.1),
                pre,
                key,
                notional_per_unit,
            )) by {
                pre.orders.lemma_lookup_in_model(id);
                let m = choose|m: int|
                    0 <= m < pre.orders.model().len() && #[trigger] pre.orders.model()[m] == (
                        id,
                        pre.orders.lookup(id).unwrap().0,
                        pre.orders.lookup(id).unwrap().1,
                    );
                assert(self.orders.model()[m].0 == id);
                self.orders.lemma_entry_lookup(m);
            }
        }
        Ok(())
    }

    /// Adds `delta` to the settled balance of `asset`, creating the
    /// entry on first write; fails, changing nothing, exactly when the
    /// sum does not fit the numeric range.
    pub fn update_balance(&mut self, asset: &str, delta: Rational) -> (r: Result<(), TradeError>)
        requires
            old(self).wf(),
            delta.wf(),
        ensures
            final(self).wf(),
            r is Ok <==> rat_fits(rat_add(old(self).balance_of(asset@), delta@)),
            r is Err ==> r == Err::<(), TradeError>(TradeError::NumericOverflow) && *final(self)
                == *old(self),
            r is Ok ==> final(self).balance_of(asset@) == rat_norm(
                rat_add(old(self).balance_of(asset@), delta@),
            ) && forall|k: Seq<char>|
                k != asset@ ==> #[trigger] final(self).balance_of(k) == old(self).balance_of(k),
            forall|k: Seq<char>|
                #[trigger] final(self).buying_power_of(k) == old(self).buying_power_of(k),
            final(self).orders_model() == old(self).orders_model(),
            forall|id: Seq<char>|
                #[trigger] final(self).order_lookup(id) == old(self).order_lookup(id),
            forall|k2: (Seq<char>, Seq<char>)|
                #[trigger] final(self).price_of(k2) == old(self).price_of(k2),
            final(self).currency_of() == old(self).currency_of(),
            forall|a: Seq<char>| #[trigger] final(self).is_notional(a) == old(self).is_notional(a),
    {
        if self.balances.checked_update(asset, delta) {
            Ok(())
        } else {
            Err(TradeError::NumericOverflow)
        }
    }

    /// Adds `delta` to the buying power of `asset`, creating the entry
    /// on first write; fails, changing nothing, exactly when the sum
    /// does not fit the numeric range.
    pub fn update_buying_power(&mut self, asset: &str, delta: Rational) -> (r: Result<
        (),
        TradeError,
    >)
        requires
            old(self).wf(),
            delta.wf(),
        ensures
            final(self).wf(),
            r is Ok <==> rat_fits(rat_add(old(self).buying_power_of(asset@), delta@)),
            r is Err ==> r == Err::<(), TradeError>(TradeError::NumericOverflow) && *final(self)
                == *old(self),
            r is Ok ==> final(self).buying_power_of(asset@) == rat_norm(
                rat_add(old(self).buying_power_of(asset@), delta@),
            ) && forall|k: Seq<char>|
                k != asset@ ==> #[trigger] final(self).buying_power_of(k) == old(
                    self,
                ).buying_power_of(k),
            forall|k: Seq<char>| #[trigger] final(self).balance_of(k) == old(self).balance_of(k),
            final(self).orders_model() == old(self).orders_model(),
            forall|id: Seq<char>|
                #[trigger] final(self).order_lookup(id) == old(self).order_lookup(id),
            forall|k2: (Seq<char>, Seq<char>)|
                #[trigger] final(self).price_of(k2) == old(self).price_of(k2),
            final(self).currency_of() == old(self).currency_of(),
            forall|a: Seq<char>| #[trigger] final(self).is_notional(a) == old(self).is_notional(a),
    {
        if self.buying_power_balances.checked_update(asset, delta) {
            Ok(())
        } else {
            Err(TradeError::NumericOverflow)
        }
    }
}

/// A successful fill settles the balances exactly: starting from
/// balances `b_q` and `b_n`, a buy that fills quantity `q` at average
/// price `avg` (with notional `n == q * avg`) leaves the quantity leg
/// at `b_q + q` and the notional leg at `b_n - q * avg`; a sell leaves
/// them at `b_q - q` and `b_n + q * avg`.  The inputs are the stored
/// post-state values of the fill, as `place_order` and
/// `set_notional_per_unit` ensure them.
pub proof fn lemma_fill_settles_balances(
    b_q: Rat,
    b_n: Rat,
    q: Rat,
    n: Rat,
    avg: Rat,
    post_q: Rat,
    post_n: Rat,
    side: OrderSide,
)
    requires
        rat_wf(b_q),
        rat_wf(b_n),
        rat_wf(q),
        rat_wf(n),
        rat_wf(avg),
        rat_eq(n, rat_mul(q, avg)),
        side == OrderSide::Buy ==> post_q == rat_norm(rat_add(b_q, q)) && post_n == rat_norm(
            rat_add(b_n, rat_neg(n)),
        ),
        side == OrderSide::Sell ==> post_q == rat_norm(rat_add(b_q, rat_neg(q))) && post_n
            == rat_norm(rat_add(b_n, n)),
    ensures
        rat_wf(post_q),
        rat_wf(post_n),
        side == OrderSide::Buy ==> rat_eq(post_q, rat_add(b_q, q)) && rat_eq(
            post_n,
            rat_sub(b_n, rat_mul(q, avg)),
        ),
        side == OrderSide::Sell ==> rat_eq(post_q, rat_sub(b_q, q)) && rat_eq(
            post_n,
            rat_add(b_n, rat_mul(q, avg)),
        ),
{
    let m = rat_mul(q, avg);
    crate::rational::lemma_mul_wf(q, avg);
    crate::rational::lemma_mul_wf(b_n, n);
    crate::rational::lemma_mul_wf(b_n, m);
    if side == OrderSide::Buy {
        crate::rational::lemma_mul_wf(b_q, q);
        crate::rational::lemma_norm_eq(rat_add(b_q, q));
        crate::rational::lemma_add_neg_is_sub(b_n, n);
        crate::rational::lemma_add_neg_is_sub(b_n, m);
        crate::rational::lemma_norm_eq(rat_sub(b_n, n));
        crate::rational::lemma_neg_cong(n, m);
        crate::rational::lemma_add_cong(b_n, b_n, rat_neg(n), rat_neg(m));
        crate::rational::lemma_rat_eq_trans(post_n, rat_sub(b_n, n), rat_sub(b_n, m));
    } else {
        crate::rational::lemma_mul_wf(b_q, q);
        crate::rational::lemma_add_neg_is_sub(b_q, q);
        crate::rational::lemma_norm_eq(rat_sub(b_q, q));
        crate::rational::lemma_norm_eq(rat_add(b_n, n));
        crate::rational::lemma_add_cong(b_n, b_n, n, m);
        crate::rational::lemma_rat_eq_trans(post_n, rat_add(b_n, n), rat_add(b_n, m));
    }
}

/// For a pair whose two legs differ, a fill moves exactly two
/// balances, and by exactly the settled amounts: a buy raises the
/// quantity-asset balance by the filled quantity `q` and lowers the
/// notional-asset balance by `q` times the average fill price; a sell
/// does the opposite; every other balance is untouched.  `bal` is the
/// balance table before the fill and `fill_bal(bal, ...)` the one
/// after, exactly as the contracts of `place_order` and
/// `set_notional_per_unit` state them.
pub proof fn lemma_fill_balance_movement(
    bal: spec_fn(Seq<char>) -> Rat,
    pair: AssetPair,
    side: OrderSide,
    q: Rat,
    n: Rat,
    avg: Rat,
)
    requires
        pair.quantity_asset@ != pair.notional_asset@,
        rat_wf(bal(pair.quantity_asset@)),
        rat_wf(bal(pair.notional_asset@)),
        rat_wf(q),
        rat_wf(n),
        rat_wf(avg),
        q.n != 0,
        rat_eq(avg, rat_div(n, q)),
    ensures
        ({
            let f = fill_bal(bal, pair, side, q, n);
            let qa = pair.quantity_asset@;
            let na = pair.notional_asset@;
            &&& (side == OrderSide::Buy ==> rat_eq(f(qa), rat_add(bal(qa), q)) && rat_eq(
                f(na),
                rat_sub(bal(na), rat_mul(q, avg)),
            ))
            &&& (side == OrderSide::Sell ==> rat_eq(f(qa), rat_sub(bal(qa), q)) && rat_eq(
                f(na),
                rat_add(bal(na), rat_mul(q, avg)),
            ))
            &&& (forall|k: Seq<char>| k != qa && k != na ==> #[trigger] f(k) == bal(k))
        }),
{
    crate::rational::lemma_fill_notional(q, n, avg);
    let qa = pair.quantity_asset@;
    let na = pair.notional_asset@;
    let f = fill_bal(bal, pair, side, q, n);
    if side == OrderSide::Buy {
        assert(f(qa) == rat_norm(rat_add(bal(qa), q)));
        assert(f(na) == rat_norm(rat_add(bal(na), rat_neg(n))));
    } else {
        assert(f(qa) == rat_norm(rat_add(bal(qa), rat_neg(q))));
        assert(f(na) == rat_norm(rat_add(bal(na), n)));
    }
    lemma_fill_settles_balances(bal(qa), bal(na), q, n, avg, f(qa), f(na), side);
}

/// Reserving buying power for an order a broker accepted never drives
/// it negative: when the reservation `needed` was covered, the stored
/// remainder `b - needed` stays at or above zero.
pub proof fn lemma_reservation_nonnegative(bp0: Rat, needed: Rat, post: Rat)
    requires
        rat_wf(bp0),
        rat_wf(needed),
        rat_le(needed, bp0),
        post == rat_norm(rat_add(bp0, rat_neg(needed))),
    ensures
        rat_wf(post),
        rat_le(rat_int(0), post),
{
    crate::rational::lemma_mul_wf(bp0, needed);
    crate::rational::lemma_add_neg_is_sub(bp0, needed);
    crate::rational::lemma_norm_eq(rat_sub(bp0, needed));
    crate::rational::lemma_zero_le_sub(bp0, needed);
    crate::rational::lemma_le_zero_cong(post, rat_sub(bp0, needed));
}

/// Accepting an order never drives buying power negative, for orders
/// of nonnegative size: starting from a wholly nonnegative table, the
/// reservation the broker checked for, the quantity a fill releases,
/// and the limit refund (the reservation covers the actual cost
/// whenever a buy fills within its limit) each keep every entry at or
/// above zero.  `upd_fn(bp0, ra, -needed)` and `fill_bp` are exactly
/// the buying-power tables `place_order_post` ensures.  An order of
/// negative size is the named exception: the venue model admits it,
/// and it can spend power the reservation check never covered.
pub proof fn lemma_accepted_order_keeps_buying_power_nonnegative(
    bp0: spec_fn(Seq<char>) -> Rat,
    pair: AssetPair,
    side: OrderSide,
    has_limit: bool,
    fill: bool,
    needed: Rat,
    q: Rat,
    n: Rat,
)
    requires
        forall|k: Seq<char>| rat_wf(#[trigger] bp0(k)) && rat_le(rat_int(0), bp0(k)),
        rat_wf(needed),
        rat_wf(q),
        rat_wf(n),
        rat_le(rat_int(0), q),
        rat_le(rat_int(0), n),
        rat_le(
            needed,
            bp0(
                if side == OrderSide::Buy {
                    pair.notional_asset@
                } else {
                    pair.quantity_asset@
                },
            ),
        ),
        side == OrderSide::Buy && has_limit && fill ==> rat_le(n, needed),
    ensures
        ({
            let ra = if side == OrderSide::Buy {
                pair.notional_asset@
            } else {
                pair.quantity_asset@
            };
            let bp1 = upd_fn(bp0, ra, rat_neg(needed));
            let bpf = if fill {
                fill_bp(bp1, pair, side, has_limit, needed, q, n)
            } else {
                bp1
            };
            forall|k: Seq<char>| rat_le(rat_int(0), #[trigger] bpf(k))
        }),
{
    let qa = pair.quantity_asset@;
    let na = pair.notional_asset@;
    let ra = if side == OrderSide::Buy {
        na
    } else {
        qa
    };
    let bp1 = upd_fn(bp0, ra, rat_neg(needed));
    crate::rational::lemma_add_neg_is_sub(bp0(ra), needed);
    crate::rational::lemma_norm_sub_nonneg(bp0(ra), needed);
    assert forall|k: Seq<char>| rat_wf(#[trigger] bp1(k)) && rat_le(rat_int(0), bp1(k)) by {}
    if fill {
        if side == OrderSide::Buy {
            let p1 = upd_fn(bp1, qa, q);
            crate::rational::lemma_norm_add_nonneg(bp1(qa), q);
            assert forall|k: Seq<char>| rat_wf(#[trigger] p1(k)) && rat_le(rat_int(0), p1(k)) by {}
            if has_limit {
                let rf = rat_norm(rat_sub(needed, n));
                crate::rational::lemma_norm_sub_nonneg(needed, n);
                crate::rational::lemma_norm_add_nonneg(p1(na), rf);
                let p2 = upd_fn(p1, na, rf);
                assert forall|k: Seq<char>| rat_le(rat_int(0), #[trigger] p2(k)) by {}
            }
        } else {
            crate::rational::lemma_norm_add_nonneg(bp1(na), n);
            let p1 = upd_fn(bp1, na, n);
            assert forall|k: Seq<char>| rat_le(rat_int(0), #[trigger] p1(k)) by {}
        }
    }
}

/// A limit buy that fills immediately nets out to paying the actual
/// cost: reserving the worst case `needed` and then refunding
/// `needed - n` leaves the notional buying power at `b - n`, as if
/// only the notional `n` had ever been taken.
pub proof fn lemma_limit_buy_excess_returned(bp0: Rat, needed: Rat, n: Rat, v1: Rat, rf: Rat, v2: Rat)
    requires
        rat_wf(bp0),
        rat_wf(needed),
        rat_wf(n),
        v1 == rat_norm(rat_add(bp0, rat_neg(needed))),
        rf == rat_norm(rat_sub(needed, n)),
        v2 == rat_norm(rat_add(v1, rf)),
    ensures
        rat_wf(v2),
        rat_eq(v2, rat_sub(bp0, n)),
{
    crate::rational::lemma_mul_wf(bp0, needed);
    crate::rational::lemma_mul_wf(needed, n);
    crate::rational::lemma_add_neg_is_sub(bp0, needed);
    crate::rational::lemma_norm_eq(rat_sub(bp0, needed));
    crate::rational::lemma_norm_eq(rat_sub(needed, n));
    crate::rational::lemma_mul_wf(v1, rf);
    crate::rational::lemma_norm_eq(rat_add(v1, rf));
    crate::rational::lemma_reservation_refund(bp0, needed, n, v1, rf, v2);
}

/// A market order settles like one atomic transfer at the price in
/// effect at placement: an accepted market order fills in the same
/// call, at that price, moving the quantity leg by exactly the
/// computed quantity and the notional leg inversely by that quantity
/// times that price, touching no other balance, and the recorded
/// average fill price equals that price.  A pair with two equal legs
/// is the named exception: its two movements land on one entry.
pub proof fn lemma_market_order_atomic_transfer(
    pre: SimulatedBroker,
    req: OrderRequest,
    id: String,
    post: SimulatedBroker,
)
    requires
        place_order_post(pre, req, Ok(id), post),
        req.limit_price is None,
        req.asset_pair.quantity_asset@ != req.asset_pair.notional_asset@,
        req.amount.wf(),
        pre.price_of((req.asset_pair.quantity_asset@, req.asset_pair.notional_asset@))
            matches Some(p) ==> p.wf(),
        rat_wf(pre.balance_of(req.asset_pair.quantity_asset@)),
        rat_wf(pre.balance_of(req.asset_pair.notional_asset@)),
    ensures
        ({
            let qa = req.asset_pair.quantity_asset@;
            let na = req.asset_pair.notional_asset@;
            let cur = pre.price_of((qa, na)).unwrap()@;
            let q = quantity_rep(req.amount, cur);
            &&& pre.price_of((qa, na)) is Some
            &&& (post.order_of(id@) matches Some(o) && o.status == OrderStatus::Filled
                && o.filled_quantity@ == q && (o.average_fill_price matches Some(a) && rat_eq(
                a@,
                cur,
            )))
            &&& (req.side == OrderSide::Buy ==> rat_eq(
                post.balance_of(qa),
                rat_add(pre.balance_of(qa), q),
            ) && rat_eq(post.balance_of(na), rat_sub(pre.balance_of(na), rat_mul(q, cur))))
            &&& (req.side == OrderSide::Sell ==> rat_eq(
                post.balance_of(qa),
                rat_sub(pre.balance_of(qa), q),
            ) && rat_eq(post.balance_of(na), rat_add(pre.balance_of(na), rat_mul(q, cur))))
            &&& (forall|k: Seq<char>|
                k != qa && k != na ==> #[trigger] post.balance_of(k) == pre.balance_of(k))
        }),
{
    let qa = req.asset_pair.quantity_asset@;
    let na = req.asset_pair.notional_asset@;
    assert(pre.is_notional(na));
    assert(pre.price_of((qa, na)) is Some);
    let cur = pre.price_of((qa, na)).unwrap()@;
    let q = quantity_rep(req.amount, cur);
    let n = notional_rep(req.amount, cur);
    assert(q.n != 0);
    match req.amount {
        Amount::Quantity { quantity: q0 } => {
            crate::rational::lemma_mul_wf(q0@, cur);
            crate::rational::lemma_norm_eq(rat_mul(q0@, cur));
        },
        Amount::Notional { notional: n0 } => {
            crate::rational::lemma_div_wf(n0@, cur);
            crate::rational::lemma_norm_eq(rat_div(n0@, cur));
        },
    }
    let bal0 = |k: Seq<char>| pre.balance_of(k);
    lemma_fill_settles_balances(
        pre.balance_of(qa),
        pre.balance_of(na),
        q,
        n,
        cur,
        fill_bal(bal0, req.asset_pair, req.side, q, n)(qa),
        fill_bal(bal0, req.asset_pair, req.side, q, n)(na),
        req.side,
    );
}

/// Relies on `uuid::Uuid::new_v4` and its `Display` impl: a fresh
/// random v4 UUID, rendered in the 36-character hyphenated form.
/// Nothing is assumed about which id comes back.
#[verifier::external_body]
fn generate_order_id() -> (r: String)
    ensures
        r@.len() == 36,
{
    uuid::Uuid::new_v4().to_string()
}

/// Builds a [`SimulatedBroker`] around one settlement currency, with
/// optional extra notional assets and starting balances.
pub struct SimulatedBrokerBuilder {
    currency: String,
    notional_assets: Vec<String>,
    balances: Ledger,
}

impl SimulatedBrokerBuilder {
    pub closed spec fn wf(&self) -> bool {
        &&& self.balances.wf()
        &&& contains_str(self.notional_assets@, self.currency@)
    }

    pub closed spec fn currency_of(&self) -> Seq<char> {
        self.currency@
    }

    pub closed spec fn has_notional(&self, a: Seq<char>) -> bool {
        contains_str(self.notional_assets@, a)
    }

    pub closed spec fn balance_val(&self, k: Seq<char>) -> Rat {
        self.balances.val(k)
    }

    /// A builder whose only notional asset is the currency itself,
    /// with a zero starting balance.
    pub fn new(currency: &str) -> (r: SimulatedBrokerBuilder)
        ensures
            r.wf(),
            r.currency_of() == currency@,
            forall|a: Seq<char>| #[trigger] r.has_notional(a) <==> a == currency@,
            forall|k: Seq<char>| #[trigger] r.balance_val(k) == rat_int(0),
    {
        let currency = String::from_str(currency);
        let mut notional_assets: Vec<String> = Vec::new();
        notional_assets.push(currency.clone());
        let mut balances = Ledger::new();
        balances.set(currency.as_str(), Rational::zero());
        let r = SimulatedBrokerBuilder { currency, notional_assets, balances };
        proof {
            assert(r.notional_assets@[0]@ == r.currency@);
            assert forall|a: Seq<char>| #[trigger] r.has_notional(a) <==> a == currency@ by {
                if a == currency@ {
                    assert(r.notional_assets@[0]@ == a);
                }
            }
        }
        r
    }

    /// Sets the starting balance of the settlement currency.
    pub fn set_balance(self, balance: Rational) -> (r: SimulatedBrokerBuilder)
        requires
            self.wf(),
            balance.wf(),
        ensures
            r.wf(),
            r.currency_of() == self.currency_of(),
            forall|a: Seq<char>| #[trigger] r.has_notional(a) == self.has_notional(a),
            r.balance_val(self.currency_of()) == balance@,
            forall|k: Seq<char>|
                k != self.currency_of() ==> #[trigger] r.balance_val(k) == self.balance_val(k),
    {
        let mut b = self;
        let currency = b.currency.clone();
        b.balances.set(currency.as_str(), balance);
        b
    }

    /// Permits one more notional asset, optionally with a starting
    /// balance.
    pub fn add_notional_asset(self, notional_asset: &str, balance: Option<Rational>) -> (r:
        SimulatedBrokerBuilder)
        requires
            self.wf(),
            balance matches Some(b) ==> b.wf(),
        ensures
            r.wf(),
            r.currency_of() == self.currency_of(),
            forall|a: Seq<char>|
                #[trigger] r.has_notional(a) <==> (self.has_notional(a) || a == notional_asset@),
            balance matches Some(b) ==> r.balance_val(notional_asset@) == b@ && (forall|
                k: Seq<char>,
            |
                k != notional_asset@ ==> #[trigger] r.balance_val(k) == self.balance_val(k)),
            balance is None ==> forall|k: Seq<char>|
                #[trigger] r.balance_val(k) == self.balance_val(k),
    {
        let mut b = self;
        b.notional_assets.push(String::from_str(notional_asset));
        match balance {
            Some(v) => {
                b.balances.set(notional_asset, v);
            },
            None => {},
        }
        proof {
            let last = b.notional_assets@.len() - 1;
            assert forall|a: Seq<char>| #[trigger]
                contains_str(b.notional_assets@, a) <==> (contains_str(self.notional_assets@, a)
                    || a == notional_asset@) by {
                if contains_str(self.notional_assets@, a) {
                    let j = choose|j: int|
                        0 <= j < self.notional_assets@.len() && (#[trigger] self.notional_assets@[j])@
                            == a;
                    assert(b.notional_assets@[j]@ == a);
                }
                if a == notional_asset@ {
                    assert(b.notional_assets@[last]@ == a);
                }
                if contains_str(b.notional_assets@, a) {
                    let j = choose|j: int|
                        0 <= j < b.notional_assets@.len() && (#[trigger] b.notional_assets@[j])@
                            == a;
                    if j < last {
                        assert(self.notional_assets@[j]@ == a);
                    }
                }
            }
        }
        b
    }

    /// The broker: buying power seeded equal to the balances.
    pub fn build(&self) -> (r: SimulatedBroker)
        requires
            self.wf(),
        ensures
            r.wf(),
            r.currency_of() == self.currency_of(),
            forall|a: Seq<char>| #[trigger] r.is_notional(a) == self.has_notional(a),
            forall|k: Seq<char>| #[trigger] r.balance_of(k) == self.balance_val(k),
            forall|k: Seq<char>| #[trigger] r.buying_power_of(k) == self.balance_val(k),
            forall|id: Seq<char>| #[trigger] r.order_of(id) is None,
            r.orders_model().len() == 0,
            forall|k2: (Seq<char>, Seq<char>)| #[trigger] r.price_of(k2) is None,
    {
        let mut notional_assets: Vec<String> = Vec::new();
        let n = self.notional_assets.len();
        let mut i: usize = 0;
        while i < n
            invariant
                0 <= i <= n,
                n == self.notional_assets@.len(),
                notional_assets@.len() == i,
                forall|j: int| 0 <= j < i ==> notional_assets@[j] == self.notional_assets@[j],
            decreases n - i,
        {
            notional_assets.push(self.notional_assets[i].clone());
            i = i + 1;
        }
        proof {
            assert(notional_assets@ =~= self.notional_assets@);
        }
        let balances = self.balances.duplicate();
        match SimulatedBroker::new(self.currency.as_str(), notional_assets, balances) {
            Ok(b) => b,
            Err(_) => {
                proof {
                    assert(false);
                }
                unreached()
            },
        }
    }
}

} // verus!
