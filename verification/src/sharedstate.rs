//! The orders and trades, for all parts of the program.

use vstd::prelude::*;

use crate::binary64::Binary64;
use crate::oms;
use crate::oms::{names, Order};
use crate::orderhandler::Trade;
use crate::seqs;
use crate::string_map;
use crate::string_map::StringMap;

verus! {

pub struct SharedState {
    pub orders: StringMap<Order>,
    pub trades: Vec<Trade>,
}

/// The entries after a report on an order. One without an id is dropped.
pub open spec fn reported(orders: Seq<(String, Order)>, order: Order) -> Seq<(String, Order)> {
    match order.order_id {
        Some(id) => string_map::stored(orders, id, order),
        None => orders,
    }
}

/// The test for an open order of this instrument.
pub open spec fn rests_in(instrument: Seq<char>) -> spec_fn(Order) -> bool {
    |order: Order|
        oms::named(order.instrument_name, instrument) && oms::named(order.order_state, "open"@)
}

/// Whether a part of an order is filled, but not all of it.
pub open spec fn partly_filled(order: Order) -> bool {
    &&& order.filled_amount is Some
    &&& order.amount is Some
    &&& Binary64::zero_spec().lt_spec(order.filled_amount->0)
    &&& order.filled_amount->0.lt_spec(order.amount->0)
}

/// The test for a partly filled order of this instrument.
pub open spec fn partly_filled_in(instrument: Seq<char>) -> spec_fn(Order) -> bool {
    |order: Order| oms::named(order.instrument_name, instrument) && partly_filled(order)
}

fn is_partly_filled(order: &Order) -> (r: bool)
    ensures
        r == partly_filled(*order),
{
    match (order.filled_amount, order.amount) {
        (Some(filled), Some(amount)) => filled.gt(Binary64::zero()) && filled.lt(amount),
        _ => false,
    }
}

impl SharedState {
    pub open spec fn wf(&self) -> bool {
        self.orders.wf()
    }

    pub fn new() -> (r: Self)
        ensures
            r.wf(),
            r.orders.listing() == Seq::<(String, Order)>::empty(),
            r.trades@ == Seq::<Trade>::empty(),
    {
        SharedState { orders: StringMap::new(), trades: Vec::new() }
    }

    pub fn add_or_update_order(&mut self, order: Order)
        requires
            old(self).wf(),
        ensures
            final(self).wf(),
            final(self).orders.listing() == reported(old(self).orders.listing(), order),
            final(self).orders@ == (match order.order_id {
                Some(id) => old(self).orders@.insert(id@, order),
                None => old(self).orders@,
            }),
            final(self).trades == old(self).trades,
    {
        let id = order.order_id.clone();
        if let Some(order_id) = id {
            let _ = self.orders.insert(order_id, order);
        }
    }

    pub fn add_trade(&mut self, trade: Trade)
        requires
            old(self).wf(),
        ensures
            final(self).wf(),
            final(self).trades@ == old(self).trades@.push(trade),
            final(self).orders == old(self).orders,
    {
        self.trades.push(trade);
    }

    /// The open orders of an instrument.
    pub fn get_open_orders(&self, instrument_name: &str) -> (r: Vec<Order>)
        ensures
            r@ == string_map::values_of(self.orders.listing()).filter(rests_in(instrument_name@)),
            self.wf() ==> forall|order: Order| #[trigger]
                r@.contains(order) <==> self.orders@.contains_value(order) && order.order_state is Some
                    && order.order_state->0@ == "open"@ && order.instrument_name is Some
                    && order.instrument_name->0@ == instrument_name@,
    {
        let ghost all = string_map::values_of(self.orders.listing());
        let ghost wanted = rests_in(instrument_name@);
        let n: usize = self.orders.len();
        let mut r: Vec<Order> = Vec::new();
        proof {
            seqs::lemma_filter_none(all, wanted);
        }
        for i in 0..n
            invariant
                n == self.orders.listing().len(),
                all == string_map::values_of(self.orders.listing()),
                wanted == rests_in(instrument_name@),
                r@ == all.take(i as int).filter(wanted),
        {
            let order = &self.orders.entry(i).1;
            proof {
                seqs::lemma_filter_step(all, wanted, i as int);
            }
            if names(&order.instrument_name, instrument_name) && names(&order.order_state, "open") {
                r.push(order.clone());
            }
        }
        assert(all.take(n as int) == all);
        proof {
            if self.wf() {
                assert forall|order: Order| #[trigger]
                    r@.contains(order) <==> self.orders@.contains_value(order)
                        && order.order_state is Some && order.order_state->0@ == "open"@
                        && order.instrument_name is Some && order.instrument_name->0@
                        == instrument_name@ by {
                    oms::lemma_listed_values(self.orders.listing(), order);
                    seqs::lemma_filter_members(all, wanted, order);
                }
            }
        }
        r
    }

    /// The partly filled orders of an instrument.
    pub fn get_partially_filled_orders(&self, instrument_name: &str) -> (r: Vec<Order>)
        ensures
            r@ == string_map::values_of(self.orders.listing()).filter(
                partly_filled_in(instrument_name@),
            ),
            self.wf() ==> forall|order: Order| #[trigger]
                r@.contains(order) <==> self.orders@.contains_value(order) && partly_filled(order)
                    && order.instrument_name is Some && order.instrument_name->0@
                    == instrument_name@,
    {
        let ghost all = string_map::values_of(self.orders.listing());
        let ghost wanted = partly_filled_in(instrument_name@);
        let n: usize = self.orders.len();
        let mut r: Vec<Order> = Vec::new();
        proof {
            seqs::lemma_filter_none(all, wanted);
        }
        for i in 0..n
            invariant
                n == self.orders.listing().len(),
                all == string_map::values_of(self.orders.listing()),
                wanted == partly_filled_in(instrument_name@),
                r@ == all.take(i as int).filter(wanted),
        {
            let order = &self.orders.entry(i).1;
            proof {
                seqs::lemma_filter_step(all, wanted, i as int);
            }
            if names(&order.instrument_name, instrument_name) && is_partly_filled(order) {
                r.push(order.clone());
            }
        }
        assert(all.take(n as int) == all);
        proof {
            if self.wf() {
                assert forall|order: Order| #[trigger]
                    r@.contains(order) <==> self.orders@.contains_value(order) && partly_filled(order)
                        && order.instrument_name is Some && order.instrument_name->0@
                        == instrument_name@ by {
                    oms::lemma_listed_values(self.orders.listing(), order);
                    seqs::lemma_filter_members(all, wanted, order);
                }
            }
        }
        r
    }

    pub fn get_order(&self, order_id: &str) -> (r: Option<Order>)
        requires
            self.wf(),
        ensures
            r == (if self.orders@.dom().contains(order_id@) {
                Some(self.orders@[order_id@])
            } else {
                None
            }),
    {
        match self.orders.get(order_id) {
            Some(order) => Some(order.clone()),
            None => None,
        }
    }

    pub fn get_all_orders(&self) -> (r: Vec<Order>)
        ensures
            r@ == string_map::values_of(self.orders.listing()),
            self.wf() ==> forall|order: Order| #[trigger]
                r@.contains(order) <==> self.orders@.contains_value(order),
    {
        let ghost all = string_map::values_of(self.orders.listing());
        let n: usize = self.orders.len();
        let mut r: Vec<Order> = Vec::new();
        for i in 0..n
            invariant
                n == self.orders.listing().len(),
                all == string_map::values_of(self.orders.listing()),
                r@ =~= all.take(i as int),
        {
            r.push(self.orders.entry(i).1.clone());
        }
        assert(all.take(n as int) == all);
        proof {
            if self.wf() {
                assert forall|order: Order| #[trigger]
                    r@.contains(order) <==> self.orders@.contains_value(order) by {
                    oms::lemma_listed_values(self.orders.listing(), order);
                }
            }
        }
        r
    }

    pub fn get_all_trades(&self) -> (r: Vec<Trade>)
        ensures
            r@ == self.trades@,
    {
        let n: usize = self.trades.len();
        let mut r: Vec<Trade> = Vec::new();
        for i in 0..n
            invariant
                n == self.trades@.len(),
                r@ =~= self.trades@.take(i as int),
        {
            r.push(self.trades[i].clone());
        }
        assert(self.trades@.take(n as int) == self.trades@);
        r
    }
}

/// A report on an order is what is found under its id from then on, and nothing is found
/// otherwise under another id. One without an id changes nothing.
pub proof fn law_reported_order_is_found(
    orders: Seq<(String, Order)>,
    order: Order,
    other: Seq<char>,
)
    requires
        string_map::distinct_keys(orders),
    ensures
        string_map::distinct_keys(reported(orders, order)),
        match order.order_id {
            Some(id) => {
                let before = string_map::as_map(orders);
                let after = string_map::as_map(reported(orders, order));
                &&& after.dom().contains(id@) && after[id@] == order
                &&& other != id@ ==> after.dom().contains(other) == before.dom().contains(other)
                &&& other != id@ && before.dom().contains(other) ==> after[other] == before[other]
            },
            None => reported(orders, order) == orders,
        },
{
    if let Some(id) = order.order_id {
        string_map::lemma_stored(orders, id, order);
    }
}

/// An order is partly filled where its amount and what is filled of it are known, and that is above
/// zero and below the amount.
pub proof fn law_partly_filled(order: Order)
    ensures
        partly_filled(order) ==> order.filled_amount is Some && order.amount is Some,
        order.filled_amount is Some && order.amount is Some ==> (partly_filled(order) <==> 0
            < order.filled_amount->0.bits <= 0x7ff0_0000_0000_0000
            && order.filled_amount->0.lt_spec(order.amount->0)),
{
}

/// The lists of orders, order by order: an open order of an instrument is one of that name whose
/// `order_state` is `open`, and a partly filled one is one of that name that is partly filled.
pub proof fn law_lists(orders: Seq<Order>, order: Order, instrument: Seq<char>)
    ensures
        orders.push(order).filter(rests_in(instrument)) == (if order.order_state is Some
            && order.order_state->0@ == "open"@ && order.instrument_name is Some
            && order.instrument_name->0@ == instrument {
            orders.filter(rests_in(instrument)).push(order)
        } else {
            orders.filter(rests_in(instrument))
        }),
        orders.push(order).filter(partly_filled_in(instrument)) == (if partly_filled(order)
            && order.instrument_name is Some && order.instrument_name->0@ == instrument {
            orders.filter(partly_filled_in(instrument)).push(order)
        } else {
            orders.filter(partly_filled_in(instrument))
        }),
{
    reveal_with_fuel(Seq::filter, 2);
    assert(orders.push(order).drop_last() =~= orders);
}

} // verus!
