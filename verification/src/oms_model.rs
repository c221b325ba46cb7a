//! The order management system as mathematics: its state, what one order update does to it, and
//! the invariant that ties its indexes together.

use vstd::prelude::*;

use crate::binary64::Binary64;
use crate::ladder;
use crate::ladder::PriceKey;
use crate::oms::{Order, OrderState};
use crate::orderhandler::Trade;
use crate::seqs;

verus! {

/// Price levels, each with the ids of the orders that rest there, the oldest first.
pub type Levels = Seq<(Binary64, Seq<Seq<char>>)>;

/// What is kept of an order for quick access.
pub struct InfoModel {
    pub price: Binary64,
    pub amount: Binary64,
    pub filled_amount: Binary64,
    pub direction: Seq<char>,
    pub state: Seq<char>,
    pub timestamp: u64,
    pub instrument_name: Seq<char>,
}

/// The state of the order management system.
#[verifier::ext_equal]
pub struct OmsModel {
    /// The last report of each order, by order id.
    pub orders: Map<Seq<char>, Order>,
    /// What is kept of each order.
    pub info: Map<Seq<char>, InfoModel>,
    /// The ids of the orders in each state, the latest report last.
    pub by_state: Map<OrderState, Seq<Seq<char>>>,
    /// The last buy report of each order that ever was a buy order.
    pub buys: Map<Seq<char>, InfoModel>,
    /// The last sell report of each order that ever was a sell order.
    pub sells: Map<Seq<char>, InfoModel>,
    pub bids: Levels,
    pub asks: Levels,
    pub trades: Seq<Trade>,
}

/// A message to the market maker.
pub enum UpdateModel {
    OrderFilled(Seq<char>),
    OrderPartiallyFilled(Seq<char>),
    NewTrade(Trade),
    OrderStateChanged(Seq<char>, OrderState),
}

pub open spec fn text_or_empty(text: Option<String>) -> Seq<char> {
    match text {
        Some(t) => t@,
        None => Seq::empty(),
    }
}

pub open spec fn number_or_zero(number: Option<Binary64>) -> Binary64 {
    match number {
        Some(n) => n,
        None => Binary64::zero_spec(),
    }
}

/// The state text that counts: `order_state`, or `state` where that is missing.
pub open spec fn state_text(order: Order) -> Seq<char> {
    match order.order_state {
        Some(t) => t@,
        None => order.state@,
    }
}

/// The state that a state text names. Every text that names no final state means open.
pub open spec fn state_named(text: Seq<char>) -> OrderState {
    if text == "filled"@ {
        OrderState::Filled
    } else if text == "cancelled"@ {
        OrderState::Canceled
    } else if text == "rejected"@ {
        OrderState::Rejected
    } else if text == "expired"@ {
        OrderState::Expired
    } else {
        OrderState::Open
    }
}

/// What is kept of this order.
pub open spec fn info_of(order: Order) -> InfoModel {
    InfoModel {
        price: number_or_zero(order.price),
        amount: number_or_zero(order.amount),
        filled_amount: number_or_zero(order.filled_amount),
        direction: text_or_empty(order.direction),
        state: state_text(order),
        timestamp: match order.creation_timestamp {
            Some(t) => t,
            None => 0,
        },
        instrument_name: text_or_empty(order.instrument_name),
    }
}

/// The levels after this id left the level at `price`.
pub open spec fn withdrawn(levels: Levels, price: Binary64, id: Seq<char>) -> Levels {
    let i = ladder::slot(levels, price.rank());
    if ladder::has_rank(levels, price.rank()) {
        levels.update(i, (levels[i].0, seqs::without(levels[i].1, id)))
    } else {
        levels
    }
}

/// The levels after this id joined the level at `price`, as the last one.
pub open spec fn listed(levels: Levels, price: Binary64, id: Seq<char>) -> Levels {
    let i = ladder::slot(levels, price.rank());
    if ladder::has_rank(levels, price.rank()) {
        levels.update(i, (levels[i].0, levels[i].1.push(id)))
    } else {
        levels.insert(i, (price, seq![id]))
    }
}

/// The levels that hold an order.
pub open spec fn tidied(levels: Levels) -> Levels {
    levels.filter(|level: (Binary64, Seq<Seq<char>>)| level.1.len() > 0)
}

/// One side's levels after a report in `state`: the order leaves the level of its last report on
/// this side, and joins that of the new one if it is an open order of this side.
pub open spec fn side_after(
    levels: Levels,
    known: Map<Seq<char>, InfoModel>,
    id: Seq<char>,
    info: InfoModel,
    state: OrderState,
    side: Seq<char>,
) -> Levels {
    let cleared = if known.dom().contains(id) {
        withdrawn(levels, known[id].price, id)
    } else {
        levels
    };
    let relisted = if info.direction == side && state is Open {
        listed(cleared, info.price, id)
    } else {
        cleared
    };
    tidied(relisted)
}

/// One side's reports after a report.
pub open spec fn known_after(
    known: Map<Seq<char>, InfoModel>,
    id: Seq<char>,
    info: InfoModel,
    side: Seq<char>,
) -> Map<Seq<char>, InfoModel> {
    if info.direction == side {
        known.insert(id, info)
    } else {
        known
    }
}

/// The ids by state after an order was reported in `state`.
pub open spec fn by_state_after(
    by_state: Map<OrderState, Seq<Seq<char>>>,
    id: Seq<char>,
    state: OrderState,
) -> Map<OrderState, Seq<Seq<char>>> {
    Map::new(
        |s: OrderState| true,
        |s: OrderState|
            if s == state {
                seqs::without(by_state[s], id).push(id)
            } else {
                seqs::without(by_state[s], id)
            },
    )
}

/// The state after a report. One without an order id changes nothing.
pub open spec fn after_order(m: OmsModel, order: Order) -> OmsModel {
    match order.order_id {
        None => m,
        Some(key) => {
            let id = key@;
            let info = info_of(order);
            let state = state_named(info.state);
            OmsModel {
                orders: m.orders.insert(id, order),
                info: m.info.insert(id, info),
                by_state: by_state_after(m.by_state, id, state),
                buys: known_after(m.buys, id, info, "buy"@),
                sells: known_after(m.sells, id, info, "sell"@),
                bids: side_after(m.bids, m.buys, id, info, state, "buy"@),
                asks: side_after(m.asks, m.sells, id, info, state, "sell"@),
                trades: m.trades,
            }
        },
    }
}

/// Whether both amounts are known and the second is greater.
pub open spec fn fill_grew(before: Option<Binary64>, after: Option<Binary64>) -> bool {
    match (before, after) {
        (Some(b), Some(a)) => b.lt_spec(a),
        _ => false,
    }
}

/// The filled amount of the last report of this order.
pub open spec fn last_filled(m: OmsModel, id: Seq<char>) -> Option<Binary64> {
    if m.orders.dom().contains(id) {
        m.orders[id].filled_amount
    } else {
        None
    }
}

/// What the market maker is told about a report: a fill, or else a fill that grew, and then the
/// state.
pub open spec fn updates_of(m: OmsModel, order: Order) -> Seq<UpdateModel> {
    match order.order_id {
        None => Seq::empty(),
        Some(key) => {
            let changed = UpdateModel::OrderStateChanged(key@, state_named(state_text(order)));
            if order.state@ == "filled"@ {
                seq![UpdateModel::OrderFilled(key@), changed]
            } else if fill_grew(last_filled(m, key@), order.filled_amount) {
                seq![UpdateModel::OrderPartiallyFilled(key@), changed]
            } else {
                seq![changed]
            }
        },
    }
}

/// The state after a trade.
pub open spec fn after_trade(m: OmsModel, trade: Trade) -> OmsModel {
    OmsModel { trades: m.trades.push(trade), ..m }
}

/// The state after reports that came one after the other.
pub open spec fn after_orders(m: OmsModel, orders: Seq<Order>) -> OmsModel
    decreases orders.len(),
{
    if orders.len() == 0 {
        m
    } else {
        after_order(after_orders(m, orders.drop_last()), orders.last())
    }
}

/// What the market maker is told about reports that came one after the other.
pub open spec fn updates_of_all(m: OmsModel, orders: Seq<Order>) -> Seq<UpdateModel>
    decreases orders.len(),
{
    if orders.len() == 0 {
        Seq::empty()
    } else {
        updates_of_all(m, orders.drop_last()) + updates_of(
            after_orders(m, orders.drop_last()),
            orders.last(),
        )
    }
}

/// What the market maker is told once more about a report that the exchange pushed.
pub open spec fn pushed_updates(order: Order) -> Seq<UpdateModel> {
    let id = text_or_empty(order.order_id);
    if order.state@ == "filled"@ {
        seq![UpdateModel::OrderFilled(id)]
    } else if order.state@ == "partially_filled"@ {
        seq![UpdateModel::OrderPartiallyFilled(id)]
    } else {
        Seq::empty()
    }
}

/// The state before anything was reported.
pub open spec fn empty_model() -> OmsModel {
    OmsModel {
        orders: Map::empty(),
        info: Map::empty(),
        by_state: Map::new(|s: OrderState| true, |s: OrderState| Seq::empty()),
        buys: Map::empty(),
        sells: Map::empty(),
        bids: Seq::empty(),
        asks: Seq::empty(),
        trades: Seq::empty(),
    }
}

/// Whether the level of this rank lists this id.
pub open spec fn lists(levels: Levels, rank: int, id: Seq<char>) -> bool {
    exists|i: int|
        0 <= i < levels.len() && (#[trigger] levels[i]).0.rank() == rank && levels[i].1.contains(id)
}

/// Whether the levels list exactly these ids, each once and at its own rank.
pub open spec fn lists_exactly(levels: Levels, wanted: Map<Seq<char>, int>) -> bool {
    &&& ladder::ascending(levels)
    &&& forall|i: int| 0 <= i < levels.len() ==> (#[trigger] levels[i]).1.no_duplicates()
    &&& forall|i: int, id: Seq<char>|
        0 <= i < levels.len() && #[trigger] levels[i].1.contains(id) ==> wanted.dom().contains(id)
            && wanted[id] == levels[i].0.rank()
    &&& forall|id: Seq<char>| #[trigger] wanted.dom().contains(id) ==> lists(levels, wanted[id], id)
}

/// The open orders of one side, with the rank of each one's price.
pub open spec fn open_on(info: Map<Seq<char>, InfoModel>, side: Seq<char>) -> Map<Seq<char>, int> {
    Map::new(
        |id: Seq<char>|
            info.dom().contains(id) && info[id].direction == side && state_named(
                info[id].state,
            ) is Open,
        |id: Seq<char>| info[id].price.rank(),
    )
}

/// One side is coherent: its levels list exactly its open orders, no level is empty, and the
/// side knows the last report of every order that now is on it.
pub open spec fn side_coherent(
    levels: Levels,
    known: Map<Seq<char>, InfoModel>,
    info: Map<Seq<char>, InfoModel>,
    side: Seq<char>,
) -> bool {
    &&& lists_exactly(levels, open_on(info, side))
    &&& forall|i: int| 0 <= i < levels.len() ==> (#[trigger] levels[i]).1.len() > 0
    &&& forall|id: Seq<char>| #[trigger]
        info.dom().contains(id) && info[id].direction == side ==> known.dom().contains(id)
            && known[id] == info[id]
    &&& forall|id: Seq<char>| #[trigger] known.dom().contains(id) ==> info.dom().contains(id)
}

/// Each order is listed once, under the state of its last report.
pub open spec fn states_coherent(
    by_state: Map<OrderState, Seq<Seq<char>>>,
    info: Map<Seq<char>, InfoModel>,
) -> bool {
    &&& forall|s: OrderState| #[trigger] by_state.dom().contains(s)
    &&& forall|s: OrderState| (#[trigger] by_state[s]).no_duplicates()
    &&& forall|s: OrderState, id: Seq<char>| #[trigger]
        by_state[s].contains(id) <==> info.dom().contains(id) && state_named(info[id].state) == s
}

/// The invariant of the order management system.
pub open spec fn coherent(m: OmsModel) -> bool {
    &&& m.orders.dom() == m.info.dom()
    &&& forall|id: Seq<char>| #[trigger]
        m.orders.dom().contains(id) ==> m.info[id] == info_of(m.orders[id])
    &&& states_coherent(m.by_state, m.info)
    &&& side_coherent(m.bids, m.buys, m.info, "buy"@)
    &&& side_coherent(m.asks, m.sells, m.info, "sell"@)
}

proof fn lemma_withdrawn(levels: Levels, wanted: Map<Seq<char>, int>, price: Binary64, id: Seq<char>)
    requires
        lists_exactly(levels, wanted),
        wanted.dom().contains(id) ==> wanted[id] == price.rank(),
    ensures
        lists_exactly(withdrawn(levels, price, id), wanted.remove(id)),
{
    let after = withdrawn(levels, price, id);
    let rank = price.rank();
    ladder::lemma_slot_exists(levels, rank);
    let at = ladder::slot(levels, rank);
    if ladder::has_rank(levels, rank) {
        seqs::lemma_without(levels[at].1, id);
        ladder::lemma_same_keys(levels, after);
        assert forall|i: int| 0 <= i < after.len() implies (
        #[trigger] after[i]).1.no_duplicates() by {
            assert(levels[i].1.no_duplicates());
        }
        assert forall|i: int, x: Seq<char>|
            0 <= i < after.len() && #[trigger] after[i].1.contains(x) implies wanted.remove(
            id,
        ).dom().contains(x) && wanted.remove(id)[x] == after[i].0.rank() by {
            assert(levels[i].1.contains(x));
            if x == id {
                assert(levels[i].0.rank() == rank);
                ladder::lemma_slot_of_level(levels, i);
            }
        }
        assert forall|x: Seq<char>| #[trigger] wanted.remove(id).dom().contains(x) implies lists(
            after,
            wanted.remove(id)[x],
            x,
        ) by {
            assert(wanted.dom().contains(x));
            let i = choose|i: int|
                0 <= i < levels.len() && (#[trigger] levels[i]).0.rank() == wanted[x]
                    && levels[i].1.contains(x);
            assert(after[i].0.rank() == wanted[x] && after[i].1.contains(x));
        }
    } else {
        assert(!wanted.dom().contains(id)) by {
            if wanted.dom().contains(id) {
                let i = choose|i: int|
                    0 <= i < levels.len() && (#[trigger] levels[i]).0.rank() == wanted[id]
                        && levels[i].1.contains(id);
                assert(levels[i].0.rank() == rank);
            }
        }
        assert(wanted.remove(id) =~= wanted);
    }
}

proof fn lemma_listed(levels: Levels, wanted: Map<Seq<char>, int>, price: Binary64, id: Seq<char>)
    requires
        lists_exactly(levels, wanted),
        !wanted.dom().contains(id),
    ensures
        lists_exactly(listed(levels, price, id), wanted.insert(id, price.rank())),
{
    let after = listed(levels, price, id);
    let rank = price.rank();
    let goal = wanted.insert(id, rank);
    ladder::lemma_slot_exists(levels, rank);
    let at = ladder::slot(levels, rank);
    if ladder::has_rank(levels, rank) {
        ladder::lemma_same_keys(levels, after);
        let ids = levels[at].1;
        assert(!ids.contains(id));
        assert forall|i: int| 0 <= i < after.len() implies (
        #[trigger] after[i]).1.no_duplicates() by {
            assert(levels[i].1.no_duplicates());
            if i == at {
                assert forall|a: int, b: int|
                    0 <= a < ids.push(id).len() && 0 <= b < ids.push(id).len() && a
                        != b implies ids.push(id)[a] != ids.push(id)[b] by {
                    if a == ids.len() {
                        assert(ids.contains(ids[b]));
                    } else if b == ids.len() {
                        assert(ids.contains(ids[a]));
                    }
                }
            }
        }
        assert forall|i: int, x: Seq<char>|
            0 <= i < after.len() && #[trigger] after[i].1.contains(x) implies goal.dom().contains(x)
            && goal[x] == after[i].0.rank() by {
            if i == at {
                seqs::lemma_push_members(ids, id, x);
            }
            if x != id {
                assert(levels[i].1.contains(x));
            } else if i != at {
                assert(levels[i].1.contains(x));
            }
        }
        assert forall|x: Seq<char>| #[trigger] goal.dom().contains(x) implies lists(
            after,
            goal[x],
            x,
        ) by {
            if x == id {
                seqs::lemma_push_members(ids, id, x);
                assert(after[at].0.rank() == rank && after[at].1.contains(x));
            } else {
                assert(wanted.dom().contains(x));
                let i = choose|i: int|
                    0 <= i < levels.len() && (#[trigger] levels[i]).0.rank() == wanted[x]
                        && levels[i].1.contains(x);
                if i == at {
                    seqs::lemma_push_members(ids, id, x);
                }
                assert(after[i].0.rank() == wanted[x] && after[i].1.contains(x));
            }
        }
    } else {
        ladder::lemma_placed_ascending(levels, price, seq![id]);
        assert(after == ladder::placed(levels, price, seq![id]));
        assert(seq![id].contains(id)) by {
            assert(seq![id][0] == id);
        }
        assert forall|i: int| 0 <= i < after.len() implies (
        #[trigger] after[i]).1.no_duplicates() by {
            if i < at {
                assert(after[i] == levels[i]);
            } else if i > at {
                assert(after[i] == levels[i - 1]);
            }
        }
        assert forall|i: int, x: Seq<char>|
            0 <= i < after.len() && #[trigger] after[i].1.contains(x) implies goal.dom().contains(x)
            && goal[x] == after[i].0.rank() by {
            if i < at {
                assert(after[i] == levels[i]);
                assert(levels[i].1.contains(x));
            } else if i > at {
                assert(after[i] == levels[i - 1]);
                assert(levels[i - 1].1.contains(x));
            } else {
                assert(x == id);
            }
        }
        assert forall|x: Seq<char>| #[trigger] goal.dom().contains(x) implies lists(
            after,
            goal[x],
            x,
        ) by {
            if x == id {
                assert(after[at].0.rank() == rank && after[at].1.contains(x));
            } else {
                assert(wanted.dom().contains(x));
                let i = choose|i: int|
                    0 <= i < levels.len() && (#[trigger] levels[i]).0.rank() == wanted[x]
                        && levels[i].1.contains(x);
                let k = if i < at { i } else { i + 1 };
                assert(after[k] == levels[i]);
                assert(after[k].0.rank() == wanted[x] && after[k].1.contains(x));
            }
        }
    }
}

proof fn lemma_tidied(levels: Levels, wanted: Map<Seq<char>, int>)
    requires
        lists_exactly(levels, wanted),
    ensures
        lists_exactly(tidied(levels), wanted),
        forall|i: int| 0 <= i < tidied(levels).len() ==> (#[trigger] tidied(levels)[i]).1.len() > 0,
{
    let occupied = |level: (Binary64, Seq<Seq<char>>)| level.1.len() > 0;
    let after = tidied(levels);
    ladder::lemma_filter_ascending(levels, occupied);
    assert forall|i: int| 0 <= i < after.len() implies #[trigger] after[i].1.len() > 0
        && levels.contains(after[i]) by {
        seqs::lemma_filter_members(levels, occupied, after[i]);
        assert(after.contains(after[i]));
    }
    assert forall|i: int| 0 <= i < after.len() implies (#[trigger] after[i]).1.no_duplicates() by {
        assert(after[i].1.len() > 0);
        let k = choose|k: int| 0 <= k < levels.len() && levels[k] == after[i];
        assert(levels[k].1.no_duplicates());
    }
    assert forall|i: int, x: Seq<char>|
        0 <= i < after.len() && #[trigger] after[i].1.contains(x) implies wanted.dom().contains(x)
        && wanted[x] == after[i].0.rank() by {
        assert(after[i].1.len() > 0);
        let k = choose|k: int| 0 <= k < levels.len() && levels[k] == after[i];
        assert(levels[k].1.contains(x));
    }
    assert forall|x: Seq<char>| #[trigger] wanted.dom().contains(x) implies lists(
        after,
        wanted[x],
        x,
    ) by {
        let i = choose|i: int|
            0 <= i < levels.len() && (#[trigger] levels[i]).0.rank() == wanted[x]
                && levels[i].1.contains(x);
        assert(levels[i].1.len() > 0);
        seqs::lemma_filter_members(levels, occupied, levels[i]);
        assert(levels.contains(levels[i]));
        let k = choose|k: int| 0 <= k < after.len() && after[k] == levels[i];
        assert(after[k].0.rank() == wanted[x] && after[k].1.contains(x));
    }
}

/// A report keeps a side coherent.
pub proof fn lemma_side_after(
    levels: Levels,
    known: Map<Seq<char>, InfoModel>,
    info: Map<Seq<char>, InfoModel>,
    side: Seq<char>,
    id: Seq<char>,
    new: InfoModel,
)
    requires
        side_coherent(levels, known, info, side),
    ensures
        side_coherent(
            side_after(levels, known, id, new, state_named(new.state), side),
            known_after(known, id, new, side),
            info.insert(id, new),
            side,
        ),
{
    let wanted = open_on(info, side);
    let cleared = if known.dom().contains(id) {
        withdrawn(levels, known[id].price, id)
    } else {
        levels
    };
    if known.dom().contains(id) {
        lemma_withdrawn(levels, wanted, known[id].price, id);
    } else {
        assert(wanted.remove(id) =~= wanted);
    }
    let goal = open_on(info.insert(id, new), side);
    if new.direction == side && state_named(new.state) is Open {
        lemma_listed(cleared, wanted.remove(id), new.price, id);
        assert(goal =~= wanted.remove(id).insert(id, new.price.rank()));
        lemma_tidied(listed(cleared, new.price, id), goal);
    } else {
        assert(goal =~= wanted.remove(id));
        lemma_tidied(cleared, goal);
    }
}

proof fn lemma_states_after(
    by_state: Map<OrderState, Seq<Seq<char>>>,
    info: Map<Seq<char>, InfoModel>,
    id: Seq<char>,
    new: InfoModel,
)
    requires
        states_coherent(by_state, info),
    ensures
        states_coherent(
            by_state_after(by_state, id, state_named(new.state)),
            info.insert(id, new),
        ),
{
    let after = by_state_after(by_state, id, state_named(new.state));
    let grown = info.insert(id, new);
    assert forall|s: OrderState| (#[trigger] after[s]).no_duplicates() by {
        seqs::lemma_without(by_state[s], id);
        let kept = seqs::without(by_state[s], id);
        assert(by_state[s].no_duplicates());
        assert(!kept.contains(id));
        if s == state_named(new.state) {
            assert forall|a: int, b: int|
                0 <= a < kept.push(id).len() && 0 <= b < kept.push(id).len() && a
                    != b implies kept.push(id)[a] != kept.push(id)[b] by {
                if a == kept.len() {
                    assert(kept.contains(kept[b]));
                } else if b == kept.len() {
                    assert(kept.contains(kept[a]));
                }
            }
        }
    }
    assert forall|s: OrderState, x: Seq<char>| #[trigger]
        after[s].contains(x) <==> grown.dom().contains(x) && state_named(grown[x].state) == s by {
        seqs::lemma_without(by_state[s], id);
        let kept = seqs::without(by_state[s], id);
        assert(kept.contains(x) <==> by_state[s].contains(x) && x != id);
        if s == state_named(new.state) {
            seqs::lemma_push_members(kept, id, x);
        }
    }
}

/// A side's levels are kept: none is empty, none lists an id twice, and each lists ids only whose
/// last report on this side has its price.
pub open spec fn levels_kept(levels: Levels, known: Map<Seq<char>, InfoModel>) -> bool {
    &&& ladder::ascending(levels)
    &&& forall|i: int| 0 <= i < levels.len() ==> (#[trigger] levels[i]).1.len() > 0
    &&& forall|i: int| 0 <= i < levels.len() ==> (#[trigger] levels[i]).1.no_duplicates()
    &&& forall|i: int, id: Seq<char>|
        0 <= i < levels.len() && #[trigger] levels[i].1.contains(id) ==> known.dom().contains(id)
            && known[id].price.rank() == levels[i].0.rank()
}

/// Whether some level lists this id.
pub open spec fn listed_in(levels: Levels, id: Seq<char>) -> bool {
    exists|i: int| 0 <= i < levels.len() && #[trigger] levels[i].1.contains(id)
}

/// The levels of both sides are kept, and no id is listed on both.
pub open spec fn sides_kept(
    bids: Levels,
    asks: Levels,
    buys: Map<Seq<char>, InfoModel>,
    sells: Map<Seq<char>, InfoModel>,
) -> bool {
    &&& levels_kept(bids, buys)
    &&& levels_kept(asks, sells)
    &&& forall|id: Seq<char>| !(#[trigger] listed_in(bids, id) && #[trigger] listed_in(asks, id))
}

/// On kept levels an id is listed once at most: by no two levels, and by none twice.
pub proof fn law_listed_once(
    levels: Levels,
    known: Map<Seq<char>, InfoModel>,
    i: int,
    j: int,
    id: Seq<char>,
)
    requires
        levels_kept(levels, known),
        0 <= i < levels.len(),
        0 <= j < levels.len(),
        levels[i].1.contains(id),
        levels[j].1.contains(id),
    ensures
        i == j,
        levels[i].1.no_duplicates(),
{
    assert(levels[i].0.rank() == levels[j].0.rank());
    if i < j {
        assert(levels[i].0.rank() < levels[j].0.rank());
    } else if j < i {
        assert(levels[j].0.rank() < levels[i].0.rank());
    }
}

/// A report keeps the levels of both sides, whatever its price, direction and state: also where
/// the price has changed, or a buy order has become a sell order.
pub proof fn law_report_keeps_sides(
    bids: Levels,
    asks: Levels,
    buys: Map<Seq<char>, InfoModel>,
    sells: Map<Seq<char>, InfoModel>,
    id: Seq<char>,
    info: InfoModel,
    state: OrderState,
)
    requires
        sides_kept(bids, asks, buys, sells),
    ensures
        sides_kept(
            side_after(bids, buys, id, info, state, "buy"@),
            side_after(asks, sells, id, info, state, "sell"@),
            known_after(buys, id, info, "buy"@),
            known_after(sells, id, info, "sell"@),
        ),
{
    reveal_strlit("buy");
    reveal_strlit("sell");
    assert("buy"@.len() != "sell"@.len());
    lemma_levels_kept(bids, buys, id, info, state, "buy"@);
    lemma_levels_kept(asks, sells, id, info, state, "sell"@);
    let new_bids = side_after(bids, buys, id, info, state, "buy"@);
    let new_asks = side_after(asks, sells, id, info, state, "sell"@);
    assert forall|x: Seq<char>|
        !(#[trigger] listed_in(new_bids, x) && #[trigger] listed_in(new_asks, x)) by {
        if x != id {
            assert(!(listed_in(bids, x) && listed_in(asks, x)));
        }
    }
}

/// The ids that levels list, with their ranks.
spec fn listing_of(levels: Levels, known: Map<Seq<char>, InfoModel>) -> Map<Seq<char>, int> {
    Map::new(|id: Seq<char>| listed_in(levels, id), |id: Seq<char>| known[id].price.rank())
}

proof fn lemma_listing_exact(levels: Levels, known: Map<Seq<char>, InfoModel>)
    requires
        levels_kept(levels, known),
    ensures
        lists_exactly(levels, listing_of(levels, known)),
{
    let wanted = listing_of(levels, known);
    assert forall|id: Seq<char>| #[trigger] wanted.dom().contains(id) implies lists(
        levels,
        wanted[id],
        id,
    ) by {
        let i = choose|i: int| 0 <= i < levels.len() && #[trigger] levels[i].1.contains(id);
        assert(levels[i].0.rank() == wanted[id]);
    }
}

proof fn lemma_levels_kept(
    levels: Levels,
    known: Map<Seq<char>, InfoModel>,
    id: Seq<char>,
    info: InfoModel,
    state: OrderState,
    side: Seq<char>,
)
    requires
        levels_kept(levels, known),
    ensures
        levels_kept(
            side_after(levels, known, id, info, state, side),
            known_after(known, id, info, side),
        ),
        forall|x: Seq<char>| #[trigger]
            listed_in(side_after(levels, known, id, info, state, side), x) <==> if x == id {
                info.direction == side && state is Open
            } else {
                listed_in(levels, x)
            },
{
    let wanted = listing_of(levels, known);
    lemma_listing_exact(levels, known);
    let cleared = if known.dom().contains(id) {
        withdrawn(levels, known[id].price, id)
    } else {
        levels
    };
    if known.dom().contains(id) {
        lemma_withdrawn(levels, wanted, known[id].price, id);
    } else {
        assert(wanted.remove(id) =~= wanted);
    }
    let after = side_after(levels, known, id, info, state, side);
    let joins = info.direction == side && state is Open;
    let goal = if joins {
        wanted.remove(id).insert(id, info.price.rank())
    } else {
        wanted.remove(id)
    };
    if joins {
        lemma_listed(cleared, wanted.remove(id), info.price, id);
        lemma_tidied(listed(cleared, info.price, id), goal);
    } else {
        lemma_tidied(cleared, goal);
    }
    let new = known_after(known, id, info, side);
    assert forall|x: Seq<char>| #[trigger] listed_in(after, x) <==> goal.dom().contains(x) by {
        if listed_in(after, x) {
            let i = choose|i: int| 0 <= i < after.len() && #[trigger] after[i].1.contains(x);
            assert(after[i].1.contains(x));
        }
        if goal.dom().contains(x) {
            assert(lists(after, goal[x], x));
            let i = choose|i: int|
                0 <= i < after.len() && (#[trigger] after[i]).0.rank() == goal[x]
                    && after[i].1.contains(x);
            assert(after[i].1.contains(x));
        }
    }
    assert forall|i: int, x: Seq<char>|
        0 <= i < after.len() && #[trigger] after[i].1.contains(x) implies new.dom().contains(x)
        && new[x].price.rank() == after[i].0.rank() by {
        assert(goal.dom().contains(x) && goal[x] == after[i].0.rank());
        if x != id {
            assert(listed_in(levels, x));
            let k = choose|k: int| 0 <= k < levels.len() && #[trigger] levels[k].1.contains(x);
            assert(known.dom().contains(x));
        }
    }
}

/// Before anything was reported the indexes agree.
pub proof fn law_empty_coherent()
    ensures
        coherent(empty_model()),
{
    let m = empty_model();
    assert(open_on(m.info, "buy"@) =~= Map::empty());
    assert(open_on(m.info, "sell"@) =~= Map::empty());
}

/// Every report keeps the indexes in agreement with the orders: each order stands once under the
/// state of its last report, and each side's levels list exactly that side's open orders, each
/// once and at its own price.
pub proof fn law_report_keeps_coherent(m: OmsModel, order: Order)
    requires
        coherent(m),
    ensures
        coherent(after_order(m, order)),
{
    if let Some(key) = order.order_id {
        let id = key@;
        let info = info_of(order);
        lemma_states_after(m.by_state, m.info, id, info);
        lemma_side_after(m.bids, m.buys, m.info, "buy"@, id, info);
        lemma_side_after(m.asks, m.sells, m.info, "sell"@, id, info);
        let after = after_order(m, order);
        assert(after.orders.dom() =~= after.info.dom());
    }
}

/// Where the indexes agree with the orders, the levels of both sides are kept.
pub proof fn law_coherent_sides_are_kept(m: OmsModel)
    requires
        coherent(m),
    ensures
        sides_kept(m.bids, m.asks, m.buys, m.sells),
{
    reveal_strlit("buy");
    reveal_strlit("sell");
    assert("buy"@.len() != "sell"@.len());
    assert forall|i: int, id: Seq<char>|
        0 <= i < m.bids.len() && #[trigger] m.bids[i].1.contains(id) implies m.buys.dom().contains(
        id,
    ) && m.buys[id].price.rank() == m.bids[i].0.rank() by {
        assert(open_on(m.info, "buy"@).dom().contains(id));
        assert(m.info.dom().contains(id) && m.info[id].direction == "buy"@);
    }
    assert forall|i: int, id: Seq<char>|
        0 <= i < m.asks.len() && #[trigger] m.asks[i].1.contains(id) implies m.sells.dom().contains(
        id,
    ) && m.sells[id].price.rank() == m.asks[i].0.rank() by {
        assert(open_on(m.info, "sell"@).dom().contains(id));
        assert(m.info.dom().contains(id) && m.info[id].direction == "sell"@);
    }
    assert forall|id: Seq<char>|
        !(#[trigger] listed_in(m.bids, id) && #[trigger] listed_in(m.asks, id)) by {
        if listed_in(m.bids, id) && listed_in(m.asks, id) {
            let i = choose|i: int| 0 <= i < m.bids.len() && #[trigger] m.bids[i].1.contains(id);
            let j = choose|j: int| 0 <= j < m.asks.len() && #[trigger] m.asks[j].1.contains(id);
            assert(open_on(m.info, "buy"@).dom().contains(id));
            assert(open_on(m.info, "sell"@).dom().contains(id));
        }
    }
}

/// A trade keeps the indexes in agreement with the orders.
pub proof fn law_trade_keeps_coherent(m: OmsModel, trade: Trade)
    requires
        coherent(m),
    ensures
        coherent(after_trade(m, trade)),
{
}

/// Reports one after the other keep the indexes in agreement with the orders.
pub proof fn law_reports_keep_coherent(m: OmsModel, orders: Seq<Order>)
    requires
        coherent(m),
    ensures
        coherent(after_orders(m, orders)),
    decreases orders.len(),
{
    if orders.len() > 0 {
        law_reports_keep_coherent(m, orders.drop_last());
        law_report_keeps_coherent(after_orders(m, orders.drop_last()), orders.last());
    }
}

/// An order rests on the bid side exactly while its last report is an open buy, then at its own
/// price; and so on the ask side for sells. A report without a price counts as one at zero, and one
/// whose state names no end of the order counts as open.
pub proof fn law_levels_list_open_orders(m: OmsModel, id: Seq<char>, rank: int)
    requires
        coherent(m),
    ensures
        ({
            let order = m.orders[id];
            let text = if order.order_state is Some { order.order_state->0@ } else { order.state@ };
            let price = if order.price is Some { order.price->0 } else { Binary64 { bits: 0 } };
            let open_there = m.orders.dom().contains(id) && text != "filled"@ && text
                != "cancelled"@ && text != "rejected"@ && text != "expired"@ && price.rank() == rank;
            &&& lists(m.bids, rank, id) <==> open_there && order.direction is Some
                && order.direction->0@ == "buy"@
            &&& lists(m.asks, rank, id) <==> open_there && order.direction is Some
                && order.direction->0@ == "sell"@
        }),
{
    reveal_strlit("buy");
    reveal_strlit("sell");
    assert("buy"@.len() == 3 && "sell"@.len() == 4);
    lemma_lists(m.bids, open_on(m.info, "buy"@), rank, id);
    lemma_lists(m.asks, open_on(m.info, "sell"@), rank, id);
    assert(m.orders.dom().contains(id) <==> m.info.dom().contains(id));
}

proof fn lemma_lists(levels: Levels, wanted: Map<Seq<char>, int>, rank: int, id: Seq<char>)
    requires
        lists_exactly(levels, wanted),
    ensures
        lists(levels, rank, id) <==> wanted.dom().contains(id) && wanted[id] == rank,
{
    if lists(levels, rank, id) {
        let i = choose|i: int|
            0 <= i < levels.len() && (#[trigger] levels[i]).0.rank() == rank
                && levels[i].1.contains(id);
        assert(levels[i].1.contains(id));
    }
}

/// No open buy order is above the best bid, and no open sell order below the best ask; and the
/// best bid and ask are the prices of open orders.
pub proof fn law_best_levels(m: OmsModel)
    requires
        coherent(m),
    ensures
        forall|id: Seq<char>| #[trigger]
            open_on(m.info, "buy"@).dom().contains(id) ==> m.bids.len() > 0
                && m.info[id].price.rank() <= m.bids.last().0.rank(),
        forall|id: Seq<char>| #[trigger]
            open_on(m.info, "sell"@).dom().contains(id) ==> m.asks.len() > 0
                && m.info[id].price.rank() >= m.asks[0].0.rank(),
        m.bids.len() > 0 ==> exists|id: Seq<char>| #[trigger]
            open_on(m.info, "buy"@).dom().contains(id) && m.info[id].price.rank()
                == m.bids.last().0.rank(),
        m.asks.len() > 0 ==> exists|id: Seq<char>| #[trigger]
            open_on(m.info, "sell"@).dom().contains(id) && m.info[id].price.rank()
                == m.asks[0].0.rank(),
{
    let buys = open_on(m.info, "buy"@);
    let sells = open_on(m.info, "sell"@);
    assert forall|id: Seq<char>| #[trigger] buys.dom().contains(id) implies m.bids.len() > 0
        && m.info[id].price.rank() <= m.bids.last().0.rank() by {
        let i = choose|i: int|
            0 <= i < m.bids.len() && (#[trigger] m.bids[i]).0.rank() == buys[id]
                && m.bids[i].1.contains(id);
        if i < m.bids.len() - 1 {
            assert(m.bids[i].0.rank() < m.bids[m.bids.len() - 1].0.rank());
        }
    }
    assert forall|id: Seq<char>| #[trigger] sells.dom().contains(id) implies m.asks.len() > 0
        && m.info[id].price.rank() >= m.asks[0].0.rank() by {
        let i = choose|i: int|
            0 <= i < m.asks.len() && (#[trigger] m.asks[i]).0.rank() == sells[id]
                && m.asks[i].1.contains(id);
        if i > 0 {
            assert(m.asks[0].0.rank() < m.asks[i].0.rank());
        }
    }
    if m.bids.len() > 0 {
        let top = m.bids[m.bids.len() - 1];
        assert(top.1.len() > 0);
        assert(m.bids[m.bids.len() - 1].1.contains(top.1[0]));
        assert(buys.dom().contains(top.1[0]));
    }
    if m.asks.len() > 0 {
        let top = m.asks[0];
        assert(top.1.len() > 0);
        assert(m.asks[0].1.contains(top.1[0]));
        assert(sells.dom().contains(top.1[0]));
    }
}

/// A report changes what is known of its own order and of no other one.
pub proof fn law_report_touches_its_order_only(m: OmsModel, order: Order, id: Seq<char>)
    requires
        match order.order_id {
            Some(key) => key@ != id,
            None => true,
        },
    ensures
        after_order(m, order).orders.dom().contains(id) == m.orders.dom().contains(id),
        m.orders.dom().contains(id) ==> after_order(m, order).orders[id] == m.orders[id],
        after_order(m, order).info.dom().contains(id) == m.info.dom().contains(id),
        m.info.dom().contains(id) ==> after_order(m, order).info[id] == m.info[id],
{
}

/// The state of an order is that of the report's `order_state`, whatever its `state` holds; only
/// where that is missing does `state` decide. It is what is kept of the order, what the market
/// maker is told last, and under which the order is listed, and under no other.
pub proof fn law_report_state(m: OmsModel, order: Order, text: Seq<char>)
    requires
        order.order_id is Some,
        order.order_state is Some ==> text == order.order_state->0@,
        order.order_state is None ==> text == order.state@,
    ensures
        ({
            let id = order.order_id->0@;
            let after = after_order(m, order);
            let told = updates_of(m, order);
            let state = if text == "filled"@ {
                OrderState::Filled
            } else if text == "cancelled"@ {
                OrderState::Canceled
            } else if text == "rejected"@ {
                OrderState::Rejected
            } else if text == "expired"@ {
                OrderState::Expired
            } else {
                OrderState::Open
            };
            &&& after.info.dom().contains(id)
            &&& after.info[id].state == text
            &&& told.len() > 0
            &&& told.last() == UpdateModel::OrderStateChanged(id, state)
            &&& forall|s: OrderState| (#[trigger] after.by_state[s]).contains(id) <==> s == state
            &&& after.by_state[state].last() == id
        }),
{
    let id = order.order_id->0@;
    let after = after_order(m, order);
    assert forall|s: OrderState| (#[trigger] after.by_state[s]).contains(id) <==> s == state_named(
        text,
    ) by {
        seqs::lemma_without(m.by_state[s], id);
        seqs::lemma_push_members(seqs::without(m.by_state[s], id), id, id);
    }
}

/// What is kept of an order is what its last report says; a number that is missing counts as zero
/// and a text that is missing as empty.
pub proof fn law_report_info(m: OmsModel, order: Order)
    requires
        order.order_id is Some,
    ensures
        ({
            let id = order.order_id->0@;
            let kept = after_order(m, order).info[id];
            let zero = Binary64 { bits: 0 };
            &&& after_order(m, order).orders.dom().contains(id)
            &&& after_order(m, order).orders[id] == order
            &&& after_order(m, order).trades == m.trades
            &&& kept.price == (if order.price is Some { order.price->0 } else { zero })
            &&& kept.amount == (if order.amount is Some { order.amount->0 } else { zero })
            &&& kept.filled_amount == (if order.filled_amount is Some {
                order.filled_amount->0
            } else {
                zero
            })
            &&& order.direction is Some ==> kept.direction == order.direction->0@
            &&& order.direction is None ==> kept.direction.len() == 0
            &&& order.instrument_name is Some ==> kept.instrument_name == order.instrument_name->0@
            &&& order.instrument_name is None ==> kept.instrument_name.len() == 0
            &&& order.creation_timestamp is Some ==> kept.timestamp == order.creation_timestamp->0
            &&& order.creation_timestamp is None ==> kept.timestamp == 0
        }),
{
}

/// A report is known on the side that it names, and on that side only; the other side keeps what
/// it knew.
pub proof fn law_report_known_on_its_side(m: OmsModel, order: Order)
    requires
        order.order_id is Some,
    ensures
        ({
            let id = order.order_id->0@;
            let after = after_order(m, order);
            let bought = order.direction is Some && order.direction->0@ == "buy"@;
            let sold = order.direction is Some && order.direction->0@ == "sell"@;
            &&& bought ==> after.buys == m.buys.insert(id, after.info[id])
            &&& !bought ==> after.buys == m.buys
            &&& sold ==> after.sells == m.sells.insert(id, after.info[id])
            &&& !sold ==> after.sells == m.sells
        }),
{
    reveal_strlit("buy");
    reveal_strlit("sell");
    assert("buy"@.len() == 3 && "sell"@.len() == 4);
}

/// What the market maker is told about a report with an id, all of it about that id: of a fill
/// exactly where `state` is filled; else of a partial fill exactly where the filled amount was
/// known before, is known now, and has grown; and of the state in any case.
pub proof fn law_report_is_told(m: OmsModel, order: Order)
    requires
        order.order_id is Some,
    ensures
        ({
            let id = order.order_id->0@;
            let told = updates_of(m, order);
            let before = m.orders[id].filled_amount;
            let now = order.filled_amount;
            let filled = order.state@ == "filled"@;
            let grew = m.orders.dom().contains(id) && before is Some && now is Some
                && !before->0.is_nan_spec() && !now->0.is_nan_spec() && before->0.rank()
                < now->0.rank();
            &&& told.len() == (if filled || grew { 2nat } else { 1nat })
            &&& told.last() is OrderStateChanged
            &&& told.last()->OrderStateChanged_0 == id
            &&& filled ==> told[0] == UpdateModel::OrderFilled(id)
            &&& !filled && grew ==> told[0] == UpdateModel::OrderPartiallyFilled(id)
        }),
{
}

/// A report without an id changes nothing, and nothing is told about it.
pub proof fn law_report_without_id(m: OmsModel, order: Order)
    requires
        order.order_id is None,
    ensures
        after_order(m, order) == m,
        updates_of(m, order).len() == 0,
{
}

/// A trade is kept behind the earlier ones, and changes nothing else.
pub proof fn law_trade_is_kept(m: OmsModel, trade: Trade)
    ensures
        after_trade(m, trade).trades == m.trades.push(trade),
        after_trade(m, trade).orders == m.orders,
        after_trade(m, trade).info == m.info,
        after_trade(m, trade).by_state == m.by_state,
        after_trade(m, trade).buys == m.buys,
        after_trade(m, trade).sells == m.sells,
        after_trade(m, trade).bids == m.bids,
        after_trade(m, trade).asks == m.asks,
{
}

/// Reports count one by one and all of them: those of two lists in a row are taken in as the
/// second list after the first, and what is told about them as well.
pub proof fn law_reports_in_a_row(m: OmsModel, first: Seq<Order>, second: Seq<Order>)
    ensures
        after_orders(m, first + second) == after_orders(after_orders(m, first), second),
        updates_of_all(m, first + second) == updates_of_all(m, first) + updates_of_all(
            after_orders(m, first),
            second,
        ),
    decreases second.len(),
{
    if second.len() == 0 {
        assert(first + second =~= first);
        assert(updates_of_all(m, first) + Seq::empty() =~= updates_of_all(m, first));
    } else {
        let all = first + second;
        assert(all.drop_last() =~= first + second.drop_last());
        assert(all.last() == second.last());
        law_reports_in_a_row(m, first, second.drop_last());
        let middle = after_orders(m, first);
        assert(updates_of_all(m, all) =~= updates_of_all(m, first) + updates_of_all(middle, second));
    }
}

/// A single report in a list is that report.
pub proof fn law_single_report(m: OmsModel, order: Order)
    ensures
        after_orders(m, seq![order]) == after_order(m, order),
        updates_of_all(m, seq![order]) == updates_of(m, order),
{
    reveal_with_fuel(after_orders, 2);
    reveal_with_fuel(updates_of_all, 2);
    assert(seq![order].drop_last() =~= Seq::<Order>::empty());
    assert(updates_of_all(m, seq![order]) =~= updates_of(m, order));
}

/// Of the reports in a list the last one with an id is what is known of that order.
pub proof fn law_last_report_in_list_is_known(m: OmsModel, orders: Seq<Order>, k: int)
    requires
        0 <= k < orders.len(),
        orders[k].order_id is Some,
        forall|j: int|
            k < j < orders.len() && (#[trigger] orders[j]).order_id is Some ==> orders[j].order_id->0@
                != orders[k].order_id->0@,
    ensures
        after_orders(m, orders).orders.dom().contains(orders[k].order_id->0@),
        after_orders(m, orders).orders[orders[k].order_id->0@] == orders[k],
    decreases orders.len(),
{
    let n = orders.len() - 1;
    if k < n {
        let front = orders.drop_last();
        assert(front[k] == orders[k]);
        assert forall|j: int| k < j < front.len() && (
        #[trigger] front[j]).order_id is Some implies front[j].order_id->0@
            != front[k].order_id->0@ by {
            assert(front[j] == orders[j]);
        }
        law_last_report_in_list_is_known(m, front, k);
        assert(orders[n] == orders.last());
    }
}

/// What the market maker is told once more about a report that was pushed goes by its `state`
/// alone: of a fill for `filled`, of a partial fill for `partially_filled`, and else nothing.
pub proof fn law_pushed_again(order: Order)
    ensures
        order.state@ == "filled"@ ==> pushed_updates(order).len() == 1,
        order.state@ == "partially_filled"@ ==> pushed_updates(order).len() == 1,
        order.state@ != "filled"@ && order.state@ != "partially_filled"@ ==> pushed_updates(
            order,
        ).len() == 0,
        order.state@ == "filled"@ && order.order_id is Some ==> pushed_updates(order)[0]
            == UpdateModel::OrderFilled(order.order_id->0@),
        order.state@ == "partially_filled"@ && order.order_id is Some ==> pushed_updates(order)[0]
            == UpdateModel::OrderPartiallyFilled(order.order_id->0@),
        order.state@ == "filled"@ && order.order_id is None ==> pushed_updates(order)[0]
            == UpdateModel::OrderFilled(Seq::empty()),
        order.state@ == "partially_filled"@ && order.order_id is None ==> pushed_updates(order)[0]
            == UpdateModel::OrderPartiallyFilled(Seq::empty()),
{
    reveal_strlit("filled");
    reveal_strlit("partially_filled");
    assert("filled"@.len() != "partially_filled"@.len());
}

/// A report that comes twice leaves what is known as it was after the first time: the same orders
/// on the same levels and under the same states, though they may stand in another order there. It
/// tells of no fill that grew.
pub proof fn law_repeated_report(m: OmsModel, order: Order, id: Seq<char>)
    requires
        coherent(m),
    ensures
        ({
            let once = after_order(m, order);
            let twice = after_order(once, order);
            &&& twice.orders == once.orders
            &&& twice.info == once.info
            &&& twice.buys == once.buys
            &&& twice.sells == once.sells
            &&& twice.trades == once.trades
            &&& forall|rank: int| #[trigger] lists(twice.bids, rank, id) == lists(once.bids, rank, id)
            &&& forall|rank: int| #[trigger] lists(twice.asks, rank, id) == lists(once.asks, rank, id)
            &&& forall|s: OrderState|
                (#[trigger] twice.by_state[s]).contains(id) == once.by_state[s].contains(id)
            &&& forall|i: int|
                0 <= i < updates_of(once, order).len() ==> !((#[trigger] updates_of(
                    once,
                    order,
                )[i]) is OrderPartiallyFilled)
        }),
{
    let once = after_order(m, order);
    let twice = after_order(once, order);
    law_report_keeps_coherent(m, order);
    law_report_keeps_coherent(once, order);
    assert(twice.orders =~= once.orders);
    assert(twice.info =~= once.info);
    assert(twice.buys =~= once.buys);
    assert(twice.sells =~= once.sells);
    assert forall|rank: int| #[trigger]
        lists(twice.bids, rank, id) == lists(once.bids, rank, id) by {
        law_levels_list_open_orders(once, id, rank);
        law_levels_list_open_orders(twice, id, rank);
    }
    assert forall|rank: int| #[trigger]
        lists(twice.asks, rank, id) == lists(once.asks, rank, id) by {
        law_levels_list_open_orders(once, id, rank);
        law_levels_list_open_orders(twice, id, rank);
    }
    assert forall|s: OrderState|
        (#[trigger] twice.by_state[s]).contains(id) == once.by_state[s].contains(id) by {
        assert(once.by_state[s].contains(id) <==> once.info.dom().contains(id) && state_named(
            once.info[id].state,
        ) == s);
    }
}

/// What was reported last is what is known.
pub proof fn law_last_report_is_known(m: OmsModel, order: Order)
    requires
        order.order_id is Some,
    ensures
        after_order(m, order).orders.dom().contains(order.order_id->0@),
        after_order(m, order).orders[order.order_id->0@] == order,
        after_order(m, order).info[order.order_id->0@] == info_of(order),
{
}

proof fn lemma_value_withdrawn(levels: Levels, price: Binary64, id: Seq<char>, rank: int)
    requires
        ladder::ascending(levels),
    ensures
        ladder::ascending(withdrawn(levels, price, id)),
        ladder::value_at(withdrawn(levels, price, id), rank) == (match ladder::value_at(
            levels,
            rank,
        ) {
            Some(ids) => Some(
                if rank == price.rank() {
                    seqs::without(ids, id)
                } else {
                    ids
                },
            ),
            None => None,
        }),
{
    let after = withdrawn(levels, price, id);
    ladder::lemma_slot_exists(levels, price.rank());
    ladder::lemma_slot_exists(levels, rank);
    if ladder::has_rank(levels, price.rank()) {
        ladder::lemma_same_keys(levels, after);
    }
    assert(ladder::has_rank(after, rank) == ladder::has_rank(levels, rank));
    assert(ladder::slot(after, rank) == ladder::slot(levels, rank));
}

proof fn lemma_value_listed(levels: Levels, price: Binary64, id: Seq<char>, rank: int)
    requires
        ladder::ascending(levels),
    ensures
        ladder::ascending(listed(levels, price, id)),
        ladder::value_at(listed(levels, price, id), rank) == (if rank == price.rank() {
            Some(
                match ladder::value_at(levels, rank) {
                    Some(ids) => ids.push(id),
                    None => seq![id],
                },
            )
        } else {
            ladder::value_at(levels, rank)
        }),
{
    let after = listed(levels, price, id);
    ladder::lemma_slot_exists(levels, price.rank());
    ladder::lemma_slot_exists(levels, rank);
    if ladder::has_rank(levels, price.rank()) {
        ladder::lemma_same_keys(levels, after);
        assert(ladder::has_rank(after, rank) == ladder::has_rank(levels, rank));
        assert(ladder::slot(after, rank) == ladder::slot(levels, rank));
    } else {
        assert(after == ladder::placed(levels, price, seq![id]));
        ladder::lemma_placed_ascending(levels, price, seq![id]);
        ladder::law_placed_value_at(levels, price, seq![id], rank);
    }
}

proof fn lemma_value_tidied(levels: Levels, rank: int)
    requires
        ladder::ascending(levels),
    ensures
        ladder::value_at(tidied(levels), rank) == (match ladder::value_at(levels, rank) {
            Some(ids) => if ids.len() > 0 {
                Some(ids)
            } else {
                None
            },
            None => None,
        }),
{
    let occupied = |level: (Binary64, Seq<Seq<char>>)| level.1.len() > 0;
    let after = tidied(levels);
    ladder::lemma_filter_ascending(levels, occupied);
    if ladder::has_rank(after, rank) {
        let i = choose|i: int| 0 <= i < after.len() && (#[trigger] after[i]).0.rank() == rank;
        ladder::lemma_slot_of_level(after, i);
        seqs::lemma_filter_members(levels, occupied, after[i]);
        assert(after.contains(after[i]));
        let k = choose|k: int| 0 <= k < levels.len() && levels[k] == after[i];
        ladder::lemma_slot_of_level(levels, k);
    }
    if ladder::has_rank(levels, rank) {
        let k = choose|k: int| 0 <= k < levels.len() && (#[trigger] levels[k]).0.rank() == rank;
        ladder::lemma_slot_of_level(levels, k);
        seqs::lemma_filter_members(levels, occupied, levels[k]);
        assert(levels.contains(levels[k]));
        if levels[k].1.len() > 0 {
            let i = choose|i: int| 0 <= i < after.len() && after[i] == levels[k];
            assert(after[i].0.rank() == rank);
        }
    }
}

/// The ids at a price, none where there is no level.
pub open spec fn ids_at(levels: Levels, rank: int) -> Seq<Seq<char>> {
    match ladder::value_at(levels, rank) {
        Some(ids) => ids,
        None => Seq::empty(),
    }
}

proof fn lemma_queue(
    levels: Levels,
    known: Map<Seq<char>, InfoModel>,
    info: Map<Seq<char>, InfoModel>,
    side: Seq<char>,
    id: Seq<char>,
    new: InfoModel,
    rank: int,
)
    requires
        side_coherent(levels, known, info, side),
    ensures
        ({
            let after = side_after(levels, known, id, new, state_named(new.state), side);
            let others = seqs::without(ids_at(levels, rank), id);
            let joins = new.direction == side && state_named(new.state) is Open && new.price.rank()
                == rank;
            &&& ids_at(after, rank) == (if joins { others.push(id) } else { others })
            &&& ladder::has_rank(after, rank) <==> ids_at(after, rank).len() > 0
        }),
{
    let state = state_named(new.state);
    let after = side_after(levels, known, id, new, state, side);
    let wanted = open_on(info, side);
    let old = ids_at(levels, rank);
    seqs::law_without(old, id, id);
    if ladder::has_rank(levels, rank) {
        ladder::lemma_slot_exists(levels, rank);
        let at = ladder::slot(levels, rank);
        assert(old == levels[at].1);
        if old.contains(id) {
            assert(wanted.dom().contains(id) && wanted[id] == levels[at].0.rank());
            assert(info.dom().contains(id) && info[id].direction == side);
            assert(known.dom().contains(id) && known[id].price.rank() == rank);
        }
    }
    if !old.contains(id) {
        seqs::lemma_without_stranger(old, id);
    }
    let cleared = if known.dom().contains(id) {
        withdrawn(levels, known[id].price, id)
    } else {
        levels
    };
    if known.dom().contains(id) {
        lemma_value_withdrawn(levels, known[id].price, id, rank);
    }
    if new.direction == side && state is Open {
        lemma_value_listed(cleared, new.price, id, rank);
        lemma_value_tidied(listed(cleared, new.price, id), rank);
        assert(Seq::<Seq<char>>::empty().push(id) =~= seq![id]);
    } else {
        lemma_value_tidied(cleared, rank);
    }
}

/// At every price the order that is reported leaves the queue, and joins it as the last one if it
/// is an open order of that side at that price; the others keep their turns. There is a level
/// exactly where an order is left.
pub proof fn law_report_queues(m: OmsModel, order: Order, text: Seq<char>, rank: int)
    requires
        coherent(m),
        order.order_id is Some,
        order.order_state is Some ==> text == order.order_state->0@,
        order.order_state is None ==> text == order.state@,
    ensures
        ({
            let id = order.order_id->0@;
            let after = after_order(m, order);
            let price = if order.price is Some { order.price->0 } else { Binary64 { bits: 0 } };
            let open_here = text != "filled"@ && text != "cancelled"@ && text != "rejected"@ && text
                != "expired"@ && price.rank() == rank;
            let bought = order.direction is Some && order.direction->0@ == "buy"@;
            let sold = order.direction is Some && order.direction->0@ == "sell"@;
            let bids = seqs::without(ids_at(m.bids, rank), id);
            let asks = seqs::without(ids_at(m.asks, rank), id);
            &&& ids_at(after.bids, rank) == (if bought && open_here { bids.push(id) } else { bids })
            &&& ids_at(after.asks, rank) == (if sold && open_here { asks.push(id) } else { asks })
            &&& ladder::has_rank(after.bids, rank) <==> ids_at(after.bids, rank).len() > 0
            &&& ladder::has_rank(after.asks, rank) <==> ids_at(after.asks, rank).len() > 0
        }),
{
    reveal_strlit("buy");
    reveal_strlit("sell");
    assert("buy"@.len() == 3 && "sell"@.len() == 4);
    let id = order.order_id->0@;
    let info = info_of(order);
    lemma_queue(m.bids, m.buys, m.info, "buy"@, id, info, rank);
    lemma_queue(m.asks, m.sells, m.info, "sell"@, id, info, rank);
}

} // verus!
