//! A book of single orders, as Kraken's level 3 feed tells it, and its checksum.

use vstd::prelude::*;
use vstd::string::*;

use crate::decimal::Decimal;
use crate::ladder;
use crate::ladder::{Ladder, PriceKey};
use crate::seqs;
use crate::string_map::StringMap;
use crate::text;
use crate::text::same_text;

verus! {

/// How many price levels of each side are kept, and enter the checksum.
pub const DEPTH: usize = 10;

/// One resting order.
#[derive(Debug)]
pub struct Order {
    pub order_id: String,
    pub limit_price: Decimal,
    pub order_qty: Decimal,
    pub timestamp: String,
}

impl Clone for Order {
    fn clone(&self) -> (r: Self)
        ensures
            r == *self,
    {
        Order {
            order_id: self.order_id.clone(),
            limit_price: self.limit_price,
            order_qty: self.order_qty,
            timestamp: self.timestamp.clone(),
        }
    }
}

impl Order {
    /// Its numbers are in range.
    pub open spec fn in_range(self) -> bool {
        self.limit_price.in_range() && self.order_qty.in_range()
    }
}

/// The orders at one price, the oldest first.
#[derive(Debug)]
pub struct PriceLevel {
    pub price: Decimal,
    pub orders: Vec<Order>,
}

impl Clone for PriceLevel {
    fn clone(&self) -> (r: Self)
        ensures
            r@ == self@,
    {
        let n: usize = self.orders.len();
        let mut orders: Vec<Order> = Vec::new();
        for i in 0..n
            invariant
                n == self.orders@.len(),
                orders@ =~= self.orders@.take(i as int),
        {
            orders.push(self.orders[i].clone());
        }
        assert(self.orders@.take(n as int) == self.orders@);
        PriceLevel { price: self.price, orders }
    }
}

/// A price level as mathematics.
pub struct LevelModel {
    pub price: Decimal,
    pub orders: Seq<Order>,
}

impl View for PriceLevel {
    type V = LevelModel;

    open spec fn view(&self) -> LevelModel {
        LevelModel { price: self.price, orders: self.orders@ }
    }
}

/// One side of the book, the lowest price first.
pub type Levels = Seq<(Decimal, LevelModel)>;

/// The book as mathematics.
pub struct BookModel {
    pub bids: Levels,
    pub asks: Levels,
    /// The price at which each order was last put.
    pub prices: Map<Seq<char>, Decimal>,
}

/// A message of the feed: the orders of each side that it names, `None` for one that cannot be
/// read.
#[derive(Debug)]
pub struct Level3Data {
    pub bids: Option<Vec<Option<Order>>>,
    pub asks: Option<Vec<Option<Order>>>,
}

/// An order in a message cannot be read.
#[derive(Clone, Copy, Debug, PartialEq, Eq, Structural)]
pub struct UnreadableOrder;

/// The orders that can be read have numbers in range.
pub open spec fn entries_in_range(entries: Seq<Option<Order>>) -> bool {
    forall|i: int|
        0 <= i < entries.len() ==> ((#[trigger] entries[i]) matches Some(order) ==> order.in_range())
}

impl Level3Data {
    pub open spec fn in_range(self) -> bool {
        &&& self.bids matches Some(entries) ==> entries_in_range(entries@)
        &&& self.asks matches Some(entries) ==> entries_in_range(entries@)
    }
}

/// The book.
pub struct KrakenLevel3OrderBook {
    bids: Ladder<Decimal, PriceLevel>,
    asks: Ladder<Decimal, PriceLevel>,
    order_map: StringMap<Decimal>,
}

/// The levels of a ladder.
pub open spec fn levels_of(s: Seq<(Decimal, PriceLevel)>) -> Levels {
    s.map_values(|level: (Decimal, PriceLevel)| (level.0, level.1@))
}

/// The test for orders with another id.
pub open spec fn other_order(id: Seq<char>) -> spec_fn(Order) -> bool {
    |order: Order| order.order_id@ != id
}

/// The levels after the order of this id left the level at `price`, and the level with it if it
/// was the last one there.
pub open spec fn order_removed(levels: Levels, price: Decimal, id: Seq<char>) -> Levels {
    if ladder::has_rank(levels, price.rank()) {
        let i = ladder::slot(levels, price.rank());
        let kept = levels[i].1.orders.filter(other_order(id));
        if kept.len() == 0 {
            levels.remove(i)
        } else {
            levels.update(i, (levels[i].0, LevelModel { orders: kept, ..levels[i].1 }))
        }
    } else {
        levels
    }
}

/// The levels after this order was put behind the others at its price.
pub open spec fn order_put(levels: Levels, order: Order) -> Levels {
    let i = ladder::slot(levels, order.limit_price.rank());
    if ladder::has_rank(levels, order.limit_price.rank()) {
        levels.update(
            i,
            (levels[i].0, LevelModel { orders: levels[i].1.orders.push(order), ..levels[i].1 }),
        )
    } else {
        levels.insert(
            i,
            (order.limit_price, LevelModel { price: order.limit_price, orders: seq![order] }),
        )
    }
}

/// One side and the known prices after an order was told. The order leaves the level at which it
/// was last put. With a quantity it is put at its price; without one it is gone.
pub open spec fn told_order(
    levels: Levels,
    prices: Map<Seq<char>, Decimal>,
    order: Order,
) -> (Levels, Map<Seq<char>, Decimal>) {
    let id = order.order_id@;
    let cleared = order_cleared(levels, prices, id);
    if order.order_qty.magnitude != 0 {
        (order_put(cleared, order), prices.insert(id, order.limit_price))
    } else {
        (cleared, prices.remove(id))
    }
}

/// The levels after the order of this id left the level at which it was last put, if it ever was.
pub open spec fn order_cleared(
    levels: Levels,
    prices: Map<Seq<char>, Decimal>,
    id: Seq<char>,
) -> Levels {
    if prices.dom().contains(id) {
        order_removed(levels, prices[id], id)
    } else {
        levels
    }
}

/// One side and the known prices after these orders, up to the first that cannot be read; and
/// whether all could be read.
pub open spec fn told_orders(
    levels: Levels,
    prices: Map<Seq<char>, Decimal>,
    entries: Seq<Option<Order>>,
) -> (Levels, Map<Seq<char>, Decimal>, bool)
    decreases entries.len(),
{
    if entries.len() == 0 {
        (levels, prices, true)
    } else {
        match entries[0] {
            Some(order) => {
                let (next, known) = told_order(levels, prices, order);
                told_orders(next, known, entries.drop_first())
            },
            None => (levels, prices, false),
        }
    }
}

/// The entries of one side of a message.
pub open spec fn entries_of(entries: Option<Vec<Option<Order>>>) -> Seq<Option<Order>> {
    match entries {
        Some(e) => e@,
        None => Seq::empty(),
    }
}

/// The book after the orders of one side were told, up to the first that cannot be read; and
/// whether all could be read.
pub open spec fn side_told(book: BookModel, entries: Seq<Option<Order>>, is_bid: bool) -> (
    BookModel,
    bool,
) {
    if is_bid {
        let (bids, prices, read) = told_orders(book.bids, book.prices, entries);
        (BookModel { bids, prices, ..book }, read)
    } else {
        let (asks, prices, read) = told_orders(book.asks, book.prices, entries);
        (BookModel { asks, prices, ..book }, read)
    }
}

/// The `depth` highest levels.
pub open spec fn highest(levels: Levels, depth: nat) -> Levels {
    if levels.len() > depth {
        levels.skip(levels.len() - depth)
    } else {
        levels
    }
}

/// The `depth` lowest levels.
pub open spec fn lowest(levels: Levels, depth: nat) -> Levels {
    if levels.len() > depth {
        levels.take(depth as int)
    } else {
        levels
    }
}

/// The book after a message, and whether all of it could be read. The bids come before the asks;
/// only after a message that was read whole is the book cut to its depth.
pub open spec fn after_message(book: BookModel, data: Level3Data) -> (BookModel, bool) {
    let (bids, bid_prices, bids_read) = told_orders(
        book.bids,
        book.prices,
        entries_of(data.bids),
    );
    let (asks, prices, asks_read) = told_orders(book.asks, bid_prices, entries_of(data.asks));
    if !bids_read {
        (BookModel { bids, asks: book.asks, prices: bid_prices }, false)
    } else if !asks_read {
        (BookModel { bids, asks, prices }, false)
    } else {
        (
            BookModel {
                bids: highest(bids, DEPTH as nat),
                asks: lowest(asks, DEPTH as nat),
                prices,
            },
            true,
        )
    }
}

/// A text without the zeros at its front.
pub open spec fn without_leading_zeros(s: Seq<char>) -> Seq<char>
    decreases s.len(),
{
    if s.len() > 0 && s[0] == '0' {
        without_leading_zeros(s.drop_first())
    } else {
        s
    }
}

/// The test for characters other than the point.
pub open spec fn no_point() -> spec_fn(char) -> bool {
    |c: char| c != '.'
}

/// A number as it enters the checksum: written, without its point, without zeros at its front.
pub open spec fn checksum_digits(d: Decimal) -> Seq<char> {
    without_leading_zeros(d.display().filter(no_point()))
}

/// An order as it enters the checksum.
pub open spec fn order_text(order: Order) -> Seq<char> {
    checksum_digits(order.limit_price) + checksum_digits(order.order_qty)
}

/// Orders as they enter the checksum.
pub open spec fn orders_text(orders: Seq<Order>) -> Seq<char>
    decreases orders.len(),
{
    if orders.len() == 0 {
        Seq::empty()
    } else {
        orders_text(orders.drop_last()) + order_text(orders.last())
    }
}

/// Levels as they enter the checksum.
pub open spec fn levels_text(levels: Levels) -> Seq<char>
    decreases levels.len(),
{
    if levels.len() == 0 {
        Seq::empty()
    } else {
        levels_text(levels.drop_last()) + orders_text(levels.last().1.orders)
    }
}

/// The text whose CRC is the checksum: the lowest asks upwards, then the highest bids downwards.
pub open spec fn checksum_source(book: BookModel) -> Seq<char> {
    levels_text(lowest(book.asks, DEPTH as nat)) + levels_text(
        highest(book.bids, DEPTH as nat).reverse(),
    )
}

/// Every order on these levels has numbers in range.
pub open spec fn levels_in_range(levels: Levels) -> bool {
    forall|i: int, j: int|
        0 <= i < levels.len() && 0 <= j < levels[i].1.orders.len() ==> (
        #[trigger] levels[i].1.orders[j]).in_range()
}

/// The prices are in range.
pub open spec fn prices_in_range(prices: Map<Seq<char>, Decimal>) -> bool {
    forall|id: Seq<char>| #[trigger] prices.dom().contains(id) ==> prices[id].in_range()
}

/// The CRC-32 of these bytes, as `crc32fast` computes it.
pub uninterp spec fn crc32_of(bytes: Seq<u8>) -> u32;

/// `crc32fast::Hasher`: `new`, one `update`, `finalize`. Trusted: the checksum depends on the
/// bytes alone.
#[verifier::external_body]
fn crc32(bytes: &[u8]) -> (r: u32)
    ensures
        r == crc32_of(bytes@),
{
    let mut hasher = crc32fast::Hasher::new();
    hasher.update(bytes);
    hasher.finalize()
}

/// A text without its points.
fn without_points(source: &str) -> (r: String)
    ensures
        r@ == source@.filter(no_point()),
{
    let mut r = String::new();
    proof {
        seqs::lemma_filter_none(source@, no_point());
    }
    for c in it: source.chars()
        invariant
            it.seq() == source@,
            r@ == source@.take(it.index()).filter(no_point()),
    {
        proof {
            seqs::lemma_filter_step(source@, no_point(), it.index());
        }
        if c != '.' {
            r.push(c);
        }
    }
    assert(source@.take(source@.len() as int) == source@);
    r
}

/// A text without the zeros at its front.
fn trim_zeros(source: &str) -> (r: String)
    ensures
        r@ == without_leading_zeros(source@),
{
    let mut r = String::new();
    let mut leading = true;
    assert(source@.take(0) =~= Seq::empty());
    assert(source@.skip(0) =~= source@);
    for c in it: source.chars()
        invariant
            it.seq() == source@,
            leading ==> r@ == Seq::<char>::empty() && without_leading_zeros(source@)
                == without_leading_zeros(source@.skip(it.index())),
            !leading ==> without_leading_zeros(source@) == r@ + source@.skip(it.index()),
    {
        proof {
            let i = it.index();
            assert(source@.skip(i)[0] == c);
            assert(source@.skip(i).drop_first() == source@.skip(i + 1));
            assert(source@.skip(i) =~= seq![c] + source@.skip(i + 1));
            assert(r@ + source@.skip(i) =~= r@.push(c) + source@.skip(i + 1));
        }
        if leading && c == '0' {
        } else {
            leading = false;
            r.push(c);
        }
    }
    assert(source@.skip(source@.len() as int) =~= Seq::empty());
    assert(without_leading_zeros(Seq::<char>::empty()) =~= Seq::empty());
    assert(r@ =~= without_leading_zeros(source@));
    r
}

/// An order as it enters the checksum.
pub fn format_for_checksum(price: &Decimal, qty: &Decimal) -> (r: String)
    requires
        price.in_range(),
        qty.in_range(),
    ensures
        r@ == checksum_digits(*price) + checksum_digits(*qty),
{
    let price_text = price.written();
    let price_digits = trim_zeros(without_points(price_text.as_str()).as_str());
    let qty_text = qty.written();
    let qty_digits = trim_zeros(without_points(qty_text.as_str()).as_str());
    let mut r = price_digits;
    r.append(qty_digits.as_str());
    r
}

/// The orders of a level as they enter the checksum, behind what is there.
fn append_orders(target: &mut String, orders: &Vec<Order>)
    requires
        forall|j: int| 0 <= j < orders@.len() ==> (#[trigger] orders@[j]).in_range(),
    ensures
        final(target)@ == old(target)@ + orders_text(orders@),
{
    let ghost start = target@;
    let n: usize = orders.len();
    assert(start + orders_text(orders@.take(0)) =~= start);
    for i in 0..n
        invariant
            n == orders@.len(),
            forall|j: int| 0 <= j < orders@.len() ==> (#[trigger] orders@[j]).in_range(),
            target@ == start + orders_text(orders@.take(i as int)),
    {
        let order = &orders[i];
        assert(order.in_range());
        let piece = format_for_checksum(&order.limit_price, &order.order_qty);
        target.append(piece.as_str());
        proof {
            assert(orders@.take(i + 1).drop_last() == orders@.take(i as int));
            assert(target@ =~= start + orders_text(orders@.take(i + 1)));
        }
    }
    assert(orders@.take(n as int) == orders@);
}

/// Takes the order of this id out of a list.
fn remove_order(orders: &mut Vec<Order>, id: &str)
    ensures
        final(orders)@ == old(orders)@.filter(other_order(id@)),
{
    let ghost before = orders@;
    proof {
        seqs::lemma_filter_none(before, other_order(id@));
    }
    let mut all: Vec<Order> = Vec::new();
    std::mem::swap(&mut all, orders);
    for order in it: all
        invariant
            it.seq() == before,
            orders@ == before.take(it.index()).filter(other_order(id@)),
    {
        proof {
            seqs::lemma_filter_step(before, other_order(id@), it.index());
        }
        if !same_text(order.order_id.as_str(), id) {
            orders.push(order);
        }
    }
    assert(before.take(before.len() as int) == before);
}

/// Removing an order keeps the levels in order and in range.
proof fn lemma_removed_in_range(levels: Levels, price: Decimal, id: Seq<char>)
    requires
        ladder::ascending(levels),
        levels_in_range(levels),
    ensures
        ladder::ascending(order_removed(levels, price, id)),
        levels_in_range(order_removed(levels, price, id)),
{
    let rank = price.rank();
    let after = order_removed(levels, price, id);
    ladder::lemma_slot_exists(levels, rank);
    if ladder::has_rank(levels, rank) {
        let at = ladder::slot(levels, rank);
        let kept = levels[at].1.orders.filter(other_order(id));
        assert forall|j: int| 0 <= j < kept.len() implies (#[trigger] kept[j]).in_range() by {
            seqs::lemma_filter_members(levels[at].1.orders, other_order(id), kept[j]);
            assert(kept.contains(kept[j]));
            let k = choose|k: int|
                0 <= k < levels[at].1.orders.len() && levels[at].1.orders[k] == kept[j];
            assert(levels[at].1.orders[k].in_range());
        }
        if kept.len() == 0 {
            ladder::lemma_removed_ascending(levels, rank);
            assert(after == ladder::removed(levels, rank));
            assert forall|i: int, j: int|
                0 <= i < after.len() && 0 <= j < after[i].1.orders.len() implies (
            #[trigger] after[i].1.orders[j]).in_range() by {
                let i0 = if i < at { i } else { i + 1 };
                assert(after[i] == levels[i0]);
                assert(levels[i0].1.orders[j].in_range());
            }
        } else {
            ladder::lemma_same_keys(levels, after);
            assert forall|i: int, j: int|
                0 <= i < after.len() && 0 <= j < after[i].1.orders.len() implies (
            #[trigger] after[i].1.orders[j]).in_range() by {
                if i == at {
                    assert(after[i].1.orders[j] == kept[j]);
                } else {
                    assert(levels[i].1.orders[j].in_range());
                }
            }
        }
    }
}

/// Putting an order keeps the levels in order and in range.
proof fn lemma_put_in_range(levels: Levels, order: Order)
    requires
        ladder::ascending(levels),
        levels_in_range(levels),
        order.in_range(),
    ensures
        ladder::ascending(order_put(levels, order)),
        levels_in_range(order_put(levels, order)),
{
    let after = order_put(levels, order);
    let rank = order.limit_price.rank();
    ladder::lemma_slot_exists(levels, rank);
    let at = ladder::slot(levels, rank);
    if ladder::has_rank(levels, rank) {
        ladder::lemma_same_keys(levels, after);
        assert forall|i: int, j: int|
            0 <= i < after.len() && 0 <= j < after[i].1.orders.len() implies (
        #[trigger] after[i].1.orders[j]).in_range() by {
            if i == at && j == levels[at].1.orders.len() {
            } else {
                assert(levels[i].1.orders[j].in_range());
            }
        }
    } else {
        let level = LevelModel { price: order.limit_price, orders: seq![order] };
        ladder::lemma_placed_ascending(levels, order.limit_price, level);
        assert(after == ladder::placed(levels, order.limit_price, level));
        assert forall|i: int, j: int|
            0 <= i < after.len() && 0 <= j < after[i].1.orders.len() implies (
        #[trigger] after[i].1.orders[j]).in_range() by {
            if i < at {
                assert(levels[i].1.orders[j].in_range());
            } else if i > at {
                assert(levels[i - 1].1.orders[j].in_range());
            }
        }
    }
}

/// Takes the order of this id out of the level at `price`.
fn remove_from_level(levels: &mut Ladder<Decimal, PriceLevel>, price: Decimal, id: &str)
    requires
        old(levels).wf(),
        price.in_range(),
    ensures
        final(levels).wf(),
        levels_of(final(levels)@) == order_removed(levels_of(old(levels)@), price, id@),
{
    let ghost before = levels@;
    proof {
        ladder::lemma_slot_exists(before, price.rank());
        ladder::lemma_same_keys(before, levels_of(before));
    }
    let mut emptied = false;
    match levels.get_mut(&price) {
        Some(level) => {
            remove_order(&mut level.orders, id);
            emptied = level.orders.len() == 0;
        },
        None => {},
    }
    let ghost middle = levels@;
    proof {
        ladder::lemma_same_keys(before, middle);
    }
    if emptied {
        levels.remove(&price);
    }
    proof {
        assert(levels_of(levels@) =~= order_removed(levels_of(before), price, id@));
    }
}

/// Puts an order behind the others at its price.
fn put_order(levels: &mut Ladder<Decimal, PriceLevel>, order: Order)
    requires
        old(levels).wf(),
        order.in_range(),
    ensures
        final(levels).wf(),
        levels_of(final(levels)@) == order_put(levels_of(old(levels)@), order),
{
    let ghost before = levels@;
    proof {
        ladder::lemma_slot_exists(before, order.limit_price.rank());
        ladder::lemma_same_keys(before, levels_of(before));
    }
    let price = order.limit_price;
    match levels.get_mut(&price) {
        Some(level) => {
            level.orders.push(order);
        },
        None => {
            let mut orders: Vec<Order> = Vec::new();
            orders.push(order);
            assert(orders@ =~= seq![order]);
            levels.insert(price, PriceLevel { price, orders });
        },
    }
    proof {
        if ladder::has_rank(before, price.rank()) {
            ladder::lemma_same_keys(before, levels@);
        }
        assert(levels_of(levels@) =~= order_put(levels_of(before), order));
    }
}

/// Takes in the orders of one side, up to the first that cannot be read.
fn take_in_orders(
    levels: &mut Ladder<Decimal, PriceLevel>,
    order_map: &mut StringMap<Decimal>,
    entries: &Vec<Option<Order>>,
) -> (r: Result<(), UnreadableOrder>)
    requires
        old(levels).wf(),
        levels_in_range(levels_of(old(levels)@)),
        old(order_map).wf(),
        prices_in_range(old(order_map)@),
        entries_in_range(entries@),
    ensures
        final(levels).wf(),
        levels_in_range(levels_of(final(levels)@)),
        final(order_map).wf(),
        prices_in_range(final(order_map)@),
        (levels_of(final(levels)@), final(order_map)@, r is Ok) == told_orders(
            levels_of(old(levels)@),
            old(order_map)@,
            entries@,
        ),
{
    let ghost start = (levels_of(levels@), order_map@);
    let n: usize = entries.len();
    assert(entries@.skip(0) == entries@);
    for i in 0..n
        invariant
            n == entries@.len(),
            entries_in_range(entries@),
            levels.wf(),
            levels_in_range(levels_of(levels@)),
            order_map.wf(),
            prices_in_range(order_map@),
            start == (levels_of(old(levels)@), old(order_map)@),
            told_orders(start.0, start.1, entries@) == told_orders(
                levels_of(levels@),
                order_map@,
                entries@.skip(i as int),
            ),
    {
        let entry = &entries[i];
        proof {
            let rest = entries@.skip(i as int);
            assert(rest[0] == *entry);
            assert(rest.drop_first() == entries@.skip(i + 1));
        }
        match entry {
            Some(order) => {
                let ghost known = order_map@;
                let ghost id = order.order_id@;
                let ghost cleared = order_cleared(levels_of(levels@), known, id);
                proof {
                    ladder::lemma_same_keys(levels@, levels_of(levels@));
                    if known.dom().contains(id) {
                        lemma_removed_in_range(levels_of(levels@), known[id], id);
                    }
                    lemma_put_in_range(cleared, *order);
                }
                let gone = order.order_qty.is_zero();
                let last_price = if gone {
                    order_map.remove(order.order_id.as_str())
                } else {
                    order_map.insert(order.order_id.clone(), order.limit_price)
                };
                match last_price {
                    Some(price) => {
                        remove_from_level(levels, price, order.order_id.as_str());
                    },
                    None => {},
                }
                assert(levels_of(levels@) == cleared);
                if !gone {
                    put_order(levels, order.clone());
                }
            },
            None => {
                return Err(UnreadableOrder);
            },
        }
    }
    assert(entries@.skip(n as int).len() == 0);
    Ok(())
}

impl View for KrakenLevel3OrderBook {
    type V = BookModel;

    closed spec fn view(&self) -> BookModel {
        BookModel {
            bids: levels_of(self.bids@),
            asks: levels_of(self.asks@),
            prices: self.order_map@,
        }
    }
}

impl KrakenLevel3OrderBook {
    pub closed spec fn parts_wf(&self) -> bool {
        self.bids.wf() && self.asks.wf() && self.order_map.wf()
    }

    /// The parts are well formed, and the numbers in range.
    pub open spec fn wf(&self) -> bool {
        &&& self.parts_wf()
        &&& ladder::ascending(self@.bids)
        &&& ladder::ascending(self@.asks)
        &&& levels_in_range(self@.bids)
        &&& levels_in_range(self@.asks)
        &&& prices_in_range(self@.prices)
    }

    pub fn new() -> (r: Self)
        ensures
            r.wf(),
            r@.bids == Seq::<(Decimal, LevelModel)>::empty(),
            r@.asks == Seq::<(Decimal, LevelModel)>::empty(),
            r@.prices == Map::<Seq<char>, Decimal>::empty(),
    {
        let r = KrakenLevel3OrderBook {
            bids: Ladder::new(),
            asks: Ladder::new(),
            order_map: StringMap::new(),
        };
        assert(r@.bids =~= Seq::empty());
        assert(r@.asks =~= Seq::empty());
        r
    }

    /// Takes in the orders of one side, up to the first that cannot be read.
    pub fn process_orders(&mut self, orders: &Vec<Option<Order>>, is_bid: bool) -> (r: Result<
        (),
        UnreadableOrder,
    >)
        requires
            old(self).wf(),
            entries_in_range(orders@),
        ensures
            final(self).wf(),
            (final(self)@, r is Ok) == side_told(old(self)@, orders@, is_bid),
    {
        let r = if is_bid {
            take_in_orders(&mut self.bids, &mut self.order_map, orders)
        } else {
            take_in_orders(&mut self.asks, &mut self.order_map, orders)
        };
        proof {
            ladder::lemma_same_keys(self.bids@, levels_of(self.bids@));
            ladder::lemma_same_keys(self.asks@, levels_of(self.asks@));
        }
        r
    }

    /// Takes in a message of the feed.
    pub fn update(&mut self, data: &Level3Data) -> (r: Result<(), UnreadableOrder>)
        requires
            old(self).wf(),
            data.in_range(),
        ensures
            final(self).wf(),
            (final(self)@, r is Ok) == after_message(old(self)@, *data),
    {
        if let Some(entries) = &data.bids {
            match self.process_orders(entries, true) {
                Ok(_) => {},
                Err(error) => {
                    return Err(error);
                },
            }
        }
        if let Some(entries) = &data.asks {
            match self.process_orders(entries, false) {
                Ok(_) => {},
                Err(error) => {
                    return Err(error);
                },
            }
        }
        self.truncate_to_depth(DEPTH);
        Ok(())
    }

    /// Keeps the `depth` highest bid and lowest ask levels.
    fn truncate_to_depth(&mut self, depth: usize)
        requires
            old(self).parts_wf(),
            levels_in_range(old(self)@.bids),
            levels_in_range(old(self)@.asks),
            prices_in_range(old(self)@.prices),
        ensures
            final(self).wf(),
            final(self)@ == (BookModel {
                bids: highest(old(self)@.bids, depth as nat),
                asks: lowest(old(self)@.asks, depth as nat),
                prices: old(self)@.prices,
            }),
    {
        self.bids.keep_highest(depth);
        self.asks.keep_lowest(depth);
        proof {
            ladder::lemma_same_keys(self.bids@, levels_of(self.bids@));
            ladder::lemma_same_keys(self.asks@, levels_of(self.asks@));
            assert(self@.bids =~= highest(old(self)@.bids, depth as nat));
            assert(self@.asks =~= lowest(old(self)@.asks, depth as nat));
            let gone = old(self)@.bids.len() - self@.bids.len();
            assert forall|i: int, j: int|
                0 <= i < self@.bids.len() && 0 <= j < self@.bids[i].1.orders.len() implies (
            #[trigger] self@.bids[i].1.orders[j]).in_range() by {
                assert(self@.bids[i] == old(self)@.bids[i + gone]);
                assert(old(self)@.bids[i + gone].1.orders[j].in_range());
            }
            assert forall|i: int, j: int|
                0 <= i < self@.asks.len() && 0 <= j < self@.asks[i].1.orders.len() implies (
            #[trigger] self@.asks[i].1.orders[j]).in_range() by {
                assert(self@.asks[i] == old(self)@.asks[i]);
                assert(old(self)@.asks[i].1.orders[j].in_range());
            }
        }
    }

    /// The text whose CRC is the checksum.
    pub fn checksum_text(&self) -> (r: String)
        requires
            self.wf(),
        ensures
            r@ == checksum_source(self@),
    {
        let mut r = String::new();
        let ask_count: usize = if self.asks.len() < DEPTH {
            self.asks.len()
        } else {
            DEPTH
        };
        let ghost asks = lowest(self@.asks, DEPTH as nat);
        assert(levels_text(asks.take(0)) =~= Seq::empty());
        for i in 0..ask_count
            invariant
                self.wf(),
                asks == lowest(self@.asks, DEPTH as nat),
                ask_count == asks.len(),
                ask_count <= self.asks@.len(),
                r@ == levels_text(asks.take(i as int)),
        {
            let level = self.asks.level(i);
            proof {
                assert(self@.asks[i as int] == (level.0, level.1@));
                assert forall|j: int| 0 <= j < level.1.orders@.len() implies (
                #[trigger] level.1.orders@[j]).in_range() by {
                    assert(self@.asks[i as int].1.orders[j].in_range());
                }
                assert(asks[i as int] == self@.asks[i as int]);
                assert(asks.take(i + 1).drop_last() == asks.take(i as int));
            }
            append_orders(&mut r, &level.1.orders);
        }
        assert(asks.take(ask_count as int) == asks);
        let n: usize = self.bids.len();
        let bid_count: usize = if n < DEPTH {
            n
        } else {
            DEPTH
        };
        let ghost bids = highest(self@.bids, DEPTH as nat).reverse();
        let ghost first = r@;
        assert(levels_text(bids.take(0)) =~= Seq::empty());
        assert(first + levels_text(bids.take(0)) =~= first);
        for i in 0..bid_count
            invariant
                self.wf(),
                n == self.bids@.len(),
                bids == highest(self@.bids, DEPTH as nat).reverse(),
                bid_count == bids.len(),
                bid_count <= n,
                r@ == first + levels_text(bids.take(i as int)),
        {
            let level = self.bids.level(n - 1 - i);
            proof {
                let k = n - 1 - i;
                assert(self@.bids[k] == (level.0, level.1@));
                assert forall|j: int| 0 <= j < level.1.orders@.len() implies (
                #[trigger] level.1.orders@[j]).in_range() by {
                    assert(self@.bids[k].1.orders[j].in_range());
                }
                assert(bids[i as int] == self@.bids[k]);
                assert(bids.take(i + 1).drop_last() == bids.take(i as int));
            }
            append_orders(&mut r, &level.1.orders);
            proof {
                assert(r@ =~= first + levels_text(bids.take(i + 1)));
            }
        }
        assert(bids.take(bid_count as int) == bids);
        r
    }

    /// The checksum of the book.
    pub fn calculate_checksum(&self) -> (r: u32)
        requires
            self.wf(),
        ensures
            r == crc32_of(vstd::utf8::encode_utf8(checksum_source(self@))),
    {
        let source = self.checksum_text();
        crc32(source.as_str().as_bytes())
    }
}

/// Decimal digits are no points, and the first of them is no zero.
proof fn lemma_digits(n: nat)
    ensures
        forall|i: int|
            0 <= i < text::digits(n).len() ==> '0' <= #[trigger] text::digits(n)[i] <= '9',
        n > 0 ==> text::digits(n).len() > 0 && text::digits(n)[0] != '0',
    decreases n,
{
    if n > 0 {
        lemma_digits(n / 10);
        let front = text::digits(n / 10);
        assert(text::digits(n) == front.push(text::digit_char(n % 10)));
        assert forall|i: int| 0 <= i < text::digits(n).len() implies '0' <= #[trigger] text::digits(
            n,
        )[i] <= '9' by {
            if i < front.len() {
                assert(text::digits(n)[i] == front[i]);
            }
        }
        if n / 10 > 0 {
            assert(text::digits(n)[0] == front[0]);
        } else {
            assert(front.len() == 0);
            assert(text::digits(n)[0] == text::digit_char(n));
        }
    }
}

/// A filter that every item passes keeps the whole sequence.
proof fn lemma_filter_all(s: Seq<char>)
    requires
        forall|i: int| 0 <= i < s.len() ==> #[trigger] s[i] != '.',
    ensures
        s.filter(no_point()) == s,
    decreases s.len(),
{
    reveal_with_fuel(Seq::filter, 2);
    if s.len() > 0 {
        lemma_filter_all(s.drop_last());
        assert(s[s.len() - 1] != '.');
        assert(s.drop_last().push(s.last()) =~= s);
    }
}

/// Zeros at the front fall away.
proof fn lemma_zeros_fall_away(k: nat, s: Seq<char>)
    requires
        s.len() == 0 || s[0] != '0',
    ensures
        without_leading_zeros(crate::decimal::zeros(k) + s) == s,
    decreases k,
{
    let all = crate::decimal::zeros(k) + s;
    if k == 0 {
        assert(all =~= s);
    } else {
        assert(all[0] == '0');
        assert(all.drop_first() =~= crate::decimal::zeros((k - 1) as nat) + s);
        lemma_zeros_fall_away((k - 1) as nat, s);
    }
}

/// Without its point a text is the two parts around it.
proof fn lemma_point_falls_away(front: Seq<char>, back: Seq<char>)
    requires
        forall|i: int| 0 <= i < front.len() ==> #[trigger] front[i] != '.',
        forall|i: int| 0 <= i < back.len() ==> #[trigger] back[i] != '.',
    ensures
        (front + seq!['.'] + back).filter(no_point()) == front + back,
{
    lemma_filter_all(front);
    lemma_filter_all(back);
    Seq::filter_distributes_over_add(front + seq!['.'], back, no_point());
    Seq::filter_distributes_over_add(front, seq!['.'], no_point());
    assert(seq!['.'].filter(no_point()) =~= Seq::empty()) by {
        reveal_with_fuel(Seq::filter, 2);
        assert(seq!['.'].drop_last() =~= Seq::<char>::empty());
    }
    assert(front + Seq::<char>::empty() =~= front);
}

/// The digits of a number are no points, and are zeros before the digits of its magnitude.
proof fn lemma_padded(d: Decimal) -> (missing: nat)
    ensures
        d.padded() == crate::decimal::zeros(missing) + text::digits(d.magnitude as nat),
        d.padded().len() > d.scale,
        forall|i: int| 0 <= i < d.padded().len() ==> #[trigger] d.padded()[i] != '.',
{
    let raw = text::digits(d.magnitude as nat);
    let all = d.padded();
    lemma_digits(d.magnitude as nat);
    let missing = if raw.len() <= d.scale {
        (d.scale + 1 - raw.len()) as nat
    } else {
        0
    };
    assert(all =~= crate::decimal::zeros(missing) + raw);
    assert forall|i: int| 0 <= i < all.len() implies #[trigger] all[i] != '.' by {
        if i >= missing {
            assert(all[i] == raw[i - missing]);
        }
    }
    missing
}

/// A number that is not negative is written as its digits, once its point is gone.
proof fn lemma_shown_digits(d: Decimal)
    requires
        !d.negative,
    ensures
        d.display().filter(no_point()) == d.padded(),
{
    let all = d.padded();
    let _ = lemma_padded(d);
    if d.scale == 0 {
        assert(d.display() =~= all);
        lemma_filter_all(all);
    } else {
        let whole = all.len() - d.scale;
        let front = all.take(whole);
        let back = all.skip(whole);
        assert forall|i: int| 0 <= i < front.len() implies #[trigger] front[i] != '.' by {
            assert(front[i] == all[i]);
        }
        assert forall|i: int| 0 <= i < back.len() implies #[trigger] back[i] != '.' by {
            assert(back[i] == all[i + whole]);
        }
        assert(d.display() =~= front + seq!['.'] + back);
        lemma_point_falls_away(front, back);
        assert(front + back =~= all);
    }
}

/// A number that is not negative enters the checksum as the plain digits of its magnitude: the
/// scale at which it is written makes no difference.
#[verifier::spinoff_prover]
pub proof fn law_checksum_digits(d: Decimal)
    requires
        !d.negative,
    ensures
        checksum_digits(d) == text::digits(d.magnitude as nat),
{
    let missing = lemma_padded(d);
    lemma_digits(d.magnitude as nat);
    if d.magnitude == 0 {
        assert(text::digits(0) =~= Seq::<char>::empty());
    }
    lemma_shown_digits(d);
    lemma_zeros_fall_away(missing, text::digits(d.magnitude as nat));
}

/// No order of this id rests on these levels.
pub open spec fn absent(levels: Levels, id: Seq<char>) -> bool {
    forall|i: int, j: int|
        0 <= i < levels.len() && 0 <= j < levels[i].1.orders.len() ==> (
        #[trigger] levels[i].1.orders[j]).order_id@ != id
}

/// An order that is put and then told to be gone, at whatever price, leaves the book as it was, if
/// its id is new.
pub proof fn law_put_then_gone(book: BookModel, order: Order, gone: Order, is_bid: bool)
    requires
        sound(if is_bid { book.bids } else { book.asks }),
        order.in_range(),
        order.order_qty.magnitude != 0,
        gone.order_id@ == order.order_id@,
        gone.order_qty.magnitude == 0,
        !book.prices.dom().contains(order.order_id@),
        absent(book.bids, order.order_id@),
        absent(book.asks, order.order_id@),
    ensures
        side_told(book, seq![Some(order)], is_bid).1,
        side_told(
            side_told(book, seq![Some(order)], is_bid).0,
            seq![Some(gone)],
            is_bid,
        ) == (book, true),
{
    let levels = if is_bid { book.bids } else { book.asks };
    lemma_put_then_gone(levels, book.prices, order, gone);
    lemma_told_one(levels, book.prices, order);
    let (put, known) = told_order(levels, book.prices, order);
    lemma_told_one(put, known, gone);
}

proof fn lemma_told_one(levels: Levels, prices: Map<Seq<char>, Decimal>, order: Order)
    ensures
        told_orders(levels, prices, seq![Some(order)]) == (
            told_order(levels, prices, order).0,
            told_order(levels, prices, order).1,
            true,
        ),
{
    reveal_with_fuel(told_orders, 2);
    assert(seq![Some(order)].drop_first() =~= Seq::<Option<Order>>::empty());
}

proof fn lemma_put_then_gone(
    levels: Levels,
    prices: Map<Seq<char>, Decimal>,
    order: Order,
    gone: Order,
)
    requires
        sound(levels),
        order.in_range(),
        order.order_qty.magnitude != 0,
        gone.order_id@ == order.order_id@,
        gone.order_qty.magnitude == 0,
        !prices.dom().contains(order.order_id@),
        absent(levels, order.order_id@),
    ensures
        ({
            let (put, known) = told_order(levels, prices, order);
            told_order(put, known, gone) == (levels, prices)
        }),
{
    let id = order.order_id@;
    let rank = order.limit_price.rank();
    let (put, known) = told_order(levels, prices, order);
    assert(known.remove(id) =~= prices);
    ladder::lemma_slot_exists(levels, rank);
    let at = ladder::slot(levels, rank);
    if ladder::has_rank(levels, rank) {
        ladder::lemma_same_keys(levels, put);
        let orders = levels[at].1.orders;
        lemma_others_stay(orders, id);
        assert(orders.push(order).drop_last() =~= orders);
        assert(orders.push(order).filter(other_order(id)) == orders) by {
            reveal_with_fuel(Seq::filter, 2);
        }
        assert(levels[at].1.orders.len() > 0);
        assert(order_removed(put, order.limit_price, id) =~= levels);
    } else {
        let level = LevelModel { price: order.limit_price, orders: seq![order] };
        assert(put == ladder::placed(levels, order.limit_price, level));
        ladder::law_placed_then_removed(levels, order.limit_price, level);
        ladder::lemma_placed_ascending(levels, order.limit_price, level);
        ladder::lemma_slot_of_level(put, at);
        assert(seq![order].filter(other_order(id)).len() == 0) by {
            reveal_with_fuel(Seq::filter, 2);
            assert(seq![order].drop_last() =~= Seq::<Order>::empty());
        }
        assert(order_removed(put, order.limit_price, id) == levels);
    }
}

proof fn lemma_others_stay(orders: Seq<Order>, id: Seq<char>)
    requires
        forall|j: int| 0 <= j < orders.len() ==> (#[trigger] orders[j]).order_id@ != id,
    ensures
        orders.filter(other_order(id)) == orders,
    decreases orders.len(),
{
    reveal_with_fuel(Seq::filter, 2);
    if orders.len() > 0 {
        let front = orders.drop_last();
        assert forall|j: int| 0 <= j < front.len() implies (#[trigger] front[j]).order_id@
            != id by {
            assert(front[j] == orders[j]);
        }
        lemma_others_stay(front, id);
        assert(orders[orders.len() - 1].order_id@ != id);
        assert(front.push(orders.last()) =~= orders);
    }
}

/// A message that was read whole leaves no side deeper than the book keeps.
pub proof fn law_depth(book: BookModel, data: Level3Data)
    ensures
        after_message(book, data).1 ==> after_message(book, data).0.bids.len() <= DEPTH
            && after_message(book, data).0.asks.len() <= DEPTH,
{
}

/// A side is sound: no level is empty, a level's price is that under which it is found, and the
/// orders at a level have that price and a quantity.
pub open spec fn sound(levels: Levels) -> bool {
    &&& ladder::ascending(levels)
    &&& forall|i: int|
        0 <= i < levels.len() ==> (#[trigger] levels[i]).1.orders.len() > 0 && levels[i].1.price
            == levels[i].0
    &&& forall|i: int, j: int|
        0 <= i < levels.len() && 0 <= j < levels[i].1.orders.len() ==> (
        #[trigger] levels[i].1.orders[j]).limit_price.rank() == levels[i].0.rank()
            && levels[i].1.orders[j].order_qty.magnitude != 0
}

/// An order that is told keeps a side sound.
pub proof fn law_told_order_keeps_sound(
    levels: Levels,
    prices: Map<Seq<char>, Decimal>,
    order: Order,
)
    requires
        sound(levels),
        order.in_range(),
    ensures
        sound(told_order(levels, prices, order).0),
{
    let id = order.order_id@;
    if prices.dom().contains(id) {
        lemma_removed_sound(levels, prices[id], id);
    }
    if order.order_qty.magnitude != 0 {
        lemma_put_sound(order_cleared(levels, prices, id), order);
    }
}

proof fn lemma_put_sound(levels: Levels, order: Order)
    requires
        sound(levels),
        order.in_range(),
        order.order_qty.magnitude != 0,
    ensures
        sound(order_put(levels, order)),
{
    let after = order_put(levels, order);
    let rank = order.limit_price.rank();
    ladder::lemma_slot_exists(levels, rank);
    let at = ladder::slot(levels, rank);
    if ladder::has_rank(levels, rank) {
        ladder::lemma_same_keys(levels, after);
        assert forall|i: int| 0 <= i < after.len() implies (#[trigger] after[i]).1.orders.len() > 0
            && after[i].1.price == after[i].0 by {
            assert(levels[i].1.orders.len() > 0);
        }
        assert forall|i: int, j: int|
            0 <= i < after.len() && 0 <= j < after[i].1.orders.len() implies (
        #[trigger] after[i].1.orders[j]).limit_price.rank() == after[i].0.rank()
            && after[i].1.orders[j].order_qty.magnitude != 0 by {
            if i == at && j == levels[at].1.orders.len() {
            } else {
                assert(levels[i].1.orders[j].order_qty.magnitude != 0);
            }
        }
    } else {
        let level = LevelModel { price: order.limit_price, orders: seq![order] };
        ladder::lemma_placed_ascending(levels, order.limit_price, level);
        assert(after == ladder::placed(levels, order.limit_price, level));
        assert forall|i: int| 0 <= i < after.len() implies (#[trigger] after[i]).1.orders.len() > 0
            && after[i].1.price == after[i].0 by {
            if i < at {
                assert(levels[i].1.orders.len() > 0);
            } else if i > at {
                assert(levels[i - 1].1.orders.len() > 0);
            }
        }
        assert forall|i: int, j: int|
            0 <= i < after.len() && 0 <= j < after[i].1.orders.len() implies (
        #[trigger] after[i].1.orders[j]).limit_price.rank() == after[i].0.rank()
            && after[i].1.orders[j].order_qty.magnitude != 0 by {
            if i < at {
                assert(levels[i].1.orders[j].order_qty.magnitude != 0);
            } else if i > at {
                assert(levels[i - 1].1.orders[j].order_qty.magnitude != 0);
            }
        }
    }
}

proof fn lemma_removed_sound(levels: Levels, price: Decimal, id: Seq<char>)
    requires
        sound(levels),
    ensures
        sound(order_removed(levels, price, id)),
{
    let after = order_removed(levels, price, id);
    let rank = price.rank();
    ladder::lemma_slot_exists(levels, rank);
    if ladder::has_rank(levels, rank) {
        let at = ladder::slot(levels, rank);
        let kept = levels[at].1.orders.filter(other_order(id));
        if kept.len() == 0 {
            ladder::lemma_removed_ascending(levels, rank);
            assert(after == ladder::removed(levels, rank));
            assert forall|i: int| 0 <= i < after.len() implies (
            #[trigger] after[i]).1.orders.len() > 0 && after[i].1.price == after[i].0 by {
                assert(after[i] == levels[if i < at { i } else { i + 1 }]);
            }
            assert forall|i: int, j: int|
                0 <= i < after.len() && 0 <= j < after[i].1.orders.len() implies (
            #[trigger] after[i].1.orders[j]).limit_price.rank() == after[i].0.rank()
                && after[i].1.orders[j].order_qty.magnitude != 0 by {
                let i0 = if i < at { i } else { i + 1 };
                assert(after[i] == levels[i0]);
                assert(levels[i0].1.orders[j].order_qty.magnitude != 0);
            }
        } else {
            ladder::lemma_same_keys(levels, after);
            assert forall|i: int| 0 <= i < after.len() implies (
            #[trigger] after[i]).1.orders.len() > 0 && after[i].1.price == after[i].0 by {
                assert(levels[i].1.orders.len() > 0);
            }
            assert forall|i: int, j: int|
                0 <= i < after.len() && 0 <= j < after[i].1.orders.len() implies (
            #[trigger] after[i].1.orders[j]).limit_price.rank() == after[i].0.rank()
                && after[i].1.orders[j].order_qty.magnitude != 0 by {
                if i == at {
                    seqs::lemma_filter_members(levels[at].1.orders, other_order(id), kept[j]);
                    assert(kept.contains(kept[j]));
                    let k = choose|k: int|
                        0 <= k < levels[at].1.orders.len() && levels[at].1.orders[k] == kept[j];
                    assert(levels[at].1.orders[k].order_qty.magnitude != 0);
                } else {
                    assert(levels[i].1.orders[j].order_qty.magnitude != 0);
                }
            }
        }
    }
}

/// Orders that are told one after the other keep a side sound.
pub proof fn law_told_orders_keep_sound(
    levels: Levels,
    prices: Map<Seq<char>, Decimal>,
    entries: Seq<Option<Order>>,
)
    requires
        sound(levels),
        entries_in_range(entries),
    ensures
        sound(told_orders(levels, prices, entries).0),
    decreases entries.len(),
{
    if entries.len() > 0 {
        match entries[0] {
            Some(order) => {
                law_told_order_keeps_sound(levels, prices, order);
                let (next, known) = told_order(levels, prices, order);
                let rest = entries.drop_first();
                assert forall|i: int| 0 <= i < rest.len() implies ((#[trigger] rest[i]) matches Some(
                    o,
                ) ==> o.in_range()) by {
                    assert(rest[i] == entries[i + 1]);
                }
                law_told_orders_keep_sound(next, known, rest);
            },
            None => {},
        }
    }
}

/// A message keeps both sides sound, whether it was read whole or not.
pub proof fn law_message_keeps_sound(book: BookModel, data: Level3Data)
    requires
        sound(book.bids),
        sound(book.asks),
        data.in_range(),
    ensures
        sound(after_message(book, data).0.bids),
        sound(after_message(book, data).0.asks),
{
    law_told_orders_keep_sound(book.bids, book.prices, entries_of(data.bids));
    let (bids, bid_prices, _) = told_orders(book.bids, book.prices, entries_of(data.bids));
    law_told_orders_keep_sound(book.asks, bid_prices, entries_of(data.asks));
    let (asks, _, _) = told_orders(book.asks, bid_prices, entries_of(data.asks));
    lemma_part_sound(bids, if bids.len() > DEPTH { bids.len() - DEPTH } else { 0 }, bids.len() as int);
    lemma_part_sound(asks, 0, if asks.len() > DEPTH { DEPTH as int } else { asks.len() as int });
    assert(highest(bids, DEPTH as nat) =~= bids.subrange(
        if bids.len() > DEPTH { bids.len() - DEPTH } else { 0 },
        bids.len() as int,
    ));
    assert(lowest(asks, DEPTH as nat) =~= asks.subrange(
        0,
        if asks.len() > DEPTH { DEPTH as int } else { asks.len() as int },
    ));
}

proof fn lemma_part_sound(levels: Levels, from: int, to: int)
    requires
        sound(levels),
        0 <= from <= to <= levels.len(),
    ensures
        sound(levels.subrange(from, to)),
{
    let part = levels.subrange(from, to);
    assert forall|i: int| 0 <= i < part.len() implies (#[trigger] part[i]).0.valid() by {
        assert(part[i] == levels[i + from]);
    }
    assert forall|i: int, j: int| 0 <= i < j < part.len() implies (#[trigger] part[i]).0.rank() < (
    #[trigger] part[j]).0.rank() by {
        assert(part[i] == levels[i + from] && part[j] == levels[j + from]);
    }
    assert forall|i: int| 0 <= i < part.len() implies (#[trigger] part[i]).1.orders.len() > 0
        && part[i].1.price == part[i].0 by {
        assert(part[i] == levels[i + from]);
    }
    assert forall|i: int, j: int|
        0 <= i < part.len() && 0 <= j < part[i].1.orders.len() implies (
    #[trigger] part[i].1.orders[j]).limit_price.rank() == part[i].0.rank()
        && part[i].1.orders[j].order_qty.magnitude != 0 by {
        assert(part[i] == levels[i + from]);
        assert(levels[i + from].1.orders[j].order_qty.magnitude != 0);
    }
}

/// No id occurs twice among these orders.
pub open spec fn distinct_ids(orders: Seq<Order>) -> bool {
    forall|a: int, b: int|
        0 <= a < b < orders.len() ==> (#[trigger] orders[a]).order_id@ != (
        #[trigger] orders[b]).order_id@
}

/// A side is tracked: no id occurs twice at a level, and every order rests at the price at which
/// it is known to have been put last.
pub open spec fn tracked_by(levels: Levels, prices: Map<Seq<char>, Decimal>) -> bool {
    &&& forall|i: int| 0 <= i < levels.len() ==> distinct_ids((#[trigger] levels[i]).1.orders)
    &&& forall|i: int, j: int|
        0 <= i < levels.len() && 0 <= j < levels[i].1.orders.len() ==> prices.dom().contains(
            (#[trigger] levels[i].1.orders[j]).order_id@,
        ) && prices[levels[i].1.orders[j].order_id@].rank() == levels[i].0.rank()
}

/// No id rests twice on these levels.
pub open spec fn no_id_twice(levels: Levels) -> bool {
    forall|i: int, j: int, k: int, l: int|
        0 <= i < levels.len() && 0 <= j < levels[i].1.orders.len() && 0 <= k < levels.len() && 0
            <= l < levels[k].1.orders.len() && (#[trigger] levels[i].1.orders[j]).order_id@ == (
        #[trigger] levels[k].1.orders[l]).order_id@ ==> i == k && j == l
}

/// On a tracked side no id rests twice.
pub proof fn law_tracked_side_holds_no_id_twice(levels: Levels, prices: Map<Seq<char>, Decimal>)
    requires
        ladder::ascending(levels),
        tracked_by(levels, prices),
    ensures
        no_id_twice(levels),
{
    assert forall|i: int, j: int, k: int, l: int|
        0 <= i < levels.len() && 0 <= j < levels[i].1.orders.len() && 0 <= k < levels.len() && 0
            <= l < levels[k].1.orders.len() && (#[trigger] levels[i].1.orders[j]).order_id@ == (
        #[trigger] levels[k].1.orders[l]).order_id@ implies i == k && j == l by {
        assert(levels[i].0.rank() == levels[k].0.rank());
        if i < k {
            assert(levels[i].0.rank() < levels[k].0.rank());
        } else if k < i {
            assert(levels[k].0.rank() < levels[i].0.rank());
        }
        assert(distinct_ids(levels[i].1.orders));
    }
}

proof fn lemma_others_distinct(orders: Seq<Order>, id: Seq<char>)
    requires
        distinct_ids(orders),
    ensures
        distinct_ids(orders.filter(other_order(id))),
        forall|j: int|
            0 <= j < orders.filter(other_order(id)).len() ==> {
                let order = #[trigger] orders.filter(other_order(id))[j];
                order.order_id@ != id && orders.contains(order)
            },
    decreases orders.len(),
{
    reveal_with_fuel(Seq::filter, 2);
    let kept = orders.filter(other_order(id));
    assert forall|j: int| 0 <= j < kept.len() implies {
        let order = #[trigger] kept[j];
        order.order_id@ != id && orders.contains(order)
    } by {
        seqs::lemma_filter_members(orders, other_order(id), kept[j]);
        assert(kept.contains(kept[j]));
    }
    if orders.len() > 0 {
        let front = orders.drop_last();
        assert forall|a: int, b: int| 0 <= a < b < front.len() implies (
        #[trigger] front[a]).order_id@ != (#[trigger] front[b]).order_id@ by {
            assert(front[a] == orders[a] && front[b] == orders[b]);
        }
        lemma_others_distinct(front, id);
        let rest = front.filter(other_order(id));
        assert forall|a: int, b: int| 0 <= a < b < kept.len() implies (
        #[trigger] kept[a]).order_id@ != (#[trigger] kept[b]).order_id@ by {
            if b < rest.len() {
                assert(kept[a] == rest[a] && kept[b] == rest[b]);
            } else {
                assert(kept[b] == orders.last() && kept[a] == rest[a]);
                assert(front.contains(rest[a]));
                let k = choose|k: int| 0 <= k < front.len() && front[k] == rest[a];
                assert(orders[k].order_id@ != orders[orders.len() - 1].order_id@);
            }
        }
    }
}

/// An order that leaves the level at which it was last put rests nowhere on a tracked side, which
/// stays tracked.
proof fn lemma_cleared_tracked(levels: Levels, prices: Map<Seq<char>, Decimal>, id: Seq<char>)
    requires
        ladder::ascending(levels),
        tracked_by(levels, prices),
    ensures
        tracked_by(order_cleared(levels, prices, id), prices),
        absent(order_cleared(levels, prices, id), id),
{
    let after = order_cleared(levels, prices, id);
    if prices.dom().contains(id) {
        let rank = prices[id].rank();
        ladder::lemma_slot_exists(levels, rank);
        assert forall|i: int, j: int|
            0 <= i < levels.len() && 0 <= j < levels[i].1.orders.len() && (
            #[trigger] levels[i].1.orders[j]).order_id@ == id implies ladder::has_rank(levels, rank)
            && i == ladder::slot(levels, rank) by {
            assert(levels[i].0.rank() == rank);
            ladder::lemma_slot_of_level(levels, i);
        }
        if ladder::has_rank(levels, rank) {
            let at = ladder::slot(levels, rank);
            let orders = levels[at].1.orders;
            let kept = orders.filter(other_order(id));
            assert(distinct_ids(levels[at].1.orders));
            lemma_others_distinct(orders, id);
            assert forall|i: int| 0 <= i < after.len() implies distinct_ids(
                (#[trigger] after[i]).1.orders,
            ) by {
                let i0 = if kept.len() == 0 && i >= at { i + 1 } else { i };
                assert(distinct_ids(levels[i0].1.orders));
            }
            assert forall|i: int, j: int|
                0 <= i < after.len() && 0 <= j < after[i].1.orders.len() implies {
                let order = #[trigger] after[i].1.orders[j];
                order.order_id@ != id && prices.dom().contains(order.order_id@)
                    && prices[order.order_id@].rank() == after[i].0.rank()
            } by {
                if kept.len() > 0 && i == at {
                    assert(after[i].1.orders[j] == kept[j]);
                    assert(orders.contains(kept[j]));
                    let k = choose|k: int| 0 <= k < orders.len() && orders[k] == kept[j];
                    assert(levels[at].1.orders[k] == kept[j]);
                } else {
                    let i0 = if kept.len() == 0 && i >= at { i + 1 } else { i };
                    assert(after[i] == levels[i0]);
                    assert(levels[i0].1.orders[j] == after[i].1.orders[j]);
                }
            }
        }
    }
}

/// An order that is told keeps a side tracked: one that is told again under another price leaves
/// its old one.
pub proof fn law_told_order_keeps_tracked(
    levels: Levels,
    prices: Map<Seq<char>, Decimal>,
    order: Order,
)
    requires
        sound(levels),
        tracked_by(levels, prices),
        order.in_range(),
    ensures
        tracked_by(told_order(levels, prices, order).0, told_order(levels, prices, order).1),
{
    let id = order.order_id@;
    let cleared = order_cleared(levels, prices, id);
    let (after, known) = told_order(levels, prices, order);
    lemma_cleared_tracked(levels, prices, id);
    if prices.dom().contains(id) {
        lemma_removed_sound(levels, prices[id], id);
    }
    if order.order_qty.magnitude != 0 {
        let rank = order.limit_price.rank();
        ladder::lemma_slot_exists(cleared, rank);
        let at = ladder::slot(cleared, rank);
        let there = ladder::has_rank(cleared, rank);
        assert forall|i: int| 0 <= i < after.len() implies distinct_ids(
            (#[trigger] after[i]).1.orders,
        ) by {
            if i == at {
                if there {
                    assert(distinct_ids(cleared[at].1.orders));
                    let orders = cleared[at].1.orders;
                    assert forall|a: int, b: int| 0 <= a < b < after[at].1.orders.len() implies (
                    #[trigger] after[at].1.orders[a]).order_id@ != (
                    #[trigger] after[at].1.orders[b]).order_id@ by {
                        assert(after[at].1.orders[a] == cleared[at].1.orders[a]);
                        if b < orders.len() {
                            assert(after[at].1.orders[b] == orders[b]);
                            assert(orders[a].order_id@ != orders[b].order_id@);
                        }
                    }
                }
            } else {
                let i0 = if !there && i > at { i - 1 } else { i };
                assert(after[i] == cleared[i0]);
            }
        }
        assert forall|i: int, j: int|
            0 <= i < after.len() && 0 <= j < after[i].1.orders.len() implies known.dom().contains(
            (#[trigger] after[i].1.orders[j]).order_id@,
        ) && known[after[i].1.orders[j].order_id@].rank() == after[i].0.rank() by {
            if i == at && (!there || j == cleared[at].1.orders.len()) {
                assert(after[i].1.orders[j] == order);
            } else {
                let i0 = if !there && i > at { i - 1 } else { i };
                assert(after[i].1.orders[j] == cleared[i0].1.orders[j]);
                assert(cleared[i0].1.orders[j].order_id@ != id);
            }
        }
    } else {
        lemma_tracked_elsewhere(cleared, prices, id);
    }
}

/// What becomes known of an order that does not rest on a side leaves the side tracked.
proof fn lemma_tracked_elsewhere(levels: Levels, prices: Map<Seq<char>, Decimal>, id: Seq<char>)
    requires
        tracked_by(levels, prices),
        absent(levels, id),
    ensures
        tracked_by(levels, prices.remove(id)),
        forall|price: Decimal| tracked_by(levels, #[trigger] prices.insert(id, price)),
{
    assert forall|price: Decimal| tracked_by(levels, #[trigger] prices.insert(id, price)) by {
        assert forall|i: int, j: int|
            0 <= i < levels.len() && 0 <= j < levels[i].1.orders.len() implies prices.insert(
            id,
            price,
        ).dom().contains((#[trigger] levels[i].1.orders[j]).order_id@) && prices.insert(
            id,
            price,
        )[levels[i].1.orders[j].order_id@].rank() == levels[i].0.rank() by {
            assert(levels[i].1.orders[j].order_id@ != id);
        }
    }
    assert forall|i: int, j: int|
        0 <= i < levels.len() && 0 <= j < levels[i].1.orders.len() implies prices.remove(
        id,
    ).dom().contains((#[trigger] levels[i].1.orders[j]).order_id@) && prices.remove(
        id,
    )[levels[i].1.orders[j].order_id@].rank() == levels[i].0.rank() by {
        assert(levels[i].1.orders[j].order_id@ != id);
    }
}

/// No entry tells of this id.
pub open spec fn untold(entries: Seq<Option<Order>>, id: Seq<char>) -> bool {
    forall|k: int|
        0 <= k < entries.len() ==> ((#[trigger] entries[k]) matches Some(order) ==> order.order_id@
            != id)
}

/// No entry tells of an id that rests on these levels.
pub open spec fn all_absent(levels: Levels, entries: Seq<Option<Order>>) -> bool {
    forall|k: int|
        0 <= k < entries.len() ==> ((#[trigger] entries[k]) matches Some(order) ==> absent(
            levels,
            order.order_id@,
        ))
}

proof fn lemma_rest_in_range(entries: Seq<Option<Order>>)
    requires
        entries.len() > 0,
        entries_in_range(entries),
    ensures
        entries_in_range(entries.drop_first()),
{
    let rest = entries.drop_first();
    assert forall|i: int| 0 <= i < rest.len() implies ((#[trigger] rest[i]) matches Some(o)
        ==> o.in_range()) by {
        assert(rest[i] == entries[i + 1]);
    }
}

/// Orders that are told one after the other keep a side tracked, so that no id rests twice on it.
pub proof fn law_told_orders_keep_tracked(
    levels: Levels,
    prices: Map<Seq<char>, Decimal>,
    entries: Seq<Option<Order>>,
)
    requires
        sound(levels),
        tracked_by(levels, prices),
        entries_in_range(entries),
    ensures
        ({
            let (after, known, _) = told_orders(levels, prices, entries);
            tracked_by(after, known) && no_id_twice(after)
        }),
    decreases entries.len(),
{
    if entries.len() > 0 && entries[0] is Some {
        let order = entries[0]->0;
        law_told_order_keeps_tracked(levels, prices, order);
        law_told_order_keeps_sound(levels, prices, order);
        lemma_rest_in_range(entries);
        let (next, known) = told_order(levels, prices, order);
        law_told_orders_keep_tracked(next, known, entries.drop_first());
    } else {
        law_tracked_side_holds_no_id_twice(levels, prices);
    }
}

/// Orders of which none rests on another side keep that side tracked.
proof fn lemma_other_side_tracked(
    levels: Levels,
    prices: Map<Seq<char>, Decimal>,
    entries: Seq<Option<Order>>,
    other: Levels,
)
    requires
        tracked_by(other, prices),
        all_absent(other, entries),
    ensures
        tracked_by(other, told_orders(levels, prices, entries).1),
    decreases entries.len(),
{
    if entries.len() > 0 && entries[0] is Some {
        let order = entries[0]->0;
        let (next, known) = told_order(levels, prices, order);
        assert(absent(other, order.order_id@));
        lemma_tracked_elsewhere(other, prices, order.order_id@);
        let rest = entries.drop_first();
        assert forall|k: int| 0 <= k < rest.len() implies ((#[trigger] rest[k]) matches Some(o)
            ==> absent(other, o.order_id@)) by {
            assert(rest[k] == entries[k + 1]);
        }
        lemma_other_side_tracked(next, known, rest, other);
    }
}

/// An id that neither rests on a side nor is told does not come to rest on it.
proof fn lemma_stays_absent(
    levels: Levels,
    prices: Map<Seq<char>, Decimal>,
    entries: Seq<Option<Order>>,
    id: Seq<char>,
)
    requires
        sound(levels),
        entries_in_range(entries),
        absent(levels, id),
        untold(entries, id),
    ensures
        absent(told_orders(levels, prices, entries).0, id),
    decreases entries.len(),
{
    if entries.len() > 0 && entries[0] is Some {
        let order = entries[0]->0;
        let told = order.order_id@;
        let cleared = order_cleared(levels, prices, told);
        let (next, known) = told_order(levels, prices, order);
        if prices.dom().contains(told) {
            lemma_removed_sound(levels, prices[told], told);
            ladder::lemma_slot_exists(levels, prices[told].rank());
        }
        assert(absent(cleared, id)) by {
            assert forall|i: int, j: int|
                0 <= i < cleared.len() && 0 <= j < cleared[i].1.orders.len() implies (
            #[trigger] cleared[i].1.orders[j]).order_id@ != id by {
                if prices.dom().contains(told) && ladder::has_rank(levels, prices[told].rank()) {
                    let at = ladder::slot(levels, prices[told].rank());
                    let orders = levels[at].1.orders;
                    let kept = orders.filter(other_order(told));
                    if kept.len() > 0 && i == at {
                        seqs::lemma_filter_members(orders, other_order(told), kept[j]);
                        assert(kept.contains(kept[j]));
                        let k = choose|k: int| 0 <= k < orders.len() && orders[k] == kept[j];
                        assert(levels[at].1.orders[k].order_id@ != id);
                    } else {
                        let i0 = if kept.len() == 0 && i >= at { i + 1 } else { i };
                        assert(cleared[i] == levels[i0]);
                        assert(levels[i0].1.orders[j].order_id@ != id);
                    }
                } else {
                    assert(levels[i].1.orders[j].order_id@ != id);
                }
            }
        }
        assert(absent(next, id)) by {
            if order.order_qty.magnitude != 0 {
                let rank = order.limit_price.rank();
                ladder::lemma_slot_exists(cleared, rank);
                let at = ladder::slot(cleared, rank);
                let there = ladder::has_rank(cleared, rank);
                assert forall|i: int, j: int|
                    0 <= i < next.len() && 0 <= j < next[i].1.orders.len() implies (
                #[trigger] next[i].1.orders[j]).order_id@ != id by {
                    if i == at && (!there || j == cleared[at].1.orders.len()) {
                        assert(next[i].1.orders[j] == order);
                    } else {
                        let i0 = if !there && i > at { i - 1 } else { i };
                        assert(next[i].1.orders[j] == cleared[i0].1.orders[j]);
                        assert(cleared[i0].1.orders[j].order_id@ != id);
                    }
                }
            }
        }
        law_told_order_keeps_sound(levels, prices, order);
        lemma_rest_in_range(entries);
        let rest = entries.drop_first();
        assert forall|k: int| 0 <= k < rest.len() implies ((#[trigger] rest[k]) matches Some(o)
            ==> o.order_id@ != id) by {
            assert(rest[k] == entries[k + 1]);
        }
        lemma_stays_absent(next, known, rest, id);
    }
}

/// No id of a message rests on one side and is told of the other, or is told of both.
pub open spec fn keeps_sides_apart(book: BookModel, data: Level3Data) -> bool {
    &&& all_absent(book.asks, entries_of(data.bids))
    &&& all_absent(book.bids, entries_of(data.asks))
    &&& forall|k: int|
        0 <= k < entries_of(data.asks).len() ==> ((#[trigger] entries_of(data.asks)[k]) matches Some(
            order,
        ) ==> untold(entries_of(data.bids), order.order_id@))
}

/// A message whose orders keep to their sides leaves both sides tracked, so that no id rests twice
/// on either, whether the message was read whole or not.
pub proof fn law_message_keeps_ids_single(book: BookModel, data: Level3Data)
    requires
        sound(book.bids),
        sound(book.asks),
        tracked_by(book.bids, book.prices),
        tracked_by(book.asks, book.prices),
        data.in_range(),
        keeps_sides_apart(book, data),
    ensures
        ({
            let after = after_message(book, data).0;
            &&& tracked_by(after.bids, after.prices)
            &&& tracked_by(after.asks, after.prices)
            &&& no_id_twice(after.bids)
            &&& no_id_twice(after.asks)
        }),
{
    let bid_entries = entries_of(data.bids);
    let ask_entries = entries_of(data.asks);
    let (bids, bid_prices, _) = told_orders(book.bids, book.prices, bid_entries);
    let (asks, prices, _) = told_orders(book.asks, bid_prices, ask_entries);
    law_told_orders_keep_tracked(book.bids, book.prices, bid_entries);
    law_told_orders_keep_sound(book.bids, book.prices, bid_entries);
    lemma_other_side_tracked(book.bids, book.prices, bid_entries, book.asks);
    law_told_orders_keep_tracked(book.asks, bid_prices, ask_entries);
    law_told_orders_keep_sound(book.asks, bid_prices, ask_entries);
    assert forall|k: int| 0 <= k < ask_entries.len() implies ((#[trigger] ask_entries[k]) matches Some(
        order,
    ) ==> absent(bids, order.order_id@)) by {
        if let Some(order) = ask_entries[k] {
            assert(absent(book.bids, order.order_id@));
            lemma_stays_absent(book.bids, book.prices, bid_entries, order.order_id@);
        }
    }
    lemma_other_side_tracked(book.asks, bid_prices, ask_entries, bids);
    law_tracked_side_holds_no_id_twice(book.asks, bid_prices);
    let from = if bids.len() > DEPTH { bids.len() - DEPTH } else { 0 };
    let to = if asks.len() > DEPTH { DEPTH as int } else { asks.len() as int };
    lemma_part_tracked(bids, prices, from, bids.len() as int);
    lemma_part_tracked(asks, prices, 0, to);
    assert(highest(bids, DEPTH as nat) =~= bids.subrange(from, bids.len() as int));
    assert(lowest(asks, DEPTH as nat) =~= asks.subrange(0, to));
}

proof fn lemma_part_tracked(
    levels: Levels,
    prices: Map<Seq<char>, Decimal>,
    from: int,
    to: int,
)
    requires
        sound(levels),
        tracked_by(levels, prices),
        0 <= from <= to <= levels.len(),
    ensures
        tracked_by(levels.subrange(from, to), prices),
        no_id_twice(levels.subrange(from, to)),
{
    let part = levels.subrange(from, to);
    lemma_part_sound(levels, from, to);
    assert forall|i: int| 0 <= i < part.len() implies distinct_ids(
        (#[trigger] part[i]).1.orders,
    ) by {
        assert(part[i] == levels[i + from]);
    }
    assert forall|i: int, j: int|
        0 <= i < part.len() && 0 <= j < part[i].1.orders.len() implies prices.dom().contains(
        (#[trigger] part[i].1.orders[j]).order_id@,
    ) && prices[part[i].1.orders[j].order_id@].rank() == part[i].0.rank() by {
        assert(part[i] == levels[i + from]);
        assert(levels[i + from].1.orders[j] == part[i].1.orders[j]);
    }
    law_tracked_side_holds_no_id_twice(part, prices);
}

/// Entries count one by one: those of two lists in a row are told as the second list after the
/// first, if the first could be read whole.
pub proof fn law_entries_in_a_row(
    levels: Levels,
    prices: Map<Seq<char>, Decimal>,
    first: Seq<Option<Order>>,
    second: Seq<Option<Order>>,
)
    requires
        forall|k: int| 0 <= k < first.len() ==> (#[trigger] first[k]) is Some,
    ensures
        told_orders(levels, prices, first + second) == told_orders(
            told_orders(levels, prices, first).0,
            told_orders(levels, prices, first).1,
            second,
        ),
    decreases first.len(),
{
    let all = first + second;
    if first.len() == 0 {
        assert(all =~= second);
    } else {
        assert(first[0] is Some);
        assert(all[0] == first[0]);
        let rest = first.drop_first();
        assert(all.drop_first() =~= rest + second);
        assert forall|k: int| 0 <= k < rest.len() implies (#[trigger] rest[k]) is Some by {
            assert(rest[k] == first[k + 1]);
        }
        let (next, known) = told_order(levels, prices, first[0]->0);
        law_entries_in_a_row(next, known, rest, second);
    }
}

/// A list is read whole exactly where each of its entries can be read.
pub proof fn law_read_whole(
    levels: Levels,
    prices: Map<Seq<char>, Decimal>,
    entries: Seq<Option<Order>>,
)
    ensures
        told_orders(levels, prices, entries).2 <==> (forall|k: int|
            0 <= k < entries.len() ==> (#[trigger] entries[k]) is Some),
    decreases entries.len(),
{
    if entries.len() > 0 && entries[0] is Some {
        let rest = entries.drop_first();
        let (next, known) = told_order(levels, prices, entries[0]->0);
        law_read_whole(next, known, rest);
        assert forall|k: int| 0 <= k < rest.len() implies #[trigger] rest[k] == entries[k + 1] by {}
        if forall|k: int| 0 <= k < rest.len() ==> (#[trigger] rest[k]) is Some {
            assert forall|k: int| 0 <= k < entries.len() implies (#[trigger] entries[k]) is Some by {
                if k > 0 {
                    assert(rest[k - 1] == entries[k]);
                }
            }
        }
        if forall|k: int| 0 <= k < entries.len() ==> (#[trigger] entries[k]) is Some {
            assert forall|k: int| 0 <= k < rest.len() implies (#[trigger] rest[k]) is Some by {
                assert(entries[k + 1] is Some);
            }
        }
    }
}

/// The first entry that cannot be read stops the list: those before it count, and those after it do
/// not.
pub proof fn law_unreadable_entry_stops(
    levels: Levels,
    prices: Map<Seq<char>, Decimal>,
    entries: Seq<Option<Order>>,
    k: int,
)
    requires
        0 <= k < entries.len(),
        entries[k] is None,
        forall|j: int| 0 <= j < k ==> (#[trigger] entries[j]) is Some,
    ensures
        !told_orders(levels, prices, entries).2,
        told_orders(levels, prices, entries).0 == told_orders(levels, prices, entries.take(k)).0,
        told_orders(levels, prices, entries).1 == told_orders(levels, prices, entries.take(k)).1,
{
    let first = entries.take(k);
    let second = entries.skip(k);
    assert forall|j: int| 0 <= j < first.len() implies (#[trigger] first[j]) is Some by {
        assert(entries[j] is Some);
    }
    assert(first + second =~= entries);
    assert(second[0] == entries[k]);
    law_entries_in_a_row(levels, prices, first, second);
}

/// The orders at a price, the oldest first; none where there is no level.
pub open spec fn orders_at(levels: Levels, rank: int) -> Seq<Order> {
    match ladder::value_at(levels, rank) {
        Some(level) => level.orders,
        None => Seq::empty(),
    }
}

/// Whether an order rests on a side, at its price.
pub open spec fn rests(levels: Levels, order: Order) -> bool {
    orders_at(levels, order.limit_price.rank()).contains(order)
}

/// Of orders without those of an id the others are left, in their order.
pub proof fn law_other_orders(orders: Seq<Order>, last: Order, id: Seq<char>)
    ensures
        Seq::<Order>::empty().filter(other_order(id)).len() == 0,
        orders.push(last).filter(other_order(id)) == (if last.order_id@ != id {
            orders.filter(other_order(id)).push(last)
        } else {
            orders.filter(other_order(id))
        }),
{
    reveal_with_fuel(Seq::filter, 2);
    assert(orders.push(last).drop_last() =~= orders);
}

proof fn lemma_orders_removed(levels: Levels, price: Decimal, id: Seq<char>, rank: int)
    requires
        sound(levels),
    ensures
        orders_at(order_removed(levels, price, id), rank) == (if rank == price.rank() {
            orders_at(levels, rank).filter(other_order(id))
        } else {
            orders_at(levels, rank)
        }),
{
    let after = order_removed(levels, price, id);
    reveal_with_fuel(Seq::filter, 1);
    ladder::lemma_slot_exists(levels, price.rank());
    ladder::lemma_slot_exists(levels, rank);
    if ladder::has_rank(levels, price.rank()) {
        let at = ladder::slot(levels, price.rank());
        let kept = levels[at].1.orders.filter(other_order(id));
        if kept.len() == 0 {
            assert(after == ladder::removed(levels, price.rank()));
            ladder::law_removed_value_at(levels, price.rank(), rank);
            assert(kept =~= Seq::empty());
        } else {
            ladder::lemma_same_keys(levels, after);
            assert(ladder::has_rank(after, rank) == ladder::has_rank(levels, rank));
            assert(ladder::slot(after, rank) == ladder::slot(levels, rank));
        }
    } else {
        assert(Seq::<Order>::empty().filter(other_order(id)) =~= Seq::empty());
    }
}

proof fn lemma_orders_put(levels: Levels, order: Order, rank: int)
    requires
        sound(levels),
        order.in_range(),
    ensures
        orders_at(order_put(levels, order), rank) == (if rank == order.limit_price.rank() {
            orders_at(levels, rank).push(order)
        } else {
            orders_at(levels, rank)
        }),
{
    let after = order_put(levels, order);
    let price = order.limit_price;
    ladder::lemma_slot_exists(levels, price.rank());
    ladder::lemma_slot_exists(levels, rank);
    if ladder::has_rank(levels, price.rank()) {
        ladder::lemma_same_keys(levels, after);
        assert(ladder::has_rank(after, rank) == ladder::has_rank(levels, rank));
        assert(ladder::slot(after, rank) == ladder::slot(levels, rank));
    } else {
        let level = LevelModel { price, orders: seq![order] };
        assert(after == ladder::placed(levels, price, level));
        ladder::law_placed_value_at(levels, price, level, rank);
        assert(Seq::<Order>::empty().push(order) =~= seq![order]);
    }
}

/// An order that is told leaves the queue at the price at which it was last known, if it was, and
/// no other one; and it joins the queue at its own price as the last if it has a quantity.
pub proof fn law_told_order(
    levels: Levels,
    prices: Map<Seq<char>, Decimal>,
    order: Order,
    rank: int,
)
    requires
        sound(levels),
        order.in_range(),
    ensures
        ({
            let (after, known) = told_order(levels, prices, order);
            let id = order.order_id@;
            let left = if prices.dom().contains(id) && prices[id].rank() == rank {
                orders_at(levels, rank).filter(other_order(id))
            } else {
                orders_at(levels, rank)
            };
            let there = order.order_qty.magnitude != 0;
            &&& orders_at(after, rank) == (if there && rank == order.limit_price.rank() {
                left.push(order)
            } else {
                left
            })
            &&& there ==> known == prices.insert(id, order.limit_price)
            &&& !there ==> known == prices.remove(id)
        }),
{
    let id = order.order_id@;
    if prices.dom().contains(id) {
        lemma_orders_removed(levels, prices[id], id, rank);
        lemma_removed_sound(levels, prices[id], id);
    }
    if order.order_qty.magnitude != 0 {
        lemma_orders_put(order_cleared(levels, prices, id), order, rank);
    }
}

/// On a tracked side an order that is told leaves the queue at every price, and joins the one at its own as the last
/// if it has a quantity; the others keep their turns. From then on it is known at its price, or not
/// at all.
pub proof fn law_told_order_queues(
    levels: Levels,
    prices: Map<Seq<char>, Decimal>,
    order: Order,
    rank: int,
)
    requires
        sound(levels),
        tracked_by(levels, prices),
        order.in_range(),
    ensures
        ({
            let (after, known) = told_order(levels, prices, order);
            let others = orders_at(levels, rank).filter(other_order(order.order_id@));
            let there = order.order_qty.magnitude != 0;
            &&& orders_at(after, rank) == (if there && rank == order.limit_price.rank() {
                others.push(order)
            } else {
                others
            })
            &&& there ==> known == prices.insert(order.order_id@, order.limit_price)
            &&& !there ==> known == prices.remove(order.order_id@)
        }),
{
    let id = order.order_id@;
    let old = orders_at(levels, rank);
    let known_here = prices.dom().contains(id) && prices[id].rank() == rank;
    if !known_here {
        assert forall|j: int| 0 <= j < old.len() implies (#[trigger] old[j]).order_id@ != id by {
            ladder::lemma_slot_exists(levels, rank);
            let at = ladder::slot(levels, rank);
            assert(levels[at].1.orders[j] == old[j]);
        }
        lemma_others_stay(old, id);
    }
    law_told_order(levels, prices, order, rank);
}

/// Orders of an id that is not told rest where they rested, and nowhere else.
pub proof fn law_untold_orders_stay(
    levels: Levels,
    prices: Map<Seq<char>, Decimal>,
    entries: Seq<Option<Order>>,
    order: Order,
)
    requires
        sound(levels),
        tracked_by(levels, prices),
        entries_in_range(entries),
        forall|k: int|
            0 <= k < entries.len() && (#[trigger] entries[k]) is Some ==> entries[k]->0.order_id@
                != order.order_id@,
    ensures
        rests(told_orders(levels, prices, entries).0, order) <==> rests(levels, order),
        ({
            let known = told_orders(levels, prices, entries).1;
            let id = order.order_id@;
            &&& known.dom().contains(id) == prices.dom().contains(id)
            &&& prices.dom().contains(id) ==> known[id] == prices[id]
        }),
    decreases entries.len(),
{
    if entries.len() > 0 && entries[0] is Some {
        let told = entries[0]->0;
        let (next, known) = told_order(levels, prices, told);
        let rank = order.limit_price.rank();
        let old = orders_at(levels, rank);
        let others = old.filter(other_order(told.order_id@));
        law_told_order_queues(levels, prices, told, rank);
        law_told_order_keeps_sound(levels, prices, told);
        law_told_order_keeps_tracked(levels, prices, told);
        lemma_rest_in_range(entries);
        seqs::lemma_filter_members(old, other_order(told.order_id@), order);
        seqs::lemma_push_members(others, told, order);
        let rest = entries.drop_first();
        assert forall|k: int|
            0 <= k < rest.len() && (#[trigger] rest[k]) is Some implies rest[k]->0.order_id@
            != order.order_id@ by {
            assert(rest[k] == entries[k + 1]);
        }
        law_untold_orders_stay(next, known, rest, order);
    }
}

/// In a list that can be read whole every entry counts: for each id the last entry that names it
/// decides. With a quantity that order rests on the side, at its price; without one no order of
/// that id does.
pub proof fn law_last_entry_decides(
    levels: Levels,
    prices: Map<Seq<char>, Decimal>,
    entries: Seq<Option<Order>>,
    k: int,
)
    requires
        sound(levels),
        tracked_by(levels, prices),
        entries_in_range(entries),
        forall|j: int| 0 <= j < entries.len() ==> (#[trigger] entries[j]) is Some,
        0 <= k < entries.len(),
        forall|j: int|
            k < j < entries.len() ==> (#[trigger] entries[j])->0.order_id@
                != entries[k]->0.order_id@,
    ensures
        ({
            let (after, known, whole) = told_orders(levels, prices, entries);
            let order = entries[k]->0;
            let id = order.order_id@;
            &&& whole
            &&& no_id_twice(after)
            &&& order.order_qty.magnitude != 0 ==> rests(after, order) && known.dom().contains(id)
                && known[id] == order.limit_price
            &&& order.order_qty.magnitude == 0 ==> absent(after, id) && !known.dom().contains(id)
        }),
{
    let first = entries.take(k);
    let last = entries.skip(k);
    let rest = last.drop_first();
    let order = entries[k]->0;
    let id = order.order_id@;
    assert(first + last =~= entries);
    assert(last[0] == entries[k]);
    assert forall|j: int| 0 <= j < first.len() implies (#[trigger] first[j]) is Some && (
    first[j]->0).in_range() by {
        assert(first[j] == entries[j]);
    }
    assert forall|j: int| 0 <= j < rest.len() implies (#[trigger] rest[j]) is Some && (
    rest[j]->0).in_range() && rest[j]->0.order_id@ != id by {
        assert(rest[j] == entries[j + k + 1]);
    }
    assert(entries_in_range(first));
    assert(entries_in_range(rest));
    law_entries_in_a_row(levels, prices, first, last);
    law_told_orders_keep_sound(levels, prices, first);
    law_told_orders_keep_tracked(levels, prices, first);
    law_told_orders_keep_tracked(levels, prices, entries);
    law_read_whole(levels, prices, entries);
    let (middle, known, _) = told_orders(levels, prices, first);
    assert(order.in_range()) by {
        assert(entries[k] is Some);
    }
    law_told_order_queues(middle, known, order, order.limit_price.rank());
    law_told_order_keeps_sound(middle, known, order);
    law_told_order_keeps_tracked(middle, known, order);
    let (next, then) = told_order(middle, known, order);
    law_untold_orders_stay(next, then, rest, order);
    if order.order_qty.magnitude != 0 {
        let others = orders_at(middle, order.limit_price.rank()).filter(other_order(id));
        seqs::lemma_push_members(others, order, order);
    } else {
        lemma_cleared_tracked(middle, known, id);
        lemma_stays_absent(next, then, rest, id);
    }
}

/// The orders of one side change that side, and the prices at which orders are known, and not the
/// other side.
pub proof fn law_side_told(book: BookModel, entries: Seq<Option<Order>>)
    ensures
        side_told(book, entries, true).0.bids == told_orders(book.bids, book.prices, entries).0,
        side_told(book, entries, true).0.asks == book.asks,
        side_told(book, entries, true).0.prices == told_orders(book.bids, book.prices, entries).1,
        side_told(book, entries, true).1 == told_orders(book.bids, book.prices, entries).2,
        side_told(book, entries, false).0.asks == told_orders(book.asks, book.prices, entries).0,
        side_told(book, entries, false).0.bids == book.bids,
        side_told(book, entries, false).0.prices == told_orders(book.asks, book.prices, entries).1,
        side_told(book, entries, false).1 == told_orders(book.asks, book.prices, entries).2,
{
}

/// A message is a success exactly where every entry of both sides can be read. A bid that cannot be
/// read leaves the asks as they were; and an entry that cannot be read leaves the book uncut.
pub proof fn law_message_read(book: BookModel, data: Level3Data)
    ensures
        ({
            let (after, whole) = after_message(book, data);
            let bids_read = data.bids matches Some(entries) ==> forall|k: int|
                0 <= k < entries@.len() ==> (#[trigger] entries@[k]) is Some;
            let asks_read = data.asks matches Some(entries) ==> forall|k: int|
                0 <= k < entries@.len() ==> (#[trigger] entries@[k]) is Some;
            let bids = side_told(book, entries_of(data.bids), true).0;
            &&& whole <==> bids_read && asks_read
            &&& !bids_read ==> after == bids
            &&& bids_read && !asks_read ==> after == side_told(
                bids,
                entries_of(data.asks),
                false,
            ).0
        }),
        data.bids is None ==> entries_of(data.bids).len() == 0,
        data.asks is None ==> entries_of(data.asks).len() == 0,
        data.bids is Some ==> entries_of(data.bids) == data.bids->0@,
        data.asks is Some ==> entries_of(data.asks) == data.asks->0@,
{
    let bids = entries_of(data.bids);
    let asks = entries_of(data.asks);
    law_read_whole(book.bids, book.prices, bids);
    let prices = told_orders(book.bids, book.prices, bids).1;
    law_read_whole(book.asks, prices, asks);
}

/// An order that rests on a side stays on it when the side is cut to its highest levels, unless as
/// many levels are higher.
proof fn lemma_rests_among_highest(levels: Levels, depth: nat, order: Order)
    requires
        sound(levels),
    ensures
        rests(highest(levels, depth), order) ==> rests(levels, order),
        rests(levels, order) && depth > 0 ==> rests(highest(levels, depth), order) || (highest(
            levels,
            depth,
        ).len() == depth && highest(levels, depth)[0].0.rank() > order.limit_price.rank()),
{
    let part = highest(levels, depth);
    let gone = levels.len() - part.len();
    let rank = order.limit_price.rank();
    lemma_part_sound(levels, gone, levels.len() as int);
    assert(part =~= levels.subrange(gone, levels.len() as int));
    lemma_part_values(levels, gone, levels.len() as int, rank);
    ladder::lemma_slot_exists(levels, rank);
    if rests(levels, order) && depth > 0 {
        let at = ladder::slot(levels, rank);
        if at < gone {
            assert(levels[at].0.rank() < levels[gone].0.rank());
            assert(part[0] == levels[gone]);
        }
    }
}

/// An order that rests on a side stays on it when the side is cut to its lowest levels, unless as
/// many levels are lower.
proof fn lemma_rests_among_lowest(levels: Levels, depth: nat, order: Order)
    requires
        sound(levels),
    ensures
        rests(lowest(levels, depth), order) ==> rests(levels, order),
        rests(levels, order) && depth > 0 ==> rests(lowest(levels, depth), order) || (lowest(
            levels,
            depth,
        ).len() == depth && lowest(levels, depth).last().0.rank() < order.limit_price.rank()),
{
    let part = lowest(levels, depth);
    let rank = order.limit_price.rank();
    lemma_part_sound(levels, 0, part.len() as int);
    assert(part =~= levels.subrange(0, part.len() as int));
    lemma_part_values(levels, 0, part.len() as int, rank);
    ladder::lemma_slot_exists(levels, rank);
    if rests(levels, order) && depth > 0 {
        let at = ladder::slot(levels, rank);
        if at >= part.len() {
            assert(levels[part.len() - 1].0.rank() < levels[at].0.rank());
            assert(part.last() == levels[part.len() - 1]);
        }
    }
}

proof fn lemma_part_values(levels: Levels, from: int, to: int, rank: int)
    requires
        sound(levels),
        0 <= from <= to <= levels.len(),
    ensures
        ({
            let part = levels.subrange(from, to);
            let at = ladder::slot(levels, rank);
            ladder::value_at(part, rank) == (if from <= at < to {
                ladder::value_at(levels, rank)
            } else {
                None
            })
        }),
{
    let part = levels.subrange(from, to);
    let at = ladder::slot(levels, rank);
    lemma_part_sound(levels, from, to);
    ladder::lemma_slot_exists(levels, rank);
    if from <= at < to && ladder::has_rank(levels, rank) {
        assert(part[at - from] == levels[at]);
        ladder::lemma_slot_of_level(part, at - from);
        ladder::lemma_slot_of_level(levels, at);
    } else if ladder::has_rank(part, rank) {
        let i = choose|i: int| 0 <= i < part.len() && (#[trigger] part[i]).0.rank() == rank;
        assert(part[i] == levels[i + from]);
        ladder::lemma_slot_of_level(levels, i + from);
    }
}

/// What a message that was read whole leaves of the bids: for each id the last entry that names it
/// decides, and an order that is not named rests where it rested; but only the ten highest levels
/// are kept.
pub proof fn law_message_bids(book: BookModel, data: Level3Data, order: Order)
    requires
        sound(book.bids),
        tracked_by(book.bids, book.prices),
        data.in_range(),
        after_message(book, data).1,
    ensures
        ({
            let after = after_message(book, data).0.bids;
            let entries = entries_of(data.bids);
            let cut = after.len() == 10 && after[0].0.rank() > order.limit_price.rank();
            &&& after.len() <= 10
            &&& forall|k: int|
                0 <= k < entries.len() && (#[trigger] entries[k])->0 == order
                    && order.order_qty.magnitude != 0 && (forall|j: int|
                    k < j < entries.len() ==> (#[trigger] entries[j])->0.order_id@
                        != order.order_id@) ==> rests(after, order) || cut
            &&& forall|k: int|
                0 <= k < entries.len() && (#[trigger] entries[k])->0.order_id@ == order.order_id@
                    && entries[k]->0.order_qty.magnitude == 0 && (forall|j: int|
                    k < j < entries.len() ==> (#[trigger] entries[j])->0.order_id@
                        != order.order_id@) ==> !rests(after, order)
            &&& untold(entries, order.order_id@) && rests(book.bids, order) ==> rests(after, order)
                || cut
            &&& untold(entries, order.order_id@) && !rests(book.bids, order) ==> !rests(after, order)
        }),
{
    let entries = entries_of(data.bids);
    law_read_whole(book.bids, book.prices, entries);
    law_told_orders_keep_sound(book.bids, book.prices, entries);
    let levels = told_orders(book.bids, book.prices, entries).0;
    lemma_rests_among_highest(levels, 10, order);
    lemma_side_of_message(book.bids, book.prices, entries, order);
}

/// What a message that was read whole leaves of the asks: for each id the last entry that names it
/// decides, and an order that is not named rests where it rested; but only the ten lowest levels
/// are kept.
pub proof fn law_message_asks(book: BookModel, data: Level3Data, order: Order)
    requires
        sound(book.asks),
        tracked_by(book.asks, book.prices),
        data.in_range(),
        all_absent(book.asks, entries_of(data.bids)),
        after_message(book, data).1,
    ensures
        ({
            let after = after_message(book, data).0.asks;
            let entries = entries_of(data.asks);
            let cut = after.len() == 10 && after[9].0.rank() < order.limit_price.rank();
            &&& after.len() <= 10
            &&& forall|k: int|
                0 <= k < entries.len() && (#[trigger] entries[k])->0 == order
                    && order.order_qty.magnitude != 0 && (forall|j: int|
                    k < j < entries.len() ==> (#[trigger] entries[j])->0.order_id@
                        != order.order_id@) ==> rests(after, order) || cut
            &&& forall|k: int|
                0 <= k < entries.len() && (#[trigger] entries[k])->0.order_id@ == order.order_id@
                    && entries[k]->0.order_qty.magnitude == 0 && (forall|j: int|
                    k < j < entries.len() ==> (#[trigger] entries[j])->0.order_id@
                        != order.order_id@) ==> !rests(after, order)
            &&& untold(entries, order.order_id@) && rests(book.asks, order) ==> rests(after, order)
                || cut
            &&& untold(entries, order.order_id@) && !rests(book.asks, order) ==> !rests(after, order)
        }),
{
    let entries = entries_of(data.asks);
    let prices = told_orders(book.bids, book.prices, entries_of(data.bids)).1;
    lemma_other_side_tracked(book.bids, book.prices, entries_of(data.bids), book.asks);
    law_read_whole(book.asks, prices, entries);
    law_told_orders_keep_sound(book.asks, prices, entries);
    let levels = told_orders(book.asks, prices, entries).0;
    lemma_rests_among_lowest(levels, 10, order);
    lemma_side_of_message(book.asks, prices, entries, order);
}

/// What entries that can be read whole leave of a side before it is cut.
proof fn lemma_side_of_message(
    levels: Levels,
    prices: Map<Seq<char>, Decimal>,
    entries: Seq<Option<Order>>,
    order: Order,
)
    requires
        sound(levels),
        tracked_by(levels, prices),
        entries_in_range(entries),
        forall|j: int| 0 <= j < entries.len() ==> (#[trigger] entries[j]) is Some,
    ensures
        ({
            let after = told_orders(levels, prices, entries).0;
            &&& forall|k: int|
                0 <= k < entries.len() && (#[trigger] entries[k])->0 == order
                    && order.order_qty.magnitude != 0 && (forall|j: int|
                    k < j < entries.len() ==> (#[trigger] entries[j])->0.order_id@
                        != order.order_id@) ==> rests(after, order)
            &&& forall|k: int|
                0 <= k < entries.len() && (#[trigger] entries[k])->0.order_id@ == order.order_id@
                    && entries[k]->0.order_qty.magnitude == 0 && (forall|j: int|
                    k < j < entries.len() ==> (#[trigger] entries[j])->0.order_id@
                        != order.order_id@) ==> !rests(after, order)
            &&& untold(entries, order.order_id@) ==> (rests(after, order) <==> rests(levels, order))
        }),
{
    let after = told_orders(levels, prices, entries).0;
    assert forall|k: int|
        0 <= k < entries.len() && (#[trigger] entries[k])->0 == order && order.order_qty.magnitude
            != 0 && (forall|j: int|
            k < j < entries.len() ==> (#[trigger] entries[j])->0.order_id@
                != order.order_id@) implies rests(after, order) by {
        law_last_entry_decides(levels, prices, entries, k);
    }
    assert forall|k: int|
        0 <= k < entries.len() && (#[trigger] entries[k])->0.order_id@ == order.order_id@
            && entries[k]->0.order_qty.magnitude == 0 && (forall|j: int|
            k < j < entries.len() ==> (#[trigger] entries[j])->0.order_id@
                != order.order_id@) implies !rests(after, order) by {
        law_last_entry_decides(levels, prices, entries, k);
        law_told_orders_keep_sound(levels, prices, entries);
        lemma_absent_rests_not(after, order);
    }
    if untold(entries, order.order_id@) {
        law_untold_orders_stay(levels, prices, entries, order);
    }
}

proof fn lemma_absent_rests_not(levels: Levels, order: Order)
    requires
        sound(levels),
        absent(levels, order.order_id@),
    ensures
        !rests(levels, order),
{
    let rank = order.limit_price.rank();
    ladder::lemma_slot_exists(levels, rank);
    if rests(levels, order) {
        let at = ladder::slot(levels, rank);
        let there = orders_at(levels, rank);
        let j = choose|j: int| 0 <= j < there.len() && there[j] == order;
        assert(levels[at].1.orders[j].order_id@ == order.order_id@);
    }
}

/// A negative number enters the checksum with its sign and, behind that, all of its digits.
pub proof fn law_checksum_digits_of_negative(d: Decimal)
    requires
        d.negative,
    ensures
        checksum_digits(d) == seq!['-'] + d.padded(),
{
    let positive = Decimal { negative: false, ..d };
    lemma_shown_digits(positive);
    let shown = positive.display();
    assert(d.padded() == positive.padded());
    assert(d.display() =~= seq!['-'] + shown);
    Seq::filter_distributes_over_add(seq!['-'], shown, no_point());
    lemma_filter_all(seq!['-']);
    assert((seq!['-'] + d.padded())[0] == '-');
}

/// The text of orders and of levels, one by one and in their order: each order adds its price and
/// then its quantity, and each level its orders. Of numbers that are not negative the digits of the
/// magnitude enter.
pub proof fn law_checksum_pieces(
    orders: Seq<Order>,
    order: Order,
    levels: Levels,
    level: (Decimal, LevelModel),
)
    ensures
        orders_text(Seq::empty()).len() == 0,
        orders_text(orders.push(order)) == orders_text(orders) + checksum_digits(order.limit_price)
            + checksum_digits(order.order_qty),
        !order.limit_price.negative && !order.order_qty.negative ==> orders_text(orders.push(order))
            == orders_text(orders) + text::digits(order.limit_price.magnitude as nat)
            + text::digits(order.order_qty.magnitude as nat),
        levels_text(Seq::empty()).len() == 0,
        levels_text(levels.push(level)) == levels_text(levels) + orders_text(level.1.orders),
{
    assert(orders.push(order).drop_last() =~= orders);
    assert(levels.push(level).drop_last() =~= levels);
    assert(orders_text(orders.push(order)) =~= orders_text(orders) + checksum_digits(
        order.limit_price,
    ) + checksum_digits(order.order_qty));
    if !order.limit_price.negative && !order.order_qty.negative {
        law_checksum_digits(order.limit_price);
        law_checksum_digits(order.order_qty);
    }
}

/// The checksum is over the ten best asks, the lowest first, and then the ten best bids, the highest
/// first; what is behind them does not count.
pub proof fn law_checksum_source(book: BookModel)
    ensures
        ({
            let asks = if book.asks.len() < 10 { book.asks.len() } else { 10 };
            let bids = if book.bids.len() < 10 { book.bids.len() } else { 10 };
            checksum_source(book) == levels_text(Seq::new(asks, |i: int| book.asks[i])) + levels_text(
                Seq::new(bids, |i: int| book.bids[book.bids.len() - 1 - i]),
            )
        }),
{
    let asks = if book.asks.len() < 10 { book.asks.len() } else { 10 };
    let bids = if book.bids.len() < 10 { book.bids.len() } else { 10 };
    assert(lowest(book.asks, DEPTH as nat) =~= Seq::new(asks, |i: int| book.asks[i]));
    assert(highest(book.bids, DEPTH as nat).reverse() =~= Seq::new(
        bids,
        |i: int| book.bids[book.bids.len() - 1 - i],
    ));
}

} // verus!
