//! The latest books, account states and volatilities, for all parts of the program.

use std::collections::VecDeque;
use std::sync::Arc;

use vstd::prelude::*;

use crate::binary64::Binary64;
use crate::eventbucket::{Event, EventBucket};
use crate::instrument_names;
use crate::instrument_names::{index_instruments, Instrument};
use crate::order_book::OrderBook;
use crate::portfolio::PortfolioData;
use crate::string_map::StringMap;

verus! {

/// How many items of each sort are kept.
pub const BUFFER_SIZE: usize = 100;

/// A buffer after an item came in: a full one loses its oldest.
pub open spec fn kept<T>(buffer: Seq<T>, item: T) -> Seq<T> {
    if buffer.len() == BUFFER_SIZE {
        buffer.drop_first().push(item)
    } else {
        buffer.push(item)
    }
}

/// A buffer after these items came in.
pub open spec fn all_kept<T>(buffer: Seq<T>, items: Seq<T>) -> Seq<T>
    decreases items.len(),
{
    if items.len() == 0 {
        buffer
    } else {
        kept(all_kept(buffer, items.drop_last()), items.last())
    }
}

fn keep<T>(buffer: &mut VecDeque<T>, item: T)
    requires
        old(buffer)@.len() <= BUFFER_SIZE,
    ensures
        final(buffer)@ == kept(old(buffer)@, item),
        final(buffer)@.len() <= BUFFER_SIZE,
{
    if buffer.len() == BUFFER_SIZE {
        let _ = buffer.pop_front();
        assert(buffer@ =~= old(buffer)@.drop_first());
    }
    buffer.push_back(item);
}

pub struct SharedState {
    event_bucket: Arc<EventBucket>,
    order_books: VecDeque<OrderBook>,
    portfolios: VecDeque<PortfolioData>,
    volatilities: VecDeque<Binary64>,
    instruments: StringMap<Instrument>,
}

/// The news of a book.
pub fn order_book_event(order_book: &OrderBook) -> (r: Event)
    ensures
        r matches Event::OrderBookUpdate(copy) && copy.same_as(order_book),
{
    Event::OrderBookUpdate(order_book.clone())
}

/// The news of an account state.
pub fn portfolio_event(portfolio: &PortfolioData) -> (r: Event)
    ensures
        r matches Event::PortfolioUpdate(copy) && copy.same_as(portfolio),
{
    Event::PortfolioUpdate(portfolio.clone())
}

/// The news of a volatility.
pub fn volatility_event(volatility: Binary64) -> (r: Event)
    ensures
        r == Event::VolatilityUpdate(volatility),
{
    Event::VolatilityUpdate(volatility)
}

impl SharedState {
    /// Where the news are handed out.
    pub closed spec fn bucket(&self) -> EventBucket {
        *self.event_bucket
    }

    /// The books that are kept, the oldest first.
    pub closed spec fn books(&self) -> Seq<OrderBook> {
        self.order_books@
    }

    /// The account states that are kept, the oldest first.
    pub closed spec fn accounts(&self) -> Seq<PortfolioData> {
        self.portfolios@
    }

    /// The volatilities that are kept, the oldest first.
    pub closed spec fn levels(&self) -> Seq<Binary64> {
        self.volatilities@
    }

    /// The instruments, with their names.
    pub closed spec fn listed(&self) -> StringMap<Instrument> {
        self.instruments
    }

    /// No buffer holds more than it may.
    pub open spec fn wf(&self) -> bool {
        &&& self.books().len() <= BUFFER_SIZE
        &&& self.accounts().len() <= BUFFER_SIZE
        &&& self.levels().len() <= BUFFER_SIZE
        &&& self.listed().wf()
    }

    pub fn new(event_bucket: Arc<EventBucket>) -> (r: Self)
        ensures
            r.wf(),
            r.bucket() == *event_bucket,
            r.books() == Seq::<OrderBook>::empty(),
            r.accounts() == Seq::<PortfolioData>::empty(),
            r.levels() == Seq::<Binary64>::empty(),
            r.listed()@ == Map::<Seq<char>, Instrument>::empty(),
    {
        SharedState {
            event_bucket,
            order_books: VecDeque::with_capacity(BUFFER_SIZE),
            portfolios: VecDeque::with_capacity(BUFFER_SIZE),
            volatilities: VecDeque::with_capacity(BUFFER_SIZE),
            instruments: StringMap::new(),
        }
    }

    /// Keeps a book and tells the subscribers. The result is what came of telling them.
    pub fn update_order_book(&mut self, new_order_book: OrderBook) -> (r: Result<usize, Event>)
        requires
            old(self).wf(),
        ensures
            final(self).wf(),
            final(self).bucket() == old(self).bucket(),
            final(self).books() == kept(old(self).books(), new_order_book),
            final(self).accounts() == old(self).accounts(),
            final(self).levels() == old(self).levels(),
            final(self).listed() == old(self).listed(),
            match r {
                Ok(receivers) => receivers >= 1,
                Err(unsent) => unsent.same_as(&Event::OrderBookUpdate(new_order_book)),
            },
    {
        let news = order_book_event(&new_order_book);
        keep(&mut self.order_books, new_order_book);
        self.event_bucket.send(news)
    }

    /// Keeps an account state and tells the subscribers. The result is what came of telling them.
    pub fn update_portfolio(&mut self, new_portfolio: PortfolioData) -> (r: Result<usize, Event>)
        requires
            old(self).wf(),
        ensures
            final(self).wf(),
            final(self).bucket() == old(self).bucket(),
            final(self).accounts() == kept(old(self).accounts(), new_portfolio),
            final(self).books() == old(self).books(),
            final(self).levels() == old(self).levels(),
            final(self).listed() == old(self).listed(),
            match r {
                Ok(receivers) => receivers >= 1,
                Err(unsent) => unsent.same_as(&Event::PortfolioUpdate(new_portfolio)),
            },
    {
        let news = portfolio_event(&new_portfolio);
        keep(&mut self.portfolios, new_portfolio);
        self.event_bucket.send(news)
    }

    /// Keeps a volatility and tells the subscribers. The result is what came of telling them.
    pub fn update_volatility(&mut self, new_volatility: Binary64) -> (r: Result<usize, Event>)
        requires
            old(self).wf(),
        ensures
            final(self).wf(),
            final(self).bucket() == old(self).bucket(),
            final(self).levels() == kept(old(self).levels(), new_volatility),
            final(self).books() == old(self).books(),
            final(self).accounts() == old(self).accounts(),
            final(self).listed() == old(self).listed(),
            match r {
                Ok(receivers) => receivers >= 1,
                Err(unsent) => unsent == Event::VolatilityUpdate(new_volatility),
            },
    {
        keep(&mut self.volatilities, new_volatility);
        self.event_bucket.send(volatility_event(new_volatility))
    }

    /// Replaces the instruments.
    pub fn update_instruments(&mut self, new_instruments: Vec<Instrument>)
        requires
            old(self).wf(),
        ensures
            final(self).wf(),
            final(self).bucket() == old(self).bucket(),
            final(self).listed().listing() == instrument_names::indexed(new_instruments@),
            final(self).books() == old(self).books(),
            final(self).accounts() == old(self).accounts(),
            final(self).levels() == old(self).levels(),
    {
        self.instruments = index_instruments(new_instruments);
    }

    pub fn get_latest_order_book(&self) -> (r: Option<OrderBook>)
        ensures
            match r {
                Some(book) => self.books().len() > 0 && book.same_as(&self.books().last()),
                None => self.books().len() == 0,
            },
    {
        let n: usize = self.order_books.len();
        if n > 0 {
            Some(self.order_books[n - 1].clone())
        } else {
            None
        }
    }

    pub fn get_latest_portfolio(&self) -> (r: Option<PortfolioData>)
        ensures
            match r {
                Some(data) => self.accounts().len() > 0 && data.same_as(&self.accounts().last()),
                None => self.accounts().len() == 0,
            },
    {
        let n: usize = self.portfolios.len();
        if n > 0 {
            Some(self.portfolios[n - 1].clone())
        } else {
            None
        }
    }

    pub fn get_latest_volatility(&self) -> (r: Option<Binary64>)
        ensures
            r == (if self.levels().len() > 0 {
                Some(self.levels().last())
            } else {
                None
            }),
    {
        let n: usize = self.volatilities.len();
        if n > 0 {
            Some(self.volatilities[n - 1])
        } else {
            None
        }
    }

    pub fn get_instrument(&self, instrument_name: &str) -> (r: Option<Instrument>)
        requires
            self.wf(),
        ensures
            match r {
                Some(instrument) => self.listed()@.dom().contains(instrument_name@)
                    && instrument.same_as(&self.listed()@[instrument_name@]),
                None => !self.listed()@.dom().contains(instrument_name@),
            },
    {
        match self.instruments.get(instrument_name) {
            Some(instrument) => Some(instrument.clone()),
            None => None,
        }
    }

    /// The books that are kept, the oldest first.
    pub fn get_order_book_history(&self) -> (r: Vec<OrderBook>)
        ensures
            r@.len() == self.books().len(),
            forall|i: int| 0 <= i < r@.len() ==> (#[trigger] r@[i]).same_as(&self.books()[i]),
    {
        let n: usize = self.order_books.len();
        let mut r: Vec<OrderBook> = Vec::new();
        for i in 0..n
            invariant
                n == self.order_books@.len(),
                r@.len() == i,
                forall|j: int| 0 <= j < i ==> (#[trigger] r@[j]).same_as(&self.order_books@[j]),
        {
            r.push(self.order_books[i].clone());
        }
        r
    }

    /// The account states that are kept, the oldest first.
    pub fn get_portfolio_history(&self) -> (r: Vec<PortfolioData>)
        ensures
            r@.len() == self.accounts().len(),
            forall|i: int| 0 <= i < r@.len() ==> (#[trigger] r@[i]).same_as(&self.accounts()[i]),
    {
        let n: usize = self.portfolios.len();
        let mut r: Vec<PortfolioData> = Vec::new();
        for i in 0..n
            invariant
                n == self.portfolios@.len(),
                r@.len() == i,
                forall|j: int| 0 <= j < i ==> (#[trigger] r@[j]).same_as(&self.portfolios@[j]),
        {
            r.push(self.portfolios[i].clone());
        }
        r
    }

    /// The volatilities that are kept, the oldest first.
    pub fn get_volatility_history(&self) -> (r: Vec<Binary64>)
        ensures
            r@ == self.levels(),
    {
        let n: usize = self.volatilities.len();
        let mut r: Vec<Binary64> = Vec::new();
        for i in 0..n
            invariant
                n == self.volatilities@.len(),
                r@ =~= self.volatilities@.take(i as int),
        {
            r.push(self.volatilities[i]);
        }
        assert(self.volatilities@.take(n as int) == self.volatilities@);
        r
    }
}

/// An empty buffer that took in any items holds the last hundred of them, in their order, or all
/// of them where there are fewer.
pub proof fn law_last_items_kept<T>(items: Seq<T>)
    ensures
        all_kept(Seq::<T>::empty(), items) == items.skip(
            if items.len() > 100 {
                items.len() - 100
            } else {
                0
            },
        ),
    decreases items.len(),
{
    if items.len() > 0 {
        let front = items.drop_last();
        law_last_items_kept(front);
        if items.len() > BUFFER_SIZE {
            assert(all_kept(Seq::<T>::empty(), items) =~= items.skip(items.len() - BUFFER_SIZE));
        } else {
            assert(all_kept(Seq::<T>::empty(), items) =~= items);
            assert(items.skip(0) =~= items);
        }
    } else {
        assert(items.skip(0) =~= Seq::<T>::empty());
    }
}

/// What came in last is the latest.
pub proof fn law_latest<T>(buffer: Seq<T>, item: T)
    ensures
        kept(buffer, item).last() == item,
        buffer.len() < 100 ==> kept(buffer, item) == buffer.push(item),
        buffer.len() == 100 ==> kept(buffer, item) == buffer.skip(1).push(item),
        buffer.len() <= 100 ==> kept(buffer, item).len() <= 100,
{
}


} // verus!
