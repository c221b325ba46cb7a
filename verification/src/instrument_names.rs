//! The instruments that the exchange lists.

use vstd::prelude::*;
use vstd::string::*;

use crate::binary64::Binary64;
use crate::string_map;
use crate::string_map::StringMap;

verus! {

/// The file that keeps the last list of instruments.
pub const CACHE_FILE: &'static str = "instrument_cache.json";

/// The exchange's answer to a request for its instruments.
#[derive(Debug)]
pub struct InstrumentResponse {
    pub jsonrpc: String,
    pub result: Vec<Instrument>,
}

#[derive(Debug)]
pub struct Instrument {
    pub tick_size: Binary64,
    pub tick_size_steps: Vec<Binary64>,
    pub taker_commission: Binary64,
    pub settlement_period: String,
    pub settlement_currency: String,
    pub rfq: bool,
    pub quote_currency: String,
    pub price_index: String,
    pub min_trade_amount: Binary64,
    pub max_liquidation_commission: Binary64,
    pub max_leverage: i64,
    pub maker_commission: Binary64,
    pub kind: String,
    pub is_active: bool,
    pub instrument_name: String,
    pub instrument_id: i64,
    pub instrument_type: String,
    pub expiration_timestamp: i64,
    pub creation_timestamp: i64,
    pub counter_currency: String,
    pub contract_size: Binary64,
    pub block_trade_tick_size: Binary64,
    pub block_trade_min_trade_amount: Binary64,
    pub block_trade_commission: Binary64,
    pub base_currency: String,
}

impl Instrument {
    /// Whether both hold the same.
    pub open spec fn same_as(&self, other: &Self) -> bool {
        &&& self.tick_size_steps@ == other.tick_size_steps@
        &&& *self == (Instrument { tick_size_steps: self.tick_size_steps, ..*other })
    }
}

impl Clone for Instrument {
    fn clone(&self) -> (r: Self)
        ensures
            r.same_as(self),
    {
        let n: usize = self.tick_size_steps.len();
        let mut steps: Vec<Binary64> = Vec::new();
        for i in 0..n
            invariant
                n == self.tick_size_steps@.len(),
                steps@ =~= self.tick_size_steps@.take(i as int),
        {
            steps.push(self.tick_size_steps[i]);
        }
        assert(self.tick_size_steps@.take(n as int) == self.tick_size_steps@);
        Instrument {
            tick_size: self.tick_size,
            tick_size_steps: steps,
            taker_commission: self.taker_commission,
            settlement_period: self.settlement_period.clone(),
            settlement_currency: self.settlement_currency.clone(),
            rfq: self.rfq,
            quote_currency: self.quote_currency.clone(),
            price_index: self.price_index.clone(),
            min_trade_amount: self.min_trade_amount,
            max_liquidation_commission: self.max_liquidation_commission,
            max_leverage: self.max_leverage,
            maker_commission: self.maker_commission,
            kind: self.kind.clone(),
            is_active: self.is_active,
            instrument_name: self.instrument_name.clone(),
            instrument_id: self.instrument_id,
            instrument_type: self.instrument_type.clone(),
            expiration_timestamp: self.expiration_timestamp,
            creation_timestamp: self.creation_timestamp,
            counter_currency: self.counter_currency.clone(),
            contract_size: self.contract_size,
            block_trade_tick_size: self.block_trade_tick_size,
            block_trade_min_trade_amount: self.block_trade_min_trade_amount,
            block_trade_commission: self.block_trade_commission,
            base_currency: self.base_currency.clone(),
        }
    }
}

/// The entries of the index over these instruments. A later one displaces an earlier one of its
/// name.
pub open spec fn indexed(instruments: Seq<Instrument>) -> Seq<(String, Instrument)>
    decreases instruments.len(),
{
    if instruments.len() == 0 {
        Seq::empty()
    } else {
        string_map::stored(
            indexed(instruments.drop_last()),
            instruments.last().instrument_name,
            instruments.last(),
        )
    }
}

/// Where the instruments come from.
#[derive(Clone, Copy, Debug, PartialEq, Eq, Structural)]
pub enum InstrumentSource {
    Exchange,
    Cache,
    Nowhere,
}

/// The address that lists the instruments of a currency and kind.
pub fn instruments_url(currency: &str, kind: &str) -> (r: String)
    ensures
        r@ == "https://www.deribit.com/api/v2/public/get_instruments?currency="@ + currency@
            + "&kind="@ + kind@,
{
    let mut r = "https://www.deribit.com/api/v2/public/get_instruments?currency=".to_string();
    r.append(currency);
    r.append("&kind=");
    r.append(kind);
    r
}

/// The instruments of a list, by name.
pub fn fetch_instruments(response: InstrumentResponse) -> (r: StringMap<Instrument>)
    ensures
        r.wf(),
        r.listing() == indexed(response.result@),
{
    index_instruments(response.result)
}

/// The instruments of a list, by name.
pub fn index_instruments(instruments: Vec<Instrument>) -> (r: StringMap<Instrument>)
    ensures
        r.wf(),
        r.listing() == indexed(instruments@),
{
    let ghost all = instruments@;
    let mut r: StringMap<Instrument> = StringMap::new();
    for instrument in it: instruments
        invariant
            it.seq() == all,
            r.wf(),
            r.listing() == indexed(all.take(it.index())),
    {
        proof {
            assert(all.take(it.index() + 1).drop_last() == all.take(it.index()));
        }
        let name = instrument.instrument_name.clone();
        r.insert(name, instrument);
    }
    assert(all.take(all.len() as int) == all);
    r
}

/// The entries of a map that was filled from these, of which a later one displaces an earlier one
/// of its key.
pub open spec fn collected(entries: Seq<(String, Instrument)>) -> Seq<(String, Instrument)>
    decreases entries.len(),
{
    if entries.len() == 0 {
        Seq::empty()
    } else {
        string_map::stored(collected(entries.drop_last()), entries.last().0, entries.last().1)
    }
}

/// Whether two entries hold the same.
pub open spec fn same_entry(a: (String, Instrument), b: (String, Instrument)) -> bool {
    a.0@ == b.0@ && a.1.same_as(&b.1)
}

/// Whether these are the entries that the cache is to hold of the instruments.
pub open spec fn cached(
    instruments: Seq<(String, Instrument)>,
    entries: Seq<(String, Instrument)>,
) -> bool {
    &&& entries.len() == instruments.len()
    &&& forall|i: int|
        0 <= i < entries.len() ==> same_entry(#[trigger] entries[i], instruments[i])
}

/// The entries that the cache is to hold.
pub fn cache_instruments(instruments: &StringMap<Instrument>) -> (r: Vec<(String, Instrument)>)
    ensures
        cached(instruments.listing(), r@),
{
    let n: usize = instruments.len();
    let mut r: Vec<(String, Instrument)> = Vec::new();
    for i in 0..n
        invariant
            n == instruments.listing().len(),
            r@.len() == i,
            forall|j: int| 0 <= j < i ==> same_entry(#[trigger] r@[j], instruments.listing()[j]),
    {
        let entry = instruments.entry(i);
        r.push((entry.0.clone(), entry.1.clone()));
    }
    r
}

/// The instruments that the entries of a cache stand for.
pub fn load_cached_instruments(entries: Vec<(String, Instrument)>) -> (r: StringMap<Instrument>)
    ensures
        r.wf(),
        r.listing() == collected(entries@),
{
    let ghost all = entries@;
    let mut r: StringMap<Instrument> = StringMap::new();
    for entry in it: entries
        invariant
            it.seq() == all,
            r.wf(),
            r.listing() == collected(all.take(it.index())),
    {
        proof {
            assert(all.take(it.index() + 1).drop_last() == all.take(it.index()));
        }
        let (name, instrument) = entry;
        r.insert(name, instrument);
    }
    assert(all.take(all.len() as int) == all);
    r
}

/// Where to take the instruments from: the exchange if it answered, else the cache if there is
/// one.
pub fn get_instruments(fetched: bool, cache_exists: bool) -> (r: InstrumentSource)
    ensures
        r == (if fetched {
            InstrumentSource::Exchange
        } else if cache_exists {
            InstrumentSource::Cache
        } else {
            InstrumentSource::Nowhere
        }),
{
    if fetched {
        InstrumentSource::Exchange
    } else if cache_exists {
        InstrumentSource::Cache
    } else {
        InstrumentSource::Nowhere
    }
}

/// The index holds exactly the names of the list; each name leads to an instrument of that name,
/// and to the last one of them.
pub proof fn law_index(instruments: Seq<Instrument>, name: Seq<char>)
    ensures
        string_map::distinct_keys(indexed(instruments)),
        string_map::as_map(indexed(instruments)).dom().contains(name) <==> exists|i: int|
            0 <= i < instruments.len() && (#[trigger] instruments[i]).instrument_name@ == name,
        forall|i: int|
            0 <= i < instruments.len() && (#[trigger] instruments[i]).instrument_name@ == name && (
            forall|j: int|
                i < j < instruments.len() ==> (#[trigger] instruments[j]).instrument_name@ != name)
                ==> string_map::as_map(indexed(instruments))[name] == instruments[i],
    decreases instruments.len(),
{
    if instruments.len() > 0 {
        let front = instruments.drop_last();
        let last = instruments.last();
        law_index(front, name);
        string_map::lemma_stored(indexed(front), last.instrument_name, last);
        let map = string_map::as_map(indexed(instruments));
        assert(map == string_map::as_map(indexed(front)).insert(last.instrument_name@, last));
        let n = instruments.len() - 1;
        assert(instruments[n] == last);
        if exists|i: int|
            0 <= i < front.len() && (#[trigger] front[i]).instrument_name@ == name {
            let i = choose|i: int|
                0 <= i < front.len() && (#[trigger] front[i]).instrument_name@ == name;
            assert(instruments[i].instrument_name@ == name);
        }
        if exists|i: int|
            0 <= i < instruments.len() && (#[trigger] instruments[i]).instrument_name@ == name {
            let i = choose|i: int|
                0 <= i < instruments.len() && (#[trigger] instruments[i]).instrument_name@ == name;
            if i < n {
                assert(front[i].instrument_name@ == name);
            }
        }
        assert forall|i: int|
            0 <= i < instruments.len() && (#[trigger] instruments[i]).instrument_name@ == name && (
            forall|j: int|
                i < j < instruments.len() ==> (
                #[trigger] instruments[j]).instrument_name@ != name) implies map[name]
            == instruments[i] by {
            if i < n {
                assert(instruments[n].instrument_name@ != name);
                assert(front[i].instrument_name@ == name);
                assert forall|j: int| i < j < front.len() implies (
                #[trigger] front[j]).instrument_name@ != name by {
                    assert(front[j] == instruments[j]);
                }
            }
        }
    }
}

/// Every key of the index is the name of its instrument.
pub proof fn law_keys_are_names(instruments: Seq<Instrument>)
    ensures
        forall|i: int|
            0 <= i < indexed(instruments).len() ==> (#[trigger] indexed(instruments)[i]).0@
                == indexed(instruments)[i].1.instrument_name@,
    decreases instruments.len(),
{
    if instruments.len() > 0 {
        let front = indexed(instruments.drop_last());
        let last = instruments.last();
        let after = indexed(instruments);
        law_keys_are_names(instruments.drop_last());
        assert forall|i: int| 0 <= i < after.len() implies (#[trigger] after[i]).0@
            == after[i].1.instrument_name@ by {
            if i < front.len() {
                assert(front[i].0@ == front[i].1.instrument_name@);
            }
        }
    }
}

/// A map that was filled from entries holds exactly their keys, and under each key the value of
/// one of its entries.
proof fn lemma_collected(entries: Seq<(String, Instrument)>, key: Seq<char>)
    ensures
        string_map::distinct_keys(collected(entries)),
        string_map::as_map(collected(entries)).dom().contains(key) <==> string_map::has_key(
            entries,
            key,
        ),
        string_map::has_key(entries, key) ==> exists|i: int|
            0 <= i < entries.len() && (#[trigger] entries[i]).0@ == key && string_map::as_map(
                collected(entries),
            )[key] == entries[i].1,
    decreases entries.len(),
{
    if entries.len() > 0 {
        let front = entries.drop_last();
        let last = entries.last();
        lemma_collected(front, key);
        string_map::lemma_stored(collected(front), last.0, last.1);
        assert(entries[entries.len() - 1] == last);
        if string_map::has_key(front, key) {
            let i = choose|i: int|
                0 <= i < front.len() && (#[trigger] front[i]).0@ == key && string_map::as_map(
                    collected(front),
                )[key] == front[i].1;
            assert(entries[i] == front[i]);
        }
        if string_map::has_key(entries, key) && key != last.0@ {
            let i = choose|i: int| 0 <= i < entries.len() && (#[trigger] entries[i]).0@ == key;
            assert(front[i] == entries[i]);
        }
    }
}

/// Whether one of the entries holds the same as this one.
pub open spec fn among(entry: (String, Instrument), entries: Seq<(String, Instrument)>) -> bool {
    exists|i: int| 0 <= i < entries.len() && same_entry(entry, #[trigger] entries[i])
}

/// Whether a cache into which these entries were written gave these back: the same ones, in any
/// order.
pub open spec fn gave_back(
    written: Seq<(String, Instrument)>,
    read: Seq<(String, Instrument)>,
) -> bool {
    &&& forall|k: int| 0 <= k < read.len() ==> #[trigger] among(read[k], written)
    &&& forall|i: int| 0 <= i < written.len() ==> #[trigger] among(written[i], read)
}

/// What comes back from the cache under one name.
proof fn lemma_gives_back(
    index: Seq<(String, Instrument)>,
    written: Seq<(String, Instrument)>,
    read: Seq<(String, Instrument)>,
    name: Seq<char>,
)
    requires
        string_map::distinct_keys(index),
        cached(index, written),
        gave_back(written, read),
    ensures
        string_map::has_key(index, name) <==> string_map::has_key(read, name),
        string_map::has_key(read, name) ==> string_map::as_map(collected(read))[name].same_as(
            &string_map::as_map(index)[name],
        ),
{
    if string_map::has_key(index, name) {
        let i = choose|i: int| 0 <= i < index.len() && (#[trigger] index[i]).0@ == name;
        assert(same_entry(written[i], index[i]));
        assert(among(written[i], read));
        let k = choose|k: int| 0 <= k < read.len() && same_entry(written[i], #[trigger] read[k]);
        assert(read[k].0@ == name);
    }
    if string_map::has_key(read, name) {
        lemma_collected(read, name);
        let k = choose|k: int|
            0 <= k < read.len() && (#[trigger] read[k]).0@ == name && string_map::as_map(
                collected(read),
            )[name] == read[k].1;
        assert(among(read[k], written));
        let i = choose|i: int|
            0 <= i < written.len() && same_entry(read[k], #[trigger] written[i]);
        assert(same_entry(written[i], index[i]));
        string_map::lemma_index_of_entry(index, i);
    }
}

/// What was fetched and written to the cache comes back from it: the same names, each with the
/// same instrument, whose name it is.
pub proof fn law_cache_gives_back(
    fetched: Seq<Instrument>,
    written: Seq<(String, Instrument)>,
    read: Seq<(String, Instrument)>,
)
    requires
        cached(indexed(fetched), written),
        gave_back(written, read),
    ensures
        string_map::distinct_keys(collected(read)),
        string_map::as_map(collected(read)).dom() == string_map::as_map(indexed(fetched)).dom(),
        forall|name: Seq<char>| #[trigger]
            string_map::as_map(collected(read)).dom().contains(name) ==> {
                let instrument = string_map::as_map(collected(read))[name];
                &&& instrument.same_as(&string_map::as_map(indexed(fetched))[name])
                &&& instrument.instrument_name@ == name
            },
{
    let index = indexed(fetched);
    let before = string_map::as_map(index);
    let after = string_map::as_map(collected(read));
    law_index(fetched, Seq::empty());
    lemma_collected(read, Seq::empty());
    assert forall|name: Seq<char>| #[trigger] after.dom().contains(name) <==> before.dom().contains(
        name,
    ) by {
        lemma_collected(read, name);
        lemma_gives_back(index, written, read, name);
    }
    assert(after.dom() =~= before.dom());
    assert forall|name: Seq<char>| #[trigger] after.dom().contains(name) implies after[name].same_as(
        &before[name],
    ) && after[name].instrument_name@ == name by {
        lemma_collected(read, name);
        lemma_gives_back(index, written, read, name);
        law_keys_are_names(fetched);
        let i = string_map::index_of_key(index, name);
        assert(index[i].0@ == name);
    }
}

/// Instruments that hold the same agree in every field.
pub proof fn law_same_instrument(a: Instrument, b: Instrument)
    requires
        a.same_as(&b),
    ensures
        a.tick_size == b.tick_size,
        a.tick_size_steps@ == b.tick_size_steps@,
        a.taker_commission == b.taker_commission,
        a.settlement_period@ == b.settlement_period@,
        a.settlement_currency@ == b.settlement_currency@,
        a.rfq == b.rfq,
        a.quote_currency@ == b.quote_currency@,
        a.price_index@ == b.price_index@,
        a.min_trade_amount == b.min_trade_amount,
        a.max_liquidation_commission == b.max_liquidation_commission,
        a.max_leverage == b.max_leverage,
        a.maker_commission == b.maker_commission,
        a.kind@ == b.kind@,
        a.is_active == b.is_active,
        a.instrument_name@ == b.instrument_name@,
        a.instrument_id == b.instrument_id,
        a.instrument_type@ == b.instrument_type@,
        a.expiration_timestamp == b.expiration_timestamp,
        a.creation_timestamp == b.creation_timestamp,
        a.counter_currency@ == b.counter_currency@,
        a.contract_size == b.contract_size,
        a.block_trade_tick_size == b.block_trade_tick_size,
        a.block_trade_min_trade_amount == b.block_trade_min_trade_amount,
        a.block_trade_commission == b.block_trade_commission,
        a.base_currency@ == b.base_currency@,
{
}

/// Of the entries of a cache the last one of a name counts.
pub proof fn law_last_entry_is_loaded(entries: Seq<(String, Instrument)>, k: int)
    requires
        0 <= k < entries.len(),
        forall|j: int| k < j < entries.len() ==> (#[trigger] entries[j]).0@ != entries[k].0@,
    ensures
        string_map::as_map(collected(entries)).dom().contains(entries[k].0@),
        string_map::as_map(collected(entries))[entries[k].0@] == entries[k].1,
    decreases entries.len(),
{
    let n = entries.len() - 1;
    let front = entries.drop_last();
    let last = entries.last();
    assert(last == entries[n]);
    lemma_collected(front, last.0@);
    string_map::lemma_stored(collected(front), last.0, last.1);
    if k < n {
        assert(front[k] == entries[k]);
        assert forall|j: int| k < j < front.len() implies (#[trigger] front[j]).0@
            != front[k].0@ by {
            assert(front[j] == entries[j]);
        }
        law_last_entry_is_loaded(front, k);
    }
}

} // verus!
