//! The ticker feed of Binance.

use vstd::prelude::*;
use vstd::string::*;

verus! {

/// A ticker as the exchange names its fields.
#[allow(non_snake_case)]
#[derive(Debug)]
pub struct TickerData {
    /// Event type.
    pub e: String,
    /// Event time.
    pub E: u64,
    /// Symbol.
    pub s: String,
    /// Price change.
    pub p: String,
    /// Price change in percent.
    pub P: String,
    /// Weighted average price.
    pub w: String,
    /// Price of the last trade before the window.
    pub x: String,
    /// Last price.
    pub c: String,
    /// Last quantity.
    pub Q: String,
    /// Best bid price.
    pub b: String,
    /// Best bid quantity.
    pub B: String,
    /// Best ask price.
    pub a: String,
    /// Best ask quantity.
    pub A: String,
    /// Open price.
    pub o: String,
    /// High price.
    pub h: String,
    /// Low price.
    pub l: String,
    /// Traded volume of the base asset.
    pub v: String,
    /// Traded volume of the quote asset.
    pub q: String,
    /// Open time of the window.
    pub O: u64,
    /// Close time of the window.
    pub C: u64,
    /// First trade's id.
    pub F: u64,
    /// Last trade's id.
    pub L: u64,
    /// Number of trades.
    pub n: u64,
}

/// What can happen on the connection.
#[derive(Debug)]
pub enum TickerSignal {
    Ticker(TickerData),
    /// A text that is no ticker.
    UnreadableText,
    Ping(Vec<u8>),
    Other,
    Failed,
    Ended,
}

/// What is to be done about it.
#[derive(Debug)]
pub enum TickerReaction {
    Nothing,
    Report(TickerData),
    ReportUnreadable,
    ReportFailure,
    Pong(Vec<u8>),
    Finish,
}

pub struct BinanceFeed {
    url: String,
}

/// A text in lower case: the result of `str::to_lowercase`.
pub uninterp spec fn lowercase_of(text: Seq<char>) -> Seq<char>;

/// `str::to_lowercase`. Trusted: its result depends on the text alone.
#[verifier::external_body]
fn lowercase(text: &str) -> (r: String)
    ensures
        r@ == lowercase_of(text@),
{
    text.to_lowercase()
}

impl BinanceFeed {
    /// The address that the streams stand under.
    pub closed spec fn base(&self) -> Seq<char> {
        self.url@
    }

    pub fn new(url: String) -> (r: Self)
        ensures
            r.base() == url@,
    {
        BinanceFeed { url }
    }

    /// The address of a symbol's ticker.
    pub fn ticker_url(&self, symbol: &str) -> (r: String)
        ensures
            r@ == self.base() + "/ws/"@ + lowercase_of(symbol@) + "@ticker"@,
    {
        self.stream_url(lowercase(symbol).as_str())
    }

    /// The address of the ticker of a symbol in lower case.
    pub fn stream_url(&self, symbol: &str) -> (r: String)
        ensures
            r@ == self.base() + "/ws/"@ + symbol@ + "@ticker"@,
    {
        let mut r = self.url.clone();
        r.append("/ws/");
        r.append(symbol);
        r.append("@ticker");
        r
    }

    /// What is to be done about something on the connection. A ping is answered without its
    /// payload, and a failure does not end the session.
    pub fn on_signal(&self, signal: TickerSignal) -> (r: TickerReaction)
        ensures
            match signal {
                TickerSignal::Ticker(data) => r == TickerReaction::Report(data),
                TickerSignal::UnreadableText => r is ReportUnreadable,
                TickerSignal::Ping(_) => r matches TickerReaction::Pong(payload)
                    && payload@.len() == 0,
                TickerSignal::Other => r is Nothing,
                TickerSignal::Failed => r is ReportFailure,
                TickerSignal::Ended => r is Finish,
            },
    {
        match signal {
            TickerSignal::Ticker(data) => TickerReaction::Report(data),
            TickerSignal::UnreadableText => TickerReaction::ReportUnreadable,
            TickerSignal::Ping(_) => TickerReaction::Pong(Vec::new()),
            TickerSignal::Other => TickerReaction::Nothing,
            TickerSignal::Failed => TickerReaction::ReportFailure,
            TickerSignal::Ended => TickerReaction::Finish,
        }
    }
}

} // verus!
