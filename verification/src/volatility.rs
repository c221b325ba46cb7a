//! The volatility index as the exchange pushes it.

use vstd::prelude::*;

use crate::auth::DeribitConfig;
use crate::rpc;
use crate::rpc::{Params, Request};
use crate::seqs;
use crate::session;
use crate::session::{react, Reaction, Signal};
use crate::text::same_text;

verus! {

/// The listener to the volatility index.
pub struct VolatilityManager {
    pub config: DeribitConfig,
}

impl VolatilityManager {
    pub fn new(config: DeribitConfig) -> (r: Self)
        ensures
            r.config == config,
    {
        VolatilityManager { config }
    }

    /// The request for the pushes of the index.
    pub fn subscription_request(&self) -> (r: Request)
        ensures
            r.subscribes(3, "public/subscribe"@, seq!["deribit_volatility_index.btc_usd"@]),
    {
        let mut channels: Vec<String> = Vec::new();
        channels.push("deribit_volatility_index.btc_usd".to_string());
        assert(seqs::texts(channels@) =~= seq!["deribit_volatility_index.btc_usd"@]);
        rpc::request(3, "public/subscribe", Params::Channels { channels })
    }

    /// Whether what comes on this channel is the index, and is to be passed on.
    pub fn is_index(&self, channel: &str) -> (r: bool)
        ensures
            r == (channel@ == "deribit_volatility_index.btc_usd"@),
    {
        same_text(channel, "deribit_volatility_index.btc_usd")
    }

    /// What is to be done about something on the connection: of data, what is to be passed on.
    pub fn on_signal<D>(&self, signal: Signal<D>) -> (r: Reaction<Option<D>>)
        ensures
            session::reacts(r, signal),
            session::delivery(signal) matches Some((channel, data)) ==> r == Reaction::Deliver(
                if channel@ == "deribit_volatility_index.btc_usd"@ {
                    Some(data)
                } else {
                    None
                },
            ),
    {
        match react(signal) {
            Reaction::Nothing => Reaction::Nothing,
            Reaction::Send(request) => Reaction::Send(request),
            Reaction::Pong(payload) => Reaction::Pong(payload),
            Reaction::RefreshLogin => Reaction::RefreshLogin,
            Reaction::Deliver((channel, data)) => if self.is_index(channel.as_str()) {
                Reaction::Deliver(Some(data))
            } else {
                Reaction::Deliver(None)
            },
            Reaction::Finish => Reaction::Finish,
            Reaction::Abort => Reaction::Abort,
        }
    }
}

} // verus!
