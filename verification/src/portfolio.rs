//! The state of the account as the exchange pushes it.

use vstd::prelude::*;

use crate::auth::DeribitConfig;
use crate::binary64::Binary64;
use crate::rpc;
use crate::rpc::{Params, Request};
use crate::seqs;
use crate::session;
use crate::session::{react, Reaction, Signal};
use crate::string_map::StringMap;
use crate::text::starts_with;

verus! {

/// The state of the account.
#[derive(Debug)]
pub struct PortfolioData {
    pub maintenance_margin: Binary64,
    pub delta_total: Binary64,
    pub options_session_rpl: Binary64,
    pub futures_session_rpl: Binary64,
    pub delta_total_map: StringMap<Binary64>,
    pub session_upl: Binary64,
    pub fee_balance: Binary64,
    pub estimated_liquidation_ratio: Option<Binary64>,
    pub initial_margin: Binary64,
    pub options_gamma_map: StringMap<Binary64>,
    pub futures_pl: Binary64,
    pub currency: String,
    pub options_value: Binary64,
    pub projected_maintenance_margin: Binary64,
    pub options_vega: Binary64,
    pub session_rpl: Binary64,
    pub futures_session_upl: Binary64,
    pub options_session_upl: Binary64,
    pub cross_collateral_enabled: bool,
    pub options_theta: Binary64,
    pub margin_model: String,
    pub options_delta: Binary64,
    pub options_pl: Binary64,
    pub options_vega_map: StringMap<Binary64>,
    pub balance: Binary64,
    pub additional_reserve: Binary64,
    pub estimated_liquidation_ratio_map: Option<StringMap<Binary64>>,
    pub projected_initial_margin: Binary64,
    pub available_funds: Binary64,
    pub spot_reserve: Binary64,
    pub projected_delta_total: Binary64,
    pub portfolio_margining_enabled: bool,
    pub total_pl: Binary64,
    pub margin_balance: Binary64,
    pub options_theta_map: StringMap<Binary64>,
    pub available_withdrawal_funds: Binary64,
    pub equity: Binary64,
    pub options_gamma: Binary64,
}

/// Whether two optional maps hold the same.
pub open spec fn same_ratios(
    a: Option<StringMap<Binary64>>,
    b: Option<StringMap<Binary64>>,
) -> bool {
    match (a, b) {
        (Some(x), Some(y)) => x.listing() == y.listing(),
        (None, None) => true,
        _ => false,
    }
}

impl PortfolioData {
    /// The maps are well formed.
    pub open spec fn wf(&self) -> bool {
        &&& self.delta_total_map.wf()
        &&& self.options_gamma_map.wf()
        &&& self.options_vega_map.wf()
        &&& self.options_theta_map.wf()
        &&& self.estimated_liquidation_ratio_map matches Some(ratios) ==> ratios.wf()
    }

    /// Whether both hold the same.
    pub open spec fn same_as(&self, other: &Self) -> bool {
        &&& self.delta_total_map.listing() == other.delta_total_map.listing()
        &&& self.options_gamma_map.listing() == other.options_gamma_map.listing()
        &&& self.options_vega_map.listing() == other.options_vega_map.listing()
        &&& self.options_theta_map.listing() == other.options_theta_map.listing()
        &&& same_ratios(
            self.estimated_liquidation_ratio_map,
            other.estimated_liquidation_ratio_map,
        )
        &&& *self == (PortfolioData {
            delta_total_map: self.delta_total_map,
            options_gamma_map: self.options_gamma_map,
            options_vega_map: self.options_vega_map,
            options_theta_map: self.options_theta_map,
            estimated_liquidation_ratio_map: self.estimated_liquidation_ratio_map,
            ..*other
        })
    }
}

impl Clone for PortfolioData {
    fn clone(&self) -> (r: Self)
        ensures
            r.same_as(self),
    {
        PortfolioData {
            maintenance_margin: self.maintenance_margin,
            delta_total: self.delta_total,
            options_session_rpl: self.options_session_rpl,
            futures_session_rpl: self.futures_session_rpl,
            delta_total_map: self.delta_total_map.clone(),
            session_upl: self.session_upl,
            fee_balance: self.fee_balance,
            estimated_liquidation_ratio: self.estimated_liquidation_ratio,
            initial_margin: self.initial_margin,
            options_gamma_map: self.options_gamma_map.clone(),
            futures_pl: self.futures_pl,
            currency: self.currency.clone(),
            options_value: self.options_value,
            projected_maintenance_margin: self.projected_maintenance_margin,
            options_vega: self.options_vega,
            session_rpl: self.session_rpl,
            futures_session_upl: self.futures_session_upl,
            options_session_upl: self.options_session_upl,
            cross_collateral_enabled: self.cross_collateral_enabled,
            options_theta: self.options_theta,
            margin_model: self.margin_model.clone(),
            options_delta: self.options_delta,
            options_pl: self.options_pl,
            options_vega_map: self.options_vega_map.clone(),
            balance: self.balance,
            additional_reserve: self.additional_reserve,
            estimated_liquidation_ratio_map: match &self.estimated_liquidation_ratio_map {
                Some(ratios) => Some(ratios.clone()),
                None => None,
            },
            projected_initial_margin: self.projected_initial_margin,
            available_funds: self.available_funds,
            spot_reserve: self.spot_reserve,
            projected_delta_total: self.projected_delta_total,
            portfolio_margining_enabled: self.portfolio_margining_enabled,
            total_pl: self.total_pl,
            margin_balance: self.margin_balance,
            options_theta_map: self.options_theta_map.clone(),
            available_withdrawal_funds: self.available_withdrawal_funds,
            equity: self.equity,
            options_gamma: self.options_gamma,
        }
    }
}

/// The keeper of the account's state.
pub struct PortfolioManager {
    pub config: DeribitConfig,
    /// The last state that was pushed.
    pub portfolio_data: Option<PortfolioData>,
}

impl PortfolioManager {
    pub fn new(config: DeribitConfig) -> (r: Self)
        ensures
            r.config == config,
            r.portfolio_data is None,
    {
        PortfolioManager { config, portfolio_data: None }
    }

    /// The request for the pushes of the account's state.
    pub fn subscription_request(&self) -> (r: Request)
        ensures
            r.subscribes(3, "public/subscribe"@, seq!["user.portfolio.BTC"@]),
    {
        let mut channels: Vec<String> = Vec::new();
        channels.push("user.portfolio.BTC".to_string());
        assert(seqs::texts(channels@) =~= seq!["user.portfolio.BTC"@]);
        rpc::request(3, "public/subscribe", Params::Channels { channels })
    }

    /// Takes in what a subscription delivered, and says whether it is a state of the account,
    /// which is then kept and to be passed on.
    pub fn on_delivery(&mut self, channel: &str, data: PortfolioData) -> (r: bool)
        ensures
            r == "user.portfolio."@.is_prefix_of(channel@),
            final(self).config == old(self).config,
            final(self).portfolio_data == (if r {
                Some(data)
            } else {
                old(self).portfolio_data
            }),
    {
        if starts_with(channel, "user.portfolio.") {
            self.portfolio_data = Some(data);
            true
        } else {
            false
        }
    }

    /// Takes in something that happened on the connection and says what is to be done: of data
    /// whether it is a state of the account, which is then kept and to be passed on.
    pub fn on_signal(&mut self, signal: Signal<PortfolioData>) -> (r: Reaction<bool>)
        ensures
            session::reacts(r, signal),
            final(self).config == old(self).config,
            match session::delivery(signal) {
                Some((channel, data)) => {
                    &&& r == Reaction::Deliver("user.portfolio."@.is_prefix_of(channel@))
                    &&& final(self).portfolio_data == (if "user.portfolio."@.is_prefix_of(channel@) {
                        Some(data)
                    } else {
                        old(self).portfolio_data
                    })
                },
                None => final(self).portfolio_data == old(self).portfolio_data,
            },
    {
        match react(signal) {
            Reaction::Nothing => Reaction::Nothing,
            Reaction::Send(request) => Reaction::Send(request),
            Reaction::Pong(payload) => Reaction::Pong(payload),
            Reaction::RefreshLogin => Reaction::RefreshLogin,
            Reaction::Deliver((channel, data)) => Reaction::Deliver(
                self.on_delivery(channel.as_str(), data),
            ),
            Reaction::Finish => Reaction::Finish,
            Reaction::Abort => Reaction::Abort,
        }
    }
}

/// Account states that hold the same agree in every field.
pub proof fn law_same_account(a: PortfolioData, b: PortfolioData)
    requires
        a.same_as(&b),
    ensures
        a.maintenance_margin == b.maintenance_margin,
        a.delta_total == b.delta_total,
        a.options_session_rpl == b.options_session_rpl,
        a.futures_session_rpl == b.futures_session_rpl,
        a.delta_total_map.listing() == b.delta_total_map.listing(),
        a.session_upl == b.session_upl,
        a.fee_balance == b.fee_balance,
        a.estimated_liquidation_ratio == b.estimated_liquidation_ratio,
        a.initial_margin == b.initial_margin,
        a.options_gamma_map.listing() == b.options_gamma_map.listing(),
        a.futures_pl == b.futures_pl,
        a.currency@ == b.currency@,
        a.options_value == b.options_value,
        a.projected_maintenance_margin == b.projected_maintenance_margin,
        a.options_vega == b.options_vega,
        a.session_rpl == b.session_rpl,
        a.futures_session_upl == b.futures_session_upl,
        a.options_session_upl == b.options_session_upl,
        a.cross_collateral_enabled == b.cross_collateral_enabled,
        a.options_theta == b.options_theta,
        a.margin_model@ == b.margin_model@,
        a.options_delta == b.options_delta,
        a.options_pl == b.options_pl,
        a.options_vega_map.listing() == b.options_vega_map.listing(),
        a.balance == b.balance,
        a.additional_reserve == b.additional_reserve,
        a.estimated_liquidation_ratio_map is Some <==> b.estimated_liquidation_ratio_map is Some,
        a.estimated_liquidation_ratio_map is Some ==> a.estimated_liquidation_ratio_map->0.listing()
            == b.estimated_liquidation_ratio_map->0.listing(),
        a.projected_initial_margin == b.projected_initial_margin,
        a.available_funds == b.available_funds,
        a.spot_reserve == b.spot_reserve,
        a.projected_delta_total == b.projected_delta_total,
        a.portfolio_margining_enabled == b.portfolio_margining_enabled,
        a.total_pl == b.total_pl,
        a.margin_balance == b.margin_balance,
        a.options_theta_map.listing() == b.options_theta_map.listing(),
        a.available_withdrawal_funds == b.available_withdrawal_funds,
        a.equity == b.equity,
        a.options_gamma == b.options_gamma,
{
}

} // verus!
