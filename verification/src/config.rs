//! Configuration of a node.
use vstd::prelude::*;
use vstd::string::*;

use crate::node::NodeRole;
use crate::risk::RiskLimits;
use crate::text;
use crate::types::Venue;

verus! {

/// Parameters of the market making strategy.
#[derive(Debug, Clone, Copy, PartialEq, Eq, Structural)]
pub struct StrategyConfig {
    /// Size of each quote in the smallest unit of the base currency.
    pub order_qty: u64,
    /// Largest net inventory, in the same unit.
    pub max_inventory: u64,
    /// Half of the spread in pipettes, the smallest price increment.
    pub half_spread_pipettes: i64,
    /// Risk aversion in units of 0.0001.
    pub gamma: i64,
    /// Ticks of data before the first quote.
    pub warmup_ticks: u32,
    /// Ticks between two quotes.
    pub cooldown_ticks: u32,
    /// Smallest move of the mid price, in pipettes, that leads to a new quote.
    pub requote_threshold: i64,
    /// Whether the toxicity filter is on; decided by the mode where it is not given.
    pub vpin_enabled: Option<bool>,
    /// Seconds without news from the exchange after which an open order is stale.
    pub stale_order_timeout_secs: u64,
}

impl Default for StrategyConfig {
    fn default() -> (r: Self)
        ensures
            r == (StrategyConfig {
                order_qty: 100_000,
                max_inventory: 20_000_000,
                half_spread_pipettes: 10,
                gamma: 1000,
                warmup_ticks: 3,
                cooldown_ticks: 2,
                requote_threshold: 5,
                vpin_enabled: None,
                stale_order_timeout_secs: 30,
            }),
    {
        StrategyConfig {
            order_qty: 100_000,
            max_inventory: 20_000_000,
            half_spread_pipettes: 10,
            gamma: 1000,
            warmup_ticks: 3,
            cooldown_ticks: 2,
            requote_threshold: 5,
            vpin_enabled: None,
            stale_order_timeout_secs: 30,
        }
    }
}

/// Settings of the exchange gateway. The keys come from environment variables.
#[derive(Debug)]
pub struct GatewaySettings {
    /// `live` or `testnet`.
    pub mode: String,
    /// Environment variable that holds the key.
    pub api_key_env: String,
    /// Environment variable that holds the secret.
    pub api_secret_env: String,
    /// Whether orders are sent, and not only logged.
    pub enabled: bool,
}

impl Default for GatewaySettings {
    fn default() -> (r: Self)
        ensures
            r.mode@ == "testnet"@,
            r.api_key_env@ == "ATOMIC_API_KEY"@,
            r.api_secret_env@ == "ATOMIC_API_SECRET"@,
            !r.enabled,
    {
        GatewaySettings {
            mode: "testnet".to_owned(),
            api_key_env: "ATOMIC_API_KEY".to_owned(),
            api_secret_env: "ATOMIC_API_SECRET".to_owned(),
            enabled: false,
        }
    }
}

/// The value of an environment variable, or the error that it is not set.
pub open spec fn required(name: Seq<char>, value: Option<Seq<char>>) -> Result<
    Seq<char>,
    Seq<char>,
> {
    match value {
        Some(v) => Ok(v),
        None => Err("env var '"@ + name + "' not set"@),
    }
}

/// The value of an environment variable, or the error that it is not set.
fn require_var(name: &str, value: Option<String>) -> (r: Result<String, String>)
    ensures
        match (r, required(name@, value.deep_view())) {
            (Ok(v), Ok(w)) => v@ == w,
            (Err(e), Err(f)) => e@ == f,
            _ => false,
        },
{
    match value {
        Some(v) => Ok(v),
        None => {
            let mut message = "env var '".to_owned();
            message.append(name);
            message.append("' not set");
            Err(message)
        },
    }
}

impl GatewaySettings {
    /// The key, given what its environment variable holds.
    pub fn api_key(&self, value: Option<String>) -> (r: Result<String, String>)
        ensures
            match (r, required(self.api_key_env@, value.deep_view())) {
                (Ok(v), Ok(w)) => v@ == w,
                (Err(e), Err(f)) => e@ == f,
                _ => false,
            },
    {
        require_var(self.api_key_env.as_str(), value)
    }

    /// The secret, given what its environment variable holds.
    pub fn api_secret(&self, value: Option<String>) -> (r: Result<String, String>)
        ensures
            match (r, required(self.api_secret_env@, value.deep_view())) {
                (Ok(v), Ok(w)) => v@ == w,
                (Err(e), Err(f)) => e@ == f,
                _ => false,
            },
    {
        require_var(self.api_secret_env.as_str(), value)
    }

    /// Whether the mode is `testnet`.
    pub fn is_testnet(&self) -> (r: bool)
        ensures
            r == (self.mode@ == "testnet"@),
    {
        text::is_same(self.mode.as_str(), "testnet")
    }
}

/// A peer of the mesh.
#[derive(Debug)]
pub struct PeerConfig {
    pub node_id: String,
    pub addr: String,
}

/// A market data feed.
#[derive(Debug)]
pub struct FeedConfig {
    pub venue: Venue,
    pub symbols: Vec<String>,
    pub price_decimals: u8,
    pub qty_decimals: u8,
}

/// Configuration of a node.
#[derive(Debug)]
pub struct NodeConfig {
    pub node_id: String,
    pub role: NodeRole,
    pub bind_addr: String,
    pub peers: Vec<PeerConfig>,
    pub feeds: Vec<FeedConfig>,
    pub risk: RiskLimits,
    pub event_log_path: String,
    pub snapshot_interval: u64,
    pub gateway: GatewaySettings,
    pub strategy: StrategyConfig,
}

impl Default for NodeConfig {
    fn default() -> (r: Self)
        ensures
            r.node_id@ == "node-0"@,
            r.role == NodeRole::Leader,
            r.bind_addr@ == "0.0.0.0:5001"@,
            r.peers@.len() == 0,
            r.feeds@.len() == 1,
            r.feeds@[0].venue == Venue::Binance,
            r.feeds@[0].symbols.deep_view() == seq!["BTCUSDT"@],
            r.feeds@[0].price_decimals == 2,
            r.feeds@[0].qty_decimals == 8,
            r.risk.max_position_qty == 1_000_000_000,
            r.risk.max_notional == 500_000_000_000,
            r.risk.max_total_notional == 1_000_000_000_000,
            r.risk.max_order_qty == 100_000_000,
            r.risk.max_open_orders == 100,
            r.risk.max_loss == -10_000_000_000,
            r.risk.max_orders_per_second == 50,
            r.risk.max_spread == 5000,
            r.risk.max_consecutive_losses == 5,
            r.risk.max_drawdown_bps == 200,
            r.event_log_path@ == "data/events.log"@,
            r.snapshot_interval == 10000,
            r.gateway.mode@ == "testnet"@,
            r.gateway.api_key_env@ == "ATOMIC_API_KEY"@,
            r.gateway.api_secret_env@ == "ATOMIC_API_SECRET"@,
            !r.gateway.enabled,
            r.strategy == (StrategyConfig {
                order_qty: 100_000,
                max_inventory: 20_000_000,
                half_spread_pipettes: 10,
                gamma: 1000,
                warmup_ticks: 3,
                cooldown_ticks: 2,
                requote_threshold: 5,
                vpin_enabled: None,
                stale_order_timeout_secs: 30,
            }),
    {
        let mut symbols: Vec<String> = Vec::new();
        symbols.push("BTCUSDT".to_owned());
        assert(symbols.deep_view() =~= seq!["BTCUSDT"@]);
        let mut feeds: Vec<FeedConfig> = Vec::new();
        feeds.push(
            FeedConfig { venue: Venue::Binance, symbols, price_decimals: 2, qty_decimals: 8 },
        );
        NodeConfig {
            node_id: "node-0".to_owned(),
            role: NodeRole::Leader,
            bind_addr: "0.0.0.0:5001".to_owned(),
            peers: Vec::new(),
            feeds,
            risk: RiskLimits::default(),
            event_log_path: "data/events.log".to_owned(),
            snapshot_interval: 10000,
            gateway: GatewaySettings::default(),
            strategy: StrategyConfig::default(),
        }
    }
}

impl NodeConfig {
    /// Whether a configuration file is in a supported format; if not, what is wrong.
    pub fn check_format(path: &str) -> (r: Result<(), &'static str>)
        ensures
            match r {
                Ok(_) => text::has_suffix(path@, ".json"@),
                Err(e) => !text::has_suffix(path@, ".json"@) && e@
                    == "unsupported config format (use .json)"@,
            },
    {
        match text::strip_suffix(path, ".json") {
            Some(_) => Ok(()),
            None => Err("unsupported config format (use .json)"),
        }
    }
}

} // verus!
