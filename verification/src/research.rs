//! Research sessions: securities, dates and indicators.

use crate::decimal::Decimal;
use crate::history_service::date_window;
use crate::model::{Symbol, TradeBar};
use crate::name_map::NameMap;
use crate::sorting::{last_rows, take_last};
use crate::text::{text_eq, texts, to_uppercase, trim, trimmed, unicode_upper};
use crate::time::{clock_ns, epoch_days, valid_ymd, Date, DateTime};
use vstd::prelude::*;
use vstd::string::*;

verus! {

/// Where research reads history from.
#[derive(Debug, Clone)]
pub enum ResearchDataProviderConfig {
    /// The catalog of stored market data.
    Catalog,
    ThetaData { api_token: String },
    Polygon { api_key: String },
}

impl Default for ResearchDataProviderConfig {
    fn default() -> (res: ResearchDataProviderConfig)
        ensures
            res is Catalog,
    {
        ResearchDataProviderConfig::Catalog
    }
}

/// A research session.
pub struct ResearchEngine {
    pub start_date: Date,
    pub end_date: Date,
    pub securities: NameMap<Symbol>,
    pub provider: ResearchDataProviderConfig,
}

/// Which indicator is run.
#[derive(Clone, Copy, Debug, PartialEq, Eq, Structural)]
pub enum IndicatorPlan {
    Sma { period: usize },
    Ema { period: usize },
    Rsi { period: usize },
    Atr { period: usize },
    Macd { fast: usize, slow: usize, signal: usize },
    /// Bands at two deviations.
    Bollinger { period: usize },
    Unknown,
}

/// The indicator that a name in capitals stands for.
pub open spec fn indicator_named(name: Seq<char>, period: usize) -> IndicatorPlan {
    if name == "SMA"@ {
        IndicatorPlan::Sma { period }
    } else if name == "EMA"@ {
        IndicatorPlan::Ema { period }
    } else if name == "RSI"@ {
        IndicatorPlan::Rsi { period }
    } else if name == "ATR"@ {
        IndicatorPlan::Atr { period }
    } else if name == "MACD"@ {
        IndicatorPlan::Macd {
            fast: period,
            slow: (period * 2 + 2) as usize,
            signal: if period / 2 >= 1 {
                (period / 2) as usize
            } else {
                1
            },
        }
    } else if name == "BB"@ || name == "BOLLINGERBANDS"@ || name == "BOLLINGER"@ {
        IndicatorPlan::Bollinger { period }
    } else {
        IndicatorPlan::Unknown
    }
}

/// The indicator that a name in capitals stands for.
pub fn indicator_for_upper_name(name: &str, period: usize) -> (res: IndicatorPlan)
    requires
        name@ == "MACD"@ ==> period * 2 + 2 <= usize::MAX,
    ensures
        res == indicator_named(name@, period),
{
    if text_eq(name, "SMA") {
        IndicatorPlan::Sma { period }
    } else if text_eq(name, "EMA") {
        IndicatorPlan::Ema { period }
    } else if text_eq(name, "RSI") {
        IndicatorPlan::Rsi { period }
    } else if text_eq(name, "ATR") {
        IndicatorPlan::Atr { period }
    } else if text_eq(name, "MACD") {
        let half: usize = period / 2;
        IndicatorPlan::Macd {
            fast: period,
            slow: period * 2 + 2,
            signal: if half >= 1 {
                half
            } else {
                1
            },
        }
    } else if text_eq(name, "BB") || text_eq(name, "BOLLINGERBANDS") || text_eq(name, "BOLLINGER") {
        IndicatorPlan::Bollinger { period }
    } else {
        IndicatorPlan::Unknown
    }
}

/// The indicator that a name stands for, in whatever case.
pub fn run_indicator(name: &str, period: usize) -> (res: IndicatorPlan)
    requires
        unicode_upper(name@) == "MACD"@ ==> period * 2 + 2 <= usize::MAX,
    ensures
        res == indicator_named(unicode_upper(name@), period),
{
    let upper = to_uppercase(name);
    indicator_for_upper_name(upper.as_str(), period)
}

impl ResearchEngine {
    pub open spec fn wf(&self) -> bool {
        self.securities.wf()
    }

    /// A session over the year before a date.
    pub fn new(today: Date) -> (res: ResearchEngine)
        requires
            today.days >= crate::time::MIN_DATE_DAYS + 365,
        ensures
            res.wf(),
            res.end_date == today,
            res.start_date.days == today.days - 365,
            res.securities@ == Map::<Seq<char>, Symbol>::empty(),
            res.provider is Catalog,
    {
        ResearchEngine {
            start_date: Date { days: today.days - 365 },
            end_date: today,
            securities: NameMap::new(),
            provider: ResearchDataProviderConfig::Catalog,
        }
    }

    /// Sets the start date; one that does not exist leaves it as it is.
    pub fn set_start_date(&mut self, year: i32, month: u32, day: u32)
        ensures
            *final(self) == (ResearchEngine { start_date: final(self).start_date, ..*old(self) }),
            if valid_ymd(year as int, month as int, day as int) {
                final(self).start_date.days == epoch_days(year as int, month as int, day as int)
            } else {
                final(self).start_date == old(self).start_date
            },
    {
        if let Some(date) = Date::from_ymd(year, month, day) {
            self.start_date = date;
        }
    }

    /// Sets the end date; one that does not exist leaves it as it is.
    pub fn set_end_date(&mut self, year: i32, month: u32, day: u32)
        ensures
            *final(self) == (ResearchEngine { end_date: final(self).end_date, ..*old(self) }),
            if valid_ymd(year as int, month as int, day as int) {
                final(self).end_date.days == epoch_days(year as int, month as int, day as int)
            } else {
                final(self).end_date == old(self).end_date
            },
    {
        if let Some(date) = Date::from_ymd(year, month, day) {
            self.end_date = date;
        }
    }

    /// Reads history from the catalog; the folder does not matter.
    pub fn set_data_folder(&mut self)
        ensures
            *final(self) == (ResearchEngine {
                provider: ResearchDataProviderConfig::Catalog,
                ..*old(self)
            }),
    {
        self.provider = ResearchDataProviderConfig::Catalog;
    }

    pub fn set_thetadata_provider(&mut self, api_token: String)
        ensures
            *final(self) == (ResearchEngine {
                provider: ResearchDataProviderConfig::ThetaData { api_token },
                ..*old(self)
            }),
    {
        self.provider = ResearchDataProviderConfig::ThetaData { api_token };
    }

    pub fn set_polygon_provider(&mut self, api_key: String)
        ensures
            *final(self) == (ResearchEngine {
                provider: ResearchDataProviderConfig::Polygon { api_key },
                ..*old(self)
            }),
    {
        self.provider = ResearchDataProviderConfig::Polygon { api_key };
    }

    /// Whether history is read from the catalog; other providers have none.
    pub fn reads_catalog(&self) -> (res: bool)
        ensures
            res == (self.provider is Catalog),
    {
        match &self.provider {
            ResearchDataProviderConfig::Catalog => true,
            ResearchDataProviderConfig::ThetaData { .. } => false,
            ResearchDataProviderConfig::Polygon { .. } => false,
        }
    }

    /// Adds an equity under its ticker in capitals.
    pub fn add_equity(&mut self, ticker: &str, symbol: Symbol)
        requires
            old(self).wf(),
        ensures
            final(self).wf(),
            final(self).securities@ == old(self).securities@.insert(unicode_upper(ticker@), symbol),
            *final(self) == (ResearchEngine { securities: final(self).securities, ..*old(self) }),
    {
        self.securities.insert(to_uppercase(ticker), symbol);
    }

    /// Adds an option under the canonical form of its ticker, and returns that.
    pub fn add_option(&mut self, ticker: &str, symbol: Symbol) -> (canonical: String)
        requires
            old(self).wf(),
        ensures
            final(self).wf(),
            canonical@ == "?"@ + unicode_upper(ticker@),
            final(self).securities@ == old(self).securities@.insert(canonical@, symbol),
            *final(self) == (ResearchEngine { securities: final(self).securities, ..*old(self) }),
    {
        let upper = to_uppercase(ticker);
        let canonical = "?".to_owned().concat(upper.as_str());
        self.securities.insert(canonical.clone(), symbol);
        canonical
    }

    /// Adds a future under its ticker in capitals.
    pub fn add_future(&mut self, ticker: &str, symbol: Symbol)
        requires
            old(self).wf(),
        ensures
            final(self).wf(),
            final(self).securities@ == old(self).securities@.insert(unicode_upper(ticker@), symbol),
            *final(self) == (ResearchEngine { securities: final(self).securities, ..*old(self) }),
    {
        self.securities.insert(to_uppercase(ticker), symbol);
    }

    /// The security added under a ticker, in whatever case. For one that was not
    /// added, the ticker in capitals, which names an equity.
    pub fn symbol_for(&self, ticker: &str) -> (res: Result<&Symbol, String>)
        requires
            self.wf(),
        ensures
            match res {
                Ok(symbol) => self.securities@.dom().contains(unicode_upper(ticker@)) && *symbol
                    == self.securities@[unicode_upper(ticker@)],
                Err(upper) => !self.securities@.dom().contains(unicode_upper(ticker@)) && upper@
                    == unicode_upper(ticker@),
            },
    {
        let upper = to_uppercase(ticker);
        match self.securities.get(upper.as_str()) {
            Some(symbol) => Ok(symbol),
            None => Err(upper),
        }
    }

    /// Tickers of the securities, in the order in which they were added.
    pub fn security_keys(&self) -> (res: Vec<String>)
        requires
            self.wf(),
        ensures
            texts(res@) == self.securities.entries@.map_values(
                |entry: (String, Symbol)| entry.0@,
            ),
            forall|key: Seq<char>|
                texts(res@).contains(key) <==> #[trigger] self.securities@.dom().contains(key),
    {
        let mut out: Vec<String> = Vec::new();
        let ghost all = self.securities.entries@;
        let ghost f = |entry: (String, Symbol)| entry.0@;
        let mut i: usize = 0;
        assert(texts(out@) =~= all.take(0).map_values(f));
        while i < self.securities.entries.len()
            invariant
                i <= all.len(),
                self.securities.entries@ == all,
                f == |entry: (String, Symbol)| entry.0@,
                texts(out@) == all.take(i as int).map_values(f),
            decreases all.len() - i,
        {
            let ghost before = out@;
            let key = self.securities.entries[i].0.clone();
            out.push(key);
            proof {
                assert(texts(out@) =~= texts(before).push(key@));
                assert(all.take(i + 1).map_values(f) =~= all.take(i as int).map_values(f).push(
                    f(all[i as int]),
                ));
            }
            i = i + 1;
        }
        proof {
            assert(all.take(i as int) =~= all);
            assert forall|key: Seq<char>|
                texts(out@).contains(key) <==> #[trigger] self.securities@.dom().contains(key) by {
                if texts(out@).contains(key) {
                    let k = choose|k: int| 0 <= k < texts(out@).len() && texts(out@)[k] == key;
                    self.securities.lemma_entry(k);
                }
                if self.securities@.dom().contains(key) {
                    assert(self.securities.has(key));
                    let k = self.securities.index_of(key);
                    assert(texts(out@)[k] == key);
                }
            }
        }
        out
    }

    /// The instants between which history of some dates is read from the
    /// catalog. The other providers have no history.
    pub fn history_range(&self, start: Date, end: Date) -> (res: Option<(DateTime, DateTime)>)
        requires
            start.on_clock(),
            end.on_clock(),
        ensures
            match res {
                Some(window) => {
                    &&& self.provider is Catalog
                    &&& window.0.ns == clock_ns(start.days as int, 0)
                    &&& window.1.ns == clock_ns(end.days as int, 86_399)
                },
                None => !(self.provider is Catalog),
            },
    {
        if self.reads_catalog() {
            Some(date_window(start, end))
        } else {
            None
        }
    }

    /// The close of the last bar of a history.
    pub fn last_price(bars: Vec<TradeBar>) -> (res: Option<Decimal>)
        ensures
            res == (if bars@.len() == 0 {
                None
            } else {
                Some(bars@.last().close)
            }),
    {
        let last = ResearchEngine::history_count(bars, 1);
        if last.len() == 0 {
            return None;
        }
        Some(last[0].close)
    }

    /// The last bars of a history.
    pub fn history_count(bars: Vec<TradeBar>, bar_count: usize) -> (res: Vec<TradeBar>)
        ensures
            res@ == last_rows(bars@, bar_count as int),
    {
        take_last(bars, bar_count)
    }

    /// The indicator to run over some bars. There is none without bars, nor where
    /// the longer average of a MACD would have no length.
    pub fn indicator(name: &str, period: usize, bars: &Vec<TradeBar>) -> (res: Option<IndicatorPlan>)
        ensures
            res == (if bars@.len() == 0 || (unicode_upper(name@) == "MACD"@ && period * 2 + 2
                > usize::MAX) {
                None
            } else {
                Some(indicator_named(unicode_upper(name@), period))
            }),
    {
        if bars.len() == 0 {
            return None;
        }
        let upper = to_uppercase(name);
        if text_eq(upper.as_str(), "MACD") && period > (usize::MAX - 2) / 2 {
            return None;
        }
        Some(run_indicator(name, period))
    }

    pub fn start_date(&self) -> (res: Date)
        ensures
            res == self.start_date,
    {
        self.start_date
    }

    pub fn end_date(&self) -> (res: Date)
        ensures
            res == self.end_date,
    {
        self.end_date
    }
}

/// Value of an environment variable without white space around it; a blank one
/// counts as unset.
pub fn env_value(value: Option<String>) -> (res: Option<String>)
    ensures
        match (value, res) {
            (Some(text), Some(bare)) => bare@ == trimmed(text@) && bare@.len() > 0,
            (Some(text), None) => trimmed(text@).len() == 0,
            (None, None) => true,
            _ => false,
        },
{
    match value {
        Some(text) => {
            let bare = trim(text.as_str());
            if bare.as_str().is_empty() {
                None
            } else {
                Some(bare)
            }
        },
        None => None,
    }
}

/// How requests to the catalog are signed.
pub struct SigV4Config {
    pub region: String,
    pub signing_name: String,
}

/// Connection of the catalog.
pub struct RestCatalogConfig {
    pub uri: String,
    pub warehouse: String,
    pub sigv4: Option<SigV4Config>,
    pub namespace: String,
}

/// Settings of the catalog as they were found, blank ones left out.
pub struct CatalogSettings {
    pub catalog: Option<String>,
    pub warehouse: Option<String>,
    pub sigv4_region: Option<String>,
    pub sigv4_name: Option<String>,
    pub namespace: Option<String>,
}

/// Text of a setting, or its default.
pub open spec fn text_or(value: Option<String>, default: Seq<char>) -> Seq<char> {
    match value {
        Some(text) => text@,
        None => default,
    }
}

/// The connection of the catalog. Its address and its warehouse have to be set;
/// requests are signed where a region is set.
pub fn catalog_config(settings: CatalogSettings, default_namespace: &str) -> (res: Result<
    RestCatalogConfig,
    String,
>)
    ensures
        match res {
            Ok(config) => {
                &&& settings.catalog matches Some(uri) && config.uri == uri
                &&& settings.warehouse matches Some(warehouse) && config.warehouse == warehouse
                &&& config.namespace@ == text_or(settings.namespace, default_namespace@)
                &&& match (settings.sigv4_region, config.sigv4) {
                    (Some(region), Some(sigv4)) => sigv4.region == region && sigv4.signing_name@
                        == text_or(settings.sigv4_name, "s3tables"@),
                    (None, None) => true,
                    _ => false,
                }
            },
            Err(message) => {
                ||| settings.catalog is None && message@
                    == "RLEAN_DATA_CATALOG must be set to the REST catalog base URI"@
                ||| settings.catalog is Some && settings.warehouse is None && message@
                    == "RLEAN_DATA_WAREHOUSE must be set to the warehouse identifier"@
            },
        },
{
    let uri = match settings.catalog {
        Some(uri) => uri,
        None => {
            return Err(
                "RLEAN_DATA_CATALOG must be set to the REST catalog base URI".to_owned(),
            );
        },
    };
    let warehouse = match settings.warehouse {
        Some(warehouse) => warehouse,
        None => {
            return Err("RLEAN_DATA_WAREHOUSE must be set to the warehouse identifier".to_owned());
        },
    };
    let sigv4 = match settings.sigv4_region {
        Some(region) => Some(
            SigV4Config {
                region,
                signing_name: match settings.sigv4_name {
                    Some(name) => name,
                    None => "s3tables".to_owned(),
                },
            },
        ),
        None => None,
    };
    let namespace = match settings.namespace {
        Some(namespace) => namespace,
        None => default_namespace.to_owned(),
    };
    Ok(RestCatalogConfig { uri, warehouse, sigv4, namespace })
}

/// An indicator is known by its name in capitals, and takes the period it is given; the
/// slow average of a convergence is twice as long and two more, its signal half as long
/// but never without length. Any other name is unknown.
pub proof fn law_indicators_are_named(name: Seq<char>, period: usize)
    requires
        period * 2 + 2 <= usize::MAX,
    ensures
        name == "SMA"@ ==> indicator_named(name, period) == (IndicatorPlan::Sma { period }),
        name == "EMA"@ ==> indicator_named(name, period) == (IndicatorPlan::Ema { period }),
        name == "RSI"@ ==> indicator_named(name, period) == (IndicatorPlan::Rsi { period }),
        name == "ATR"@ ==> indicator_named(name, period) == (IndicatorPlan::Atr { period }),
        name == "BB"@ || name == "BOLLINGER"@ || name == "BOLLINGERBANDS"@ ==> indicator_named(
            name,
            period,
        ) == (IndicatorPlan::Bollinger { period }),
        name == "MACD"@ ==> (indicator_named(name, period) matches IndicatorPlan::Macd {
            fast,
            slow,
            signal,
        } && fast == period && slow == 2 * fast + 2 && signal >= 1 && (fast >= 2 ==> signal == fast
            / 2)),
        name.len() == 0 ==> indicator_named(name, period) is Unknown,
{
    reveal_strlit("SMA");
    reveal_strlit("EMA");
    reveal_strlit("RSI");
    reveal_strlit("ATR");
    reveal_strlit("MACD");
    reveal_strlit("BB");
    reveal_strlit("BOLLINGER");
    reveal_strlit("BOLLINGERBANDS");
    assert("SMA"@[0] != "EMA"@[0]);
    assert("SMA"@[0] != "RSI"@[0]);
    assert("SMA"@[0] != "ATR"@[0]);
    assert("EMA"@[0] != "RSI"@[0]);
    assert("EMA"@[0] != "ATR"@[0]);
    assert("RSI"@[0] != "ATR"@[0]);
    assert("SMA"@.len() == 3 && "EMA"@.len() == 3 && "RSI"@.len() == 3 && "ATR"@.len() == 3);
    assert("MACD"@.len() == 4 && "BB"@.len() == 2 && "BOLLINGER"@.len() == 9
        && "BOLLINGERBANDS"@.len() == 14);
}

/// A setting that is there is used, and its default only where it is not.
pub proof fn law_settings_come_before_defaults(value: Option<String>, default: Seq<char>)
    ensures
        value matches Some(text) ==> text_or(value, default) == text@,
        value is None ==> text_or(value, default) == default,
{
}

} // verus!
