//! Price scaling of equity bars by factor files.

use crate::decimal::{exact_product, exact_product_is_owed, pow10, value, Decimal, MAX_SCALE};
use crate::model::{Bar, DataNormalizationMode, QuoteBar, SecurityType, TradeBar};
use crate::time::{Date, DateTime};
use vstd::prelude::*;

verus! {

/// Multipliers of one factor-file row under one normalization rule.
#[derive(Clone, Copy, Debug, PartialEq, Eq, Structural)]
pub struct BarScale {
    pub price: Decimal,
    /// Absent where the split factor is one, or zero.
    pub volume: Option<Decimal>,
}

/// One row of a factor file.
#[derive(Clone, Copy, Debug, PartialEq, Eq, Structural)]
pub struct FactorFileEntry {
    pub date: Date,
    /// Scale by price and split factor; absent where their product is one.
    pub adjusted: Option<BarScale>,
    /// Scale by the split factor alone; absent where it is one.
    pub split_adjusted: Option<BarScale>,
}

/// The date whose factor applies to a bar: the date on which it ends when it
/// crosses midnight and ends after it, otherwise the date on which it starts.
pub open spec fn scale_frontier(time: DateTime, end_time: DateTime) -> Date {
    if time.day() != end_time.day() && end_time.tod() > 0 {
        end_time.date()
    } else {
        time.date()
    }
}

pub fn price_scale_frontier(time: DateTime, end_time: DateTime) -> (res: Date)
    ensures
        res == scale_frontier(time, end_time),
{
    let time_date = time.date_utc();
    let end_date = end_time.date_utc();
    if time_date.days != end_date.days {
        if end_time.nanos_of_day() > 0 {
            return end_date;
        }
    }
    time_date
}

/// Whether some row is dated before `date`.
pub open spec fn has_earlier_row(rows: Seq<FactorFileEntry>, date: Date) -> bool {
    exists|i: int| 0 <= i < rows.len() && (#[trigger] rows[i]).date.days < date.days
}

/// Whether row `i` is the one that applies on `date`: the last of the latest
/// rows before it, or the first of the earliest rows when none is before it.
pub open spec fn is_factor_row(rows: Seq<FactorFileEntry>, date: Date, i: int) -> bool {
    &&& 0 <= i < rows.len()
    &&& if has_earlier_row(rows, date) {
        &&& rows[i].date.days < date.days
        &&& forall|j: int|
            0 <= j < rows.len() && (#[trigger] rows[j]).date.days < date.days ==> rows[j].date.days
                <= rows[i].date.days && (j > i ==> rows[j].date.days < rows[i].date.days)
    } else {
        forall|j: int|
            0 <= j < rows.len() ==> rows[i].date.days <= (#[trigger] rows[j]).date.days && (j < i
                ==> rows[i].date.days < rows[j].date.days)
    }
}

/// At most one row applies on a date.
pub proof fn lemma_factor_row_unique(rows: Seq<FactorFileEntry>, date: Date, i: int, j: int)
    requires
        is_factor_row(rows, date, i),
        is_factor_row(rows, date, j),
    ensures
        i == j,
{
    if has_earlier_row(rows, date) {
        assert(rows[i].date.days < date.days);
        assert(rows[j].date.days < date.days);
    }
    if i < j {
        assert(rows[i].date.days <= rows[j].date.days);
    }
    if j < i {
        assert(rows[j].date.days <= rows[i].date.days);
    }
}

/// Index of the row that applies on a date.
pub open spec fn factor_index(rows: Seq<FactorFileEntry>, date: Date) -> int {
    choose|i: int| is_factor_row(rows, date, i)
}

/// The row that applies on a date; none in an empty file.
pub fn factor_for_entry(rows: &Vec<FactorFileEntry>, date: Date) -> (res: Option<FactorFileEntry>)
    ensures
        res is Some <==> rows@.len() > 0,
        res matches Some(row) ==> is_factor_row(rows@, date, factor_index(rows@, date)) && row
            == rows@[factor_index(rows@, date)],
{
    if rows.len() == 0 {
        return None;
    }
    let mut latest: Option<usize> = None;
    let mut earliest: usize = 0;
    let mut i: usize = 0;
    while i < rows.len()
        invariant
            0 < rows@.len(),
            i <= rows@.len(),
            earliest < rows@.len(),
            earliest < i || (i == 0 && earliest == 0),
            forall|j: int|
                0 <= j < i ==> rows@[earliest as int].date.days <= (#[trigger] rows@[j]).date.days
                    && (j < earliest ==> rows@[earliest as int].date.days < rows@[j].date.days),
            match latest {
                Some(k) => k < i && rows@[k as int].date.days < date.days && forall|j: int|
                    0 <= j < i && (#[trigger] rows@[j]).date.days < date.days ==> rows@[j].date.days
                        <= rows@[k as int].date.days && (j > k ==> rows@[j].date.days
                        < rows@[k as int].date.days),
                None => forall|j: int|
                    0 <= j < i ==> !((#[trigger] rows@[j]).date.days < date.days),
            },
        decreases rows.len() - i,
    {
        if rows[i].date.days < rows[earliest].date.days {
            earliest = i;
        }
        if rows[i].date.days < date.days {
            latest = match latest {
                Some(k) => if rows[k].date.days <= rows[i].date.days {
                    Some(i)
                } else {
                    Some(k)
                },
                None => Some(i),
            };
        }
        i = i + 1;
    }
    let chosen: usize = match latest {
        Some(k) => k,
        None => earliest,
    };
    proof {
        if latest is Some {
            assert(has_earlier_row(rows@, date));
        }
        assert(is_factor_row(rows@, date, chosen as int));
        lemma_factor_row_unique(rows@, date, chosen as int, factor_index(rows@, date));
    }
    Some(rows[chosen])
}

/// The scale that a row gives under a normalization mode.
pub open spec fn row_scale(mode: DataNormalizationMode, row: FactorFileEntry) -> Option<BarScale> {
    match mode {
        DataNormalizationMode::Raw => None,
        DataNormalizationMode::SplitAdjusted => row.split_adjusted,
        _ => row.adjusted,
    }
}

pub fn normalization_scale(mode: DataNormalizationMode, row: &FactorFileEntry) -> (res: Option<
    BarScale,
>)
    ensures
        res == row_scale(mode, *row),
{
    match mode {
        DataNormalizationMode::Raw => None,
        DataNormalizationMode::SplitAdjusted => row.split_adjusted,
        DataNormalizationMode::Adjusted
        | DataNormalizationMode::TotalReturn
        | DataNormalizationMode::ForwardPanamaCanal
        | DataNormalizationMode::BackwardPanamaCanal => row.adjusted,
    }
}

/// The scale that applies to an equity bar; none leaves it as it is.
pub open spec fn scale_for(
    mode: DataNormalizationMode,
    rows: Seq<FactorFileEntry>,
    security_type: SecurityType,
    time: DateTime,
    end_time: DateTime,
) -> Option<BarScale> {
    if mode == DataNormalizationMode::Raw || security_type != SecurityType::Equity || rows.len()
        == 0 {
        None
    } else {
        row_scale(mode, rows[factor_index(rows, scale_frontier(time, end_time))])
    }
}

/// Whether a number can be multiplied by every multiplier of a scale.
pub open spec fn scales_by(x: Decimal, factor: Decimal) -> bool {
    x.wf() && factor.wf() && x.product_fits(factor)
}

pub open spec fn trade_bar_scales(bar: TradeBar, scale: Option<BarScale>) -> bool {
    match scale {
        Some(s) => {
            &&& scales_by(bar.open, s.price)
            &&& scales_by(bar.high, s.price)
            &&& scales_by(bar.low, s.price)
            &&& scales_by(bar.close, s.price)
            &&& s.volume matches Some(v) ==> scales_by(bar.volume, v)
        },
        None => true,
    }
}

/// Whether every row of a factor file can be applied to a bar.
pub open spec fn trade_bar_scalable(bar: TradeBar, rows: Seq<FactorFileEntry>) -> bool {
    forall|i: int|
        0 <= i < rows.len() ==> trade_bar_scales(bar, (#[trigger] rows[i]).adjusted)
            && trade_bar_scales(bar, rows[i].split_adjusted)
}

/// A trade bar under a scale: prices and, after a split, volume are multiplied.
pub open spec fn scaled_trade_bar(bar: TradeBar, scale: Option<BarScale>) -> TradeBar {
    match scale {
        Some(s) => TradeBar {
            open: bar.open.product(s.price),
            high: bar.high.product(s.price),
            low: bar.low.product(s.price),
            close: bar.close.product(s.price),
            volume: match s.volume {
                Some(v) => bar.volume.product(v),
                None => bar.volume,
            },
            ..bar
        },
        None => bar,
    }
}

/// A trade bar brought to a normalization mode.
pub open spec fn normalized_trade_bar(
    bar: TradeBar,
    mode: DataNormalizationMode,
    rows: Seq<FactorFileEntry>,
) -> TradeBar {
    scaled_trade_bar(
        bar,
        scale_for(mode, rows, bar.symbol.security_type, bar.time, bar.end_time),
    )
}

pub fn normalize_trade_bar(
    bar: &mut TradeBar,
    normalization_mode: DataNormalizationMode,
    factor_rows: &Vec<FactorFileEntry>,
)
    requires
        trade_bar_scalable(*old(bar), factor_rows@),
    ensures
        *final(bar) == normalized_trade_bar(*old(bar), normalization_mode, factor_rows@),
        scale_for(
            normalization_mode,
            factor_rows@,
            old(bar).symbol.security_type,
            old(bar).time,
            old(bar).end_time,
        ) matches Some(scale) ==> {
            &&& is_scaled(old(bar).open, scale.price, final(bar).open)
            &&& is_scaled(old(bar).high, scale.price, final(bar).high)
            &&& is_scaled(old(bar).low, scale.price, final(bar).low)
            &&& is_scaled(old(bar).close, scale.price, final(bar).close)
        },
{
    if normalization_mode == DataNormalizationMode::Raw || bar.symbol.security_type
        != SecurityType::Equity {
        return ;
    }
    let frontier = price_scale_frontier(bar.time, bar.end_time);
    apply_factor_to_trade_bar(bar, factor_rows, frontier, normalization_mode);
}

fn apply_factor_to_trade_bar(
    bar: &mut TradeBar,
    rows: &Vec<FactorFileEntry>,
    date: Date,
    normalization_mode: DataNormalizationMode,
)
    requires
        trade_bar_scalable(*old(bar), rows@),
    ensures
        *final(bar) == scaled_trade_bar(
            *old(bar),
            if rows@.len() == 0 {
                None
            } else {
                row_scale(normalization_mode, rows@[factor_index(rows@, date)])
            },
        ),
        rows@.len() > 0 && (row_scale(normalization_mode, rows@[factor_index(rows@, date)])
            is Some) ==> {
            let price = row_scale(normalization_mode, rows@[factor_index(rows@, date)])->Some_0.price;
            &&& is_scaled(old(bar).open, price, final(bar).open)
            &&& is_scaled(old(bar).high, price, final(bar).high)
            &&& is_scaled(old(bar).low, price, final(bar).low)
            &&& is_scaled(old(bar).close, price, final(bar).close)
        },
{
    let row = match factor_for_entry(rows, date) {
        Some(row) => row,
        None => {
            return ;
        },
    };
    let scale = match normalization_scale(normalization_mode, &row) {
        Some(scale) => scale,
        None => {
            return ;
        },
    };
    assert(trade_bar_scales(*bar, Some(scale)));
    bar.open = bar.open.times(scale.price);
    bar.high = bar.high.times(scale.price);
    bar.low = bar.low.times(scale.price);
    bar.close = bar.close.times(scale.price);
    if let Some(volume_scale) = scale.volume {
        bar.volume = bar.volume.times(volume_scale);
    }
}

pub open spec fn side_scales(side: Option<Bar>, scale: Option<BarScale>) -> bool {
    match (side, scale) {
        (Some(bar), Some(s)) => {
            &&& scales_by(bar.open, s.price)
            &&& scales_by(bar.high, s.price)
            &&& scales_by(bar.low, s.price)
            &&& scales_by(bar.close, s.price)
        },
        _ => true,
    }
}

/// Whether every row of a factor file can be applied to a quote bar.
pub open spec fn quote_bar_scalable(bar: QuoteBar, rows: Seq<FactorFileEntry>) -> bool {
    forall|i: int|
        0 <= i < rows.len() ==> {
            &&& side_scales(bar.bid, (#[trigger] rows[i]).adjusted)
            &&& side_scales(bar.bid, rows[i].split_adjusted)
            &&& side_scales(bar.ask, rows[i].adjusted)
            &&& side_scales(bar.ask, rows[i].split_adjusted)
        }
}

/// One side of a quote under a scale.
pub open spec fn scaled_side(side: Option<Bar>, scale: Option<BarScale>) -> Option<Bar> {
    match (side, scale) {
        (Some(bar), Some(s)) => Some(
            Bar {
                open: bar.open.product(s.price),
                high: bar.high.product(s.price),
                low: bar.low.product(s.price),
                close: bar.close.product(s.price),
            },
        ),
        _ => side,
    }
}

/// A quote bar brought to a normalization mode.
pub open spec fn normalized_quote_bar(
    bar: QuoteBar,
    mode: DataNormalizationMode,
    rows: Seq<FactorFileEntry>,
) -> QuoteBar {
    let scale = scale_for(mode, rows, bar.symbol.security_type, bar.time, bar.end_time);
    QuoteBar { bid: scaled_side(bar.bid, scale), ask: scaled_side(bar.ask, scale), ..bar }
}

fn scale_side(side: Bar, price: Decimal) -> (res: Bar)
    requires
        side_scales(Some(side), Some(BarScale { price, volume: None })),
    ensures
        Some(res) == scaled_side(Some(side), Some(BarScale { price, volume: None })),
{
    Bar {
        open: side.open.times(price),
        high: side.high.times(price),
        low: side.low.times(price),
        close: side.close.times(price),
    }
}

pub fn normalize_quote_bar(
    bar: &mut QuoteBar,
    normalization_mode: DataNormalizationMode,
    factor_rows: &Vec<FactorFileEntry>,
)
    requires
        quote_bar_scalable(*old(bar), factor_rows@),
    ensures
        *final(bar) == normalized_quote_bar(*old(bar), normalization_mode, factor_rows@),
{
    if normalization_mode == DataNormalizationMode::Raw || bar.symbol.security_type
        != SecurityType::Equity {
        return ;
    }
    let frontier = price_scale_frontier(bar.time, bar.end_time);
    let row = match factor_for_entry(factor_rows, frontier) {
        Some(row) => row,
        None => {
            return ;
        },
    };
    let scale = match normalization_scale(normalization_mode, &row) {
        Some(scale) => scale,
        None => {
            return ;
        },
    };
    assert(side_scales(bar.bid, Some(scale)));
    assert(side_scales(bar.ask, Some(scale)));
    if let Some(bid) = bar.bid {
        bar.bid = Some(scale_side(bid, scale.price));
    }
    if let Some(ask) = bar.ask {
        bar.ask = Some(scale_side(ask, scale.price));
    }
}

/// What is known of a security's corporate actions.
pub struct CorporateActionResolution {
    /// Whether prices can be adjusted.
    pub factors_available: bool,
    pub factor_rows: Vec<FactorFileEntry>,
    /// First date on which the security traded.
    pub map_first_date: Option<Date>,
}

/// Whether securities of a kind have corporate actions that are to be looked up.
pub fn has_corporate_actions(security_type: SecurityType) -> (res: bool)
    ensures
        res == (security_type == SecurityType::Equity),
{
    security_type == SecurityType::Equity
}

/// The corporate actions of a security, from the outcome of their lookup, which
/// is missing where it failed. Only equities have any: for the others nothing is
/// missing. A lookup that failed leaves prices as they are.
pub fn ensure_corporate_actions_cached(
    security_type: SecurityType,
    lookup: Option<CorporateActionResolution>,
) -> (res: CorporateActionResolution)
    ensures
        security_type == SecurityType::Equity && lookup is Some ==> Some(res) == lookup,
        security_type != SecurityType::Equity || lookup is None ==> {
            &&& res.factors_available == (security_type != SecurityType::Equity)
            &&& res.factor_rows@.len() == 0
            &&& res.map_first_date is None
        },
{
    if !has_corporate_actions(security_type) {
        return CorporateActionResolution {
            factors_available: true,
            factor_rows: Vec::new(),
            map_first_date: None,
        };
    }
    match lookup {
        Some(resolution) => resolution,
        None => CorporateActionResolution {
            factors_available: false,
            factor_rows: Vec::new(),
            map_first_date: None,
        },
    }
}

/// The factor rows in use, from those that the store gave: none but for equities.
pub fn read_factor_rows(security_type: SecurityType, stored: Vec<FactorFileEntry>) -> (res: Vec<
    FactorFileEntry,
>)
    ensures
        res@ == (if security_type == SecurityType::Equity {
            stored@
        } else {
            Seq::empty()
        }),
{
    if has_corporate_actions(security_type) {
        stored
    } else {
        Vec::new()
    }
}

/// The earliest date of a map file: the first date on which the security traded.
pub fn read_map_first_date(security_type: SecurityType, dates: &Vec<Date>) -> (res: Option<Date>)
    ensures
        res is Some <==> (security_type == SecurityType::Equity && dates@.len() > 0),
        res matches Some(first) ==> dates@.contains(first) && forall|i: int|
            0 <= i < dates@.len() ==> first.days <= (#[trigger] dates@[i]).days,
{
    if security_type != SecurityType::Equity || dates.len() == 0 {
        return None;
    }
    let mut first = dates[0];
    let mut i: usize = 1;
    while i < dates.len()
        invariant
            1 <= i <= dates@.len(),
            dates@.contains(first),
            forall|j: int| 0 <= j < i ==> first.days <= (#[trigger] dates@[j]).days,
        decreases dates.len() - i,
    {
        if dates[i].days < first.days {
            first = dates[i];
        }
        i = i + 1;
    }
    Some(first)
}

/// Whether a price became its product with a factor, and the exact product where
/// that needs no rounding.
pub open spec fn is_scaled(before: Decimal, factor: Decimal, after: Decimal) -> bool {
    &&& after == before.product(factor)
    &&& exact_product_is_owed(before, factor) ==> after == exact_product(before, factor)
}

/// Every price of a bar is scaled by itself: open, high, low and close are each
/// their own product with the price factor of the scale, the volume changes only
/// where the scale has a volume factor, and nothing else changes. Without a scale
/// the bar stays as it is.
pub proof fn law_every_price_is_scaled_by_itself(bar: TradeBar, scale: Option<BarScale>)
    ensures
        scale is None ==> scaled_trade_bar(bar, scale) == bar,
        scale matches Some(s) ==> {
            let out = scaled_trade_bar(bar, scale);
            &&& out.open == bar.open.product(s.price)
            &&& out.high == bar.high.product(s.price)
            &&& out.low == bar.low.product(s.price)
            &&& out.close == bar.close.product(s.price)
            &&& s.volume is None ==> out.volume == bar.volume
            &&& s.volume matches Some(v) ==> out.volume == bar.volume.product(v)
            &&& out.symbol == bar.symbol
            &&& out.time == bar.time
            &&& out.end_time == bar.end_time
            &&& out.period == bar.period
        },
{
}

/// Bars are scaled price by price: a price that two bars share, whichever of their
/// prices it is, is scaled alike. So a flat bar stays flat, and a bar whose close is
/// the open of the next still meets it.
pub proof fn law_equal_prices_are_scaled_alike(a: TradeBar, b: TradeBar, scale: Option<BarScale>)
    ensures
        ({
            let x = scaled_trade_bar(a, scale);
            let y = scaled_trade_bar(b, scale);
            &&& a.close == b.open ==> x.close == y.open
            &&& a.close == b.high ==> x.close == y.high
            &&& a.close == b.low ==> x.close == y.low
            &&& a.close == b.close ==> x.close == y.close
            &&& a.open == b.open ==> x.open == y.open
            &&& a.open == b.high ==> x.open == y.high
            &&& a.open == b.low ==> x.open == y.low
            &&& a.high == b.high ==> x.high == y.high
            &&& a.high == b.low ==> x.high == y.low
            &&& a.low == b.low ==> x.low == y.low
            &&& a.volume == b.volume ==> x.volume == y.volume
        }),
{
}

/// A factor of one changes no number that it scales without rounding, and a
/// positive factor keeps the order of two prices.
pub proof fn law_scaling_keeps_order(
    a: Decimal,
    b: Decimal,
    factor: Decimal,
    scaled_a: Decimal,
    scaled_b: Decimal,
)
    requires
        a.wf(),
        b.wf(),
        factor.mantissa > 0,
        exact_product_is_owed(a, factor),
        exact_product_is_owed(b, factor),
        is_scaled(a, factor, scaled_a),
        is_scaled(b, factor, scaled_b),
    ensures
        factor == (Decimal { mantissa: 1, scale: 0 }) ==> value(scaled_a) == value(a),
        value(a) < value(b) <==> value(scaled_a) < value(scaled_b),
        value(a) == value(b) <==> value(scaled_a) == value(scaled_b),
{
    lemma_exact_product(a, factor);
    lemma_exact_product(b, factor);
    let unit = pow10(factor.scale as int);
    vstd::arithmetic::power::lemma_pow_positive(10, factor.scale as nat);
    let x = value(a);
    let y = value(b);
    let u = value(scaled_a);
    let v = value(scaled_b);
    let m = factor.mantissa as int;
    assert(u * unit == x * m);
    assert(v * unit == y * m);
    assert(x < y <==> x * m < y * m) by (nonlinear_arith)
        requires
            m > 0,
    ;
    assert(x == y <==> x * m == y * m) by (nonlinear_arith)
        requires
            m > 0,
    ;
    assert(u < v <==> u * unit < v * unit) by (nonlinear_arith)
        requires
            unit > 0,
    ;
    assert(u == v <==> u * unit == v * unit) by (nonlinear_arith)
        requires
            unit > 0,
    ;
    if factor == (Decimal { mantissa: 1, scale: 0 }) {
        vstd::arithmetic::power::lemma_pow0(10);
        assert(u == x) by (nonlinear_arith)
            requires
                u * unit == x * m,
                unit == 1,
                m == 1,
        ;
    }
}

proof fn lemma_exact_product(a: Decimal, factor: Decimal)
    requires
        a.wf(),
        exact_product_is_owed(a, factor),
    ensures
        value(exact_product(a, factor)) * pow10(factor.scale as int) == value(a) * factor.mantissa,
{
    let k = a.scale as int;
    let f = factor.scale as int;
    let top = MAX_SCALE as int;
    let p = exact_product(a, factor);
    if a.mantissa == 0 || factor.mantissa == 0 {
        let q = pow10(top - 0);
        let r = pow10(f);
        let t = pow10(top - k);
        assert(0 * q * r == 0) by (nonlinear_arith);
        assert(a.mantissa * t * factor.mantissa == 0) by (nonlinear_arith)
            requires
                a.mantissa == 0 || factor.mantissa == 0,
        ;
    } else {
        vstd::arithmetic::power::lemma_pow_adds(10, (top - k - f) as nat, f as nat);
        let m = a.mantissa * factor.mantissa;
        let u = pow10(top - k - f);
        let w = pow10(f);
        assert(p.mantissa == m);
        assert(m * u * w == m * (u * w)) by (nonlinear_arith);
        let t = pow10(top - k);
        assert(a.mantissa * factor.mantissa * t == a.mantissa * t * factor.mantissa)
            by (nonlinear_arith);
    }
}

/// Prices are adjusted only where they are to be: raw bars, bars of anything but
/// equities and bars without factor rows stay as they are. Otherwise the row of the
/// bar's date decides; splits alone are taken out where that is asked for, splits
/// and dividends in every other mode.
pub proof fn law_mode_decides_the_adjustment(
    bar: TradeBar,
    mode: DataNormalizationMode,
    rows: Seq<FactorFileEntry>,
    i: int,
)
    ensures
        mode == DataNormalizationMode::Raw || bar.symbol.security_type != SecurityType::Equity
            || rows.len() == 0 ==> normalized_trade_bar(bar, mode, rows) == bar,
        mode != DataNormalizationMode::Raw && bar.symbol.security_type == SecurityType::Equity
            && is_factor_row(rows, scale_frontier(bar.time, bar.end_time), i)
            ==> normalized_trade_bar(bar, mode, rows) == scaled_trade_bar(
            bar,
            if mode == DataNormalizationMode::SplitAdjusted {
                rows[i].split_adjusted
            } else {
                rows[i].adjusted
            },
        ),
{
    let date = scale_frontier(bar.time, bar.end_time);
    if is_factor_row(rows, date, i) {
        lemma_factor_row_unique(rows, date, i, factor_index(rows, date));
    }
}

/// The same of quote bars: each side is scaled by itself, price by price, and a side
/// that is missing stays so.
pub proof fn law_quotes_are_scaled_side_by_side(
    bar: QuoteBar,
    mode: DataNormalizationMode,
    rows: Seq<FactorFileEntry>,
    i: int,
)
    ensures
        mode == DataNormalizationMode::Raw || bar.symbol.security_type != SecurityType::Equity
            || rows.len() == 0 ==> normalized_quote_bar(bar, mode, rows) == bar,
        ({
            let out = normalized_quote_bar(bar, mode, rows);
            &&& out.symbol == bar.symbol
            &&& out.time == bar.time
            &&& out.end_time == bar.end_time
            &&& out.period == bar.period
            &&& out.last_bid_size == bar.last_bid_size
            &&& out.last_ask_size == bar.last_ask_size
            &&& out.bid is Some <==> bar.bid is Some
            &&& out.ask is Some <==> bar.ask is Some
        }),
        mode != DataNormalizationMode::Raw && bar.symbol.security_type == SecurityType::Equity
            && is_factor_row(rows, scale_frontier(bar.time, bar.end_time), i) ==> {
            let out = normalized_quote_bar(bar, mode, rows);
            let scale = if mode == DataNormalizationMode::SplitAdjusted {
                rows[i].split_adjusted
            } else {
                rows[i].adjusted
            };
            match scale {
                None => out == bar,
                Some(s) => {
                    &&& bar.bid matches Some(side) ==> (out.bid matches Some(new) && {
                        &&& new.open == side.open.product(s.price)
                        &&& new.high == side.high.product(s.price)
                        &&& new.low == side.low.product(s.price)
                        &&& new.close == side.close.product(s.price)
                    })
                    &&& bar.ask matches Some(side) ==> (out.ask matches Some(new) && {
                        &&& new.open == side.open.product(s.price)
                        &&& new.high == side.high.product(s.price)
                        &&& new.low == side.low.product(s.price)
                        &&& new.close == side.close.product(s.price)
                    })
                },
            }
        },
{
    let date = scale_frontier(bar.time, bar.end_time);
    if is_factor_row(rows, date, i) {
        lemma_factor_row_unique(rows, date, i, factor_index(rows, date));
    }
}

/// The row that applies on a date is dated before it, and no other row lies between
/// the two. Where every row is dated on or after it, the earliest row applies.
pub proof fn law_factor_row_is_the_latest_before(
    rows: Seq<FactorFileEntry>,
    date: Date,
    i: int,
    j: int,
)
    requires
        is_factor_row(rows, date, i),
        0 <= j < rows.len(),
    ensures
        rows[j].date.days < date.days ==> rows[j].date.days <= rows[i].date.days
            && rows[i].date.days < date.days,
        rows[i].date.days >= date.days ==> rows[i].date.days <= rows[j].date.days,
{
    if rows[j].date.days < date.days {
        assert(has_earlier_row(rows, date));
    }
    if rows[i].date.days >= date.days {
        assert(!has_earlier_row(rows, date));
    }
}

/// A bar within one day takes the factor of that day, and so does one that ends at
/// midnight; a bar that reaches into the next day takes the factor of that one.
pub proof fn law_factor_date_of_a_bar(time: DateTime, end_time: DateTime)
    ensures
        time.day() == end_time.day() ==> scale_frontier(time, end_time).days == time.day(),
        end_time.tod() == 0 ==> scale_frontier(time, end_time).days == time.day(),
        time.day() != end_time.day() && end_time.tod() != 0 ==> scale_frontier(time, end_time).days
            == end_time.day(),
{
    time.lemma_day();
    end_time.lemma_day();
    assert(end_time.tod() >= 0) by (nonlinear_arith)
        requires
            end_time.tod() == end_time.ns as int % (crate::time::NANOS_PER_DAY as int),
    ;
}

} // verus!
