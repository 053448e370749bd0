//! Which subscriptions a run has, and how its data feed follows them.

use crate::model::{
    CustomDataQuery, OptionChainFilterMetadata, OptionChainSubscriptionMetadata,
    SubscriptionDataConfig, SubscriptionDataKind, Symbol,
};
use crate::name_map::NameMap;
use crate::options_service::{option_underlying_ticker, underlying_ticker};
use crate::text::{
    ascii_lower, ascii_upper, eq_ignore_ascii_case, same_ignoring_case, text_eq, texts,
    to_ascii_lowercase, to_ascii_uppercase, trim, trimmed,
};
use vstd::prelude::*;
use vstd::string::*;

verus! {

// ---------------------------------------------------------------------------
// Custom streams fed by a universe
// ---------------------------------------------------------------------------

/// Whether a custom universe among the subscriptions draws on a source,
/// whatever the case of its name.
pub open spec fn universe_draws_on(configs: Seq<SubscriptionDataConfig>, source: Seq<char>) -> bool {
    exists|i: int|
        0 <= i < configs.len() && (#[trigger] configs[i]).data_kind
            == SubscriptionDataKind::Universe && (configs[i].custom matches Some(custom)
            && ascii_lower(custom.source_type@) == ascii_lower(source))
}

/// Whether a stream starts without symbols: it is a custom stream whose source
/// feeds a universe and whose symbols are not selected yet.
pub open spec fn starts_without_symbols(
    config: SubscriptionDataConfig,
    configs: Seq<SubscriptionDataConfig>,
) -> bool {
    &&& config.data_kind != SubscriptionDataKind::Universe
    &&& config.custom matches Some(custom) && custom.dynamic_query.symbols is None
        && universe_draws_on(configs, custom.source_type@)
}

/// Whether `after` is `before` with an empty list of symbols.
pub open spec fn narrowed(before: SubscriptionDataConfig, after: SubscriptionDataConfig) -> bool {
    match (before.custom, after.custom) {
        (Some(old_custom), Some(new_custom)) => {
            &&& new_custom.dynamic_query.symbols matches Some(symbols) && symbols@.len() == 0
            &&& after == (SubscriptionDataConfig { custom: after.custom, ..before })
            &&& new_custom.config == old_custom.config
            &&& new_custom.source_type == old_custom.source_type
            &&& new_custom.ticker == old_custom.ticker
            &&& new_custom.dynamic_query == (CustomDataQuery {
                symbols: new_custom.dynamic_query.symbols,
                ..old_custom.dynamic_query
            })
        },
        _ => false,
    }
}

fn source_feeds_universe(configs: &Vec<SubscriptionDataConfig>, source: &str) -> (res: bool)
    ensures
        res == universe_draws_on(configs@, source@),
{
    let lower = to_ascii_lowercase(source);
    let mut i: usize = 0;
    while i < configs.len()
        invariant
            i <= configs@.len(),
            lower@ == ascii_lower(source@),
            forall|k: int|
                0 <= k < i ==> !((#[trigger] configs@[k]).data_kind
                    == SubscriptionDataKind::Universe && (configs@[k].custom matches Some(custom)
                    && ascii_lower(custom.source_type@) == ascii_lower(source@))),
        decreases configs.len() - i,
    {
        if configs[i].data_kind == SubscriptionDataKind::Universe {
            if let Some(custom) = &configs[i].custom {
                let name = to_ascii_lowercase(custom.source_type.as_str());
                if text_eq(name.as_str(), lower.as_str()) {
                    assert(configs@[i as int].data_kind == SubscriptionDataKind::Universe);
                    return true;
                }
            }
        }
        i = i + 1;
    }
    false
}

/// The subscriptions as the feed starts them: a custom stream that a universe
/// will narrow starts with an empty list of symbols, so that it does not read
/// the whole source before the first selection.
pub fn lean_style_active_subscriptions(subscriptions: Vec<SubscriptionDataConfig>) -> (res: Vec<
    SubscriptionDataConfig,
>)
    ensures
        res@.len() == subscriptions@.len(),
        forall|i: int|
            0 <= i < res@.len() ==> if starts_without_symbols(
                #[trigger] subscriptions@[i],
                subscriptions@,
            ) {
                narrowed(subscriptions@[i], res@[i])
            } else {
                res@[i] == subscriptions@[i]
            },
{
    let ghost all = subscriptions@;
    let mut flags: Vec<bool> = Vec::new();
    let mut i: usize = 0;
    while i < subscriptions.len()
        invariant
            i <= subscriptions@.len(),
            subscriptions@ == all,
            flags@.len() == i,
            forall|k: int|
                0 <= k < i ==> (#[trigger] flags@[k]) == starts_without_symbols(all[k], all),
        decreases subscriptions.len() - i,
    {
        let config = &subscriptions[i];
        let narrow = match &config.custom {
            Some(custom) => config.data_kind != SubscriptionDataKind::Universe
                && custom.dynamic_query.symbols.is_none() && source_feeds_universe(
                &subscriptions,
                custom.source_type.as_str(),
            ),
            None => false,
        };
        flags.push(narrow);
        i = i + 1;
    }
    let mut out: Vec<SubscriptionDataConfig> = Vec::new();
    let mut k: usize = 0;
    let n: usize = subscriptions.len();
    for config in it: subscriptions
        invariant
            it.seq() == all,
            n == all.len(),
            k == it.index(),
            flags@.len() == all.len(),
            out@.len() == k,
            forall|j: int|
                0 <= j < all.len() ==> (#[trigger] flags@[j]) == starts_without_symbols(
                    all[j],
                    all,
                ),
            forall|j: int|
                0 <= j < k ==> if starts_without_symbols(#[trigger] all[j], all) {
                    narrowed(all[j], out@[j])
                } else {
                    out@[j] == all[j]
                },
    {
        let ghost original = config;
        let ghost before = out@;
        assert(all[k as int] == config);
        assert(flags@[k as int] == starts_without_symbols(all[k as int], all));
        let mut config = config;
        if flags[k] {
            if let Some(custom) = &mut config.custom {
                custom.dynamic_query.symbols = Some(Vec::new());
            }
            assert(narrowed(original, config));
        }
        out.push(config);
        k = k + 1;
        assert forall|j: int| 0 <= j < k implies (if starts_without_symbols(
            #[trigger] all[j],
            all,
        ) {
            narrowed(all[j], out@[j])
        } else {
            out@[j] == all[j]
        }) by {
            if j < k - 1 {
                assert(out@[j] == before[j]);
            }
        }
    }
    out
}

// ---------------------------------------------------------------------------
// Changes of a custom query
// ---------------------------------------------------------------------------

/// A map with texts as values.
pub open spec fn text_values(map: NameMap<String>) -> Map<Seq<char>, Seq<char>> {
    map@.map_values(|value: String| value@)
}

/// A map with lists of texts as values.
pub open spec fn list_values(map: NameMap<Vec<String>>) -> Map<Seq<char>, Seq<Seq<char>>> {
    map@.map_values(|value: Vec<String>| texts(value@))
}

/// Whether two queries select the same rows, numeric bounds aside.
pub open spec fn same_query(a: CustomDataQuery, b: CustomDataQuery) -> bool {
    &&& match (a.symbols, b.symbols) {
        (Some(x), Some(y)) => texts(x@) == texts(y@),
        (None, None) => true,
        _ => false,
    }
    &&& text_values(a.string_equals) == text_values(b.string_equals)
    &&& list_values(a.string_in) == list_values(b.string_in)
    &&& a.start_date == b.start_date
    &&& a.end_date == b.end_date
}

impl CustomDataQuery {
    pub open spec fn wf(self) -> bool {
        self.string_equals.wf() && self.string_in.wf()
    }
}

impl SubscriptionDataConfig {
    pub open spec fn wf(self) -> bool {
        self.custom matches Some(custom) ==> custom.dynamic_query.wf() && custom.config.query.wf()
            && custom.config.properties.wf()
    }
}

fn texts_equal(a: &Vec<String>, b: &Vec<String>) -> (res: bool)
    ensures
        res == (texts(a@) == texts(b@)),
{
    if a.len() != b.len() {
        assert(texts(a@).len() != texts(b@).len());
        return false;
    }
    let mut i: usize = 0;
    while i < a.len()
        invariant
            i <= a@.len(),
            a@.len() == b@.len(),
            forall|k: int| 0 <= k < i ==> (#[trigger] a@[k])@ == b@[k]@,
        decreases a.len() - i,
    {
        if !text_eq(a[i].as_str(), b[i].as_str()) {
            assert(texts(a@)[i as int] != texts(b@)[i as int]);
            return false;
        }
        i = i + 1;
    }
    assert(texts(a@) =~= texts(b@));
    true
}

/// Whether every entry of `a` is in `b` with an equal text.
fn text_map_within(a: &NameMap<String>, b: &NameMap<String>) -> (res: bool)
    requires
        a.wf(),
        b.wf(),
    ensures
        res == (forall|k: Seq<char>| #[trigger]
            a@.dom().contains(k) ==> b@.dom().contains(k) && a@[k]@ == b@[k]@),
{
    let mut i: usize = 0;
    while i < a.entries.len()
        invariant
            i <= a.entries@.len(),
            a.wf(),
            b.wf(),
            forall|j: int|
                0 <= j < i ==> b@.dom().contains((#[trigger] a.entries@[j]).0@)
                    && a.entries@[j].1@ == b@[a.entries@[j].0@]@,
        decreases a.entries.len() - i,
    {
        let entry = &a.entries[i];
        let same = match b.get(entry.0.as_str()) {
            Some(value) => text_eq(value.as_str(), entry.1.as_str()),
            None => false,
        };
        if !same {
            proof {
                a.lemma_entry(i as int);
                let k = a.entries@[i as int].0@;
                assert(a@.dom().contains(k));
                assert(!(b@.dom().contains(k) && a@[k]@ == b@[k]@));
            }
            return false;
        }
        i = i + 1;
    }
    proof {
        assert forall|k: Seq<char>| #[trigger] a@.dom().contains(k) implies b@.dom().contains(k)
            && a@[k]@ == b@[k]@ by {
            assert(a.has(k));
            let j = a.index_of(k);
            assert(a.entries@[j].0@ == k);
            a.lemma_entry(j);
        }
    }
    true
}

/// Whether every entry of `a` is in `b` with an equal list.
fn list_map_within(a: &NameMap<Vec<String>>, b: &NameMap<Vec<String>>) -> (res: bool)
    requires
        a.wf(),
        b.wf(),
    ensures
        res == (forall|k: Seq<char>| #[trigger]
            a@.dom().contains(k) ==> b@.dom().contains(k) && texts(a@[k]@) == texts(b@[k]@)),
{
    let mut i: usize = 0;
    while i < a.entries.len()
        invariant
            i <= a.entries@.len(),
            a.wf(),
            b.wf(),
            forall|j: int|
                0 <= j < i ==> b@.dom().contains((#[trigger] a.entries@[j]).0@) && texts(
                    a.entries@[j].1@,
                ) == texts(b@[a.entries@[j].0@]@),
        decreases a.entries.len() - i,
    {
        let entry = &a.entries[i];
        let same = match b.get(entry.0.as_str()) {
            Some(value) => texts_equal(&entry.1, value),
            None => false,
        };
        if !same {
            proof {
                a.lemma_entry(i as int);
                let k = a.entries@[i as int].0@;
                assert(a@.dom().contains(k));
                assert(!(b@.dom().contains(k) && texts(a@[k]@) == texts(b@[k]@)));
            }
            return false;
        }
        i = i + 1;
    }
    proof {
        assert forall|k: Seq<char>| #[trigger] a@.dom().contains(k) implies b@.dom().contains(k)
            && texts(a@[k]@) == texts(b@[k]@) by {
            assert(a.has(k));
            let j = a.index_of(k);
            assert(a.entries@[j].0@ == k);
            a.lemma_entry(j);
        }
    }
    true
}

fn text_maps_equal(a: &NameMap<String>, b: &NameMap<String>) -> (res: bool)
    requires
        a.wf(),
        b.wf(),
    ensures
        res == (text_values(*a) == text_values(*b)),
{
    let ab = text_map_within(a, b);
    let ba = text_map_within(b, a);
    proof {
        let x = text_values(*a);
        let y = text_values(*b);
        if ab && ba {
            assert(x =~= y);
        } else {
            if x == y {
                assert forall|k: Seq<char>| #[trigger] a@.dom().contains(k) implies b@.dom().contains(
                    k,
                ) && a@[k]@ == b@[k]@ by {
                    assert(x.dom().contains(k));
                    assert(y.dom().contains(k));
                    assert(x[k] == y[k]);
                }
                assert forall|k: Seq<char>| #[trigger] b@.dom().contains(k) implies a@.dom().contains(
                    k,
                ) && b@[k]@ == a@[k]@ by {
                    assert(y.dom().contains(k));
                    assert(x.dom().contains(k));
                    assert(x[k] == y[k]);
                }
            }
        }
    }
    ab && ba
}

fn list_maps_equal(a: &NameMap<Vec<String>>, b: &NameMap<Vec<String>>) -> (res: bool)
    requires
        a.wf(),
        b.wf(),
    ensures
        res == (list_values(*a) == list_values(*b)),
{
    let ab = list_map_within(a, b);
    let ba = list_map_within(b, a);
    proof {
        let x = list_values(*a);
        let y = list_values(*b);
        if ab && ba {
            assert(x =~= y);
        } else {
            if x == y {
                assert forall|k: Seq<char>| #[trigger] a@.dom().contains(k) implies b@.dom().contains(
                    k,
                ) && texts(a@[k]@) == texts(b@[k]@) by {
                    assert(x.dom().contains(k));
                    assert(y.dom().contains(k));
                    assert(x[k] == y[k]);
                }
                assert forall|k: Seq<char>| #[trigger] b@.dom().contains(k) implies a@.dom().contains(
                    k,
                ) && texts(b@[k]@) == texts(a@[k]@) by {
                    assert(y.dom().contains(k));
                    assert(x.dom().contains(k));
                    assert(x[k] == y[k]);
                }
            }
        }
    }
    ab && ba
}

pub fn queries_equal(a: &CustomDataQuery, b: &CustomDataQuery) -> (res: bool)
    requires
        a.wf(),
        b.wf(),
    ensures
        res == same_query(*a, *b),
{
    let symbols = match (&a.symbols, &b.symbols) {
        (Some(x), Some(y)) => texts_equal(x, y),
        (None, None) => true,
        _ => false,
    };
    let starts = match (a.start_date, b.start_date) {
        (Some(x), Some(y)) => x == y,
        (None, None) => true,
        _ => false,
    };
    let ends = match (a.end_date, b.end_date) {
        (Some(x), Some(y)) => x == y,
        (None, None) => true,
        _ => false,
    };
    symbols && starts && ends && text_maps_equal(&a.string_equals, &b.string_equals)
        && list_maps_equal(&a.string_in, &b.string_in)
}

/// Whether a stream has to be started anew: both subscriptions are custom and
/// their queries, their properties or their numeric bounds differ.
pub open spec fn needs_new_stream(
    previous: SubscriptionDataConfig,
    current: SubscriptionDataConfig,
    numeric_bounds_changed: bool,
) -> bool {
    match (previous.custom, current.custom) {
        (Some(p), Some(c)) => {
            ||| !same_query(p.dynamic_query, c.dynamic_query)
            ||| !same_query(p.config.query, c.config.query)
            ||| text_values(p.config.properties) != text_values(c.config.properties)
            ||| numeric_bounds_changed
        },
        _ => false,
    }
}

pub fn subscription_requires_stream_replacement(
    previous: &SubscriptionDataConfig,
    current: &SubscriptionDataConfig,
    numeric_bounds_changed: bool,
) -> (res: bool)
    requires
        previous.wf(),
        current.wf(),
    ensures
        res == needs_new_stream(*previous, *current, numeric_bounds_changed),
{
    match (&previous.custom, &current.custom) {
        (Some(p), Some(c)) => !queries_equal(&p.dynamic_query, &c.dynamic_query) || !queries_equal(
            &p.config.query,
            &c.config.query,
        ) || !text_maps_equal(&p.config.properties, &c.config.properties)
            || numeric_bounds_changed,
        _ => false,
    }
}

// ---------------------------------------------------------------------------
// Following the algorithm's subscriptions
// ---------------------------------------------------------------------------

/// Whether a list holds, in order, exactly the positions below `n` that satisfy
/// a condition.
pub open spec fn lists(list: Seq<usize>, n: int, condition: spec_fn(int) -> bool) -> bool {
    &&& forall|i: int, j: int| 0 <= i < j < list.len() ==> list[i] < list[j]
    &&& forall|i: int| 0 <= i < list.len() ==> (#[trigger] list[i]) < n && condition(
        list[i] as int,
    )
    &&& forall|k: int| 0 <= k < n && #[trigger] condition(k) ==> list.contains(k as usize)
}

/// Whether some subscription has an id.
pub open spec fn has_id(configs: Seq<SubscriptionDataConfig>, id: u64) -> bool {
    exists|i: int| 0 <= i < configs.len() && (#[trigger] configs[i]).unique_id == id
}

/// Position of the first subscription with an id, or the length.
pub open spec fn first_with_id(configs: Seq<SubscriptionDataConfig>, id: u64) -> int
    decreases configs.len(),
{
    if configs.len() == 0 || configs[0].unique_id == id {
        0
    } else {
        1 + first_with_id(configs.skip(1), id)
    }
}

proof fn lemma_first_with_id(configs: Seq<SubscriptionDataConfig>, id: u64)
    ensures
        0 <= first_with_id(configs, id) <= configs.len(),
        first_with_id(configs, id) < configs.len() ==> configs[first_with_id(
            configs,
            id,
        )].unique_id == id,
        first_with_id(configs, id) < configs.len() <==> has_id(configs, id),
        forall|k: int| 0 <= k < first_with_id(configs, id) ==> (#[trigger] configs[k]).unique_id
            != id,
    decreases configs.len(),
{
    if configs.len() == 0 || configs[0].unique_id == id {
        if configs.len() > 0 {
            assert(configs[0].unique_id == id);
        }
    } else {
        let rest = configs.skip(1);
        lemma_first_with_id(rest, id);
        assert forall|k: int| 0 <= k < first_with_id(configs, id) implies (
        #[trigger] configs[k]).unique_id != id by {
            if k > 0 {
                assert(rest[k - 1] == configs[k]);
            }
        }
        if has_id(configs, id) {
            let i = choose|i: int| 0 <= i < configs.len() && (#[trigger] configs[i]).unique_id == id;
            assert(rest[i - 1] == configs[i]);
        }
        if has_id(rest, id) {
            let i = choose|i: int| 0 <= i < rest.len() && (#[trigger] rest[i]).unique_id == id;
            assert(configs[i + 1] == rest[i]);
        }
    }
}

fn find_id(configs: &Vec<SubscriptionDataConfig>, id: u64) -> (res: Option<usize>)
    ensures
        match res {
            Some(i) => i < configs@.len() && i == first_with_id(configs@, id)
                && configs@[i as int].unique_id == id,
            None => !has_id(configs@, id),
        },
{
    proof {
        lemma_first_with_id(configs@, id);
    }
    let mut i: usize = 0;
    while i < configs.len()
        invariant
            i <= configs@.len(),
            i <= first_with_id(configs@, id) <= configs@.len(),
            first_with_id(configs@, id) < configs@.len() ==> configs@[first_with_id(
                configs@,
                id,
            )].unique_id == id,
            forall|k: int|
                0 <= k < first_with_id(configs@, id) ==> (#[trigger] configs@[k]).unique_id != id,
            first_with_id(configs@, id) < configs@.len() <==> has_id(configs@, id),
        decreases configs.len() - i,
    {
        if configs[i].unique_id == id {
            return Some(i);
        }
        assert(i != first_with_id(configs@, id));
        i = i + 1;
    }
    None
}

/// Streams to replace, to start and to end.
pub struct SyncPlan {
    /// Positions among the current subscriptions whose streams are ended first,
    /// to be started again.
    pub replaced: Vec<usize>,
    /// Positions among the current subscriptions whose streams are started.
    pub added: Vec<usize>,
    /// Positions among the former subscriptions whose streams are ended.
    pub removed: Vec<usize>,
}

/// Whether the stream of a current subscription is replaced: there is a former
/// one of the same id, and it needs a new stream.
pub open spec fn is_replaced(
    active: Seq<SubscriptionDataConfig>,
    current: Seq<SubscriptionDataConfig>,
    numeric_changed: Seq<bool>,
    k: int,
) -> bool {
    let j = first_with_id(active, current[k].unique_id);
    has_id(active, current[k].unique_id) && needs_new_stream(
        active[j],
        current[k],
        numeric_changed[k],
    )
}

/// Whether a current subscription shares its id with a replaced one.
pub open spec fn shares_replaced(
    active: Seq<SubscriptionDataConfig>,
    current: Seq<SubscriptionDataConfig>,
    numeric_changed: Seq<bool>,
    k: int,
) -> bool {
    exists|m: int|
        0 <= m < current.len() && #[trigger] is_replaced(active, current, numeric_changed, m)
            && current[m].unique_id == current[k].unique_id
}

/// Whether the stream of a current subscription is started: it is new, or
/// replaced.
pub open spec fn is_added(
    active: Seq<SubscriptionDataConfig>,
    current: Seq<SubscriptionDataConfig>,
    numeric_changed: Seq<bool>,
    k: int,
) -> bool {
    !has_id(active, current[k].unique_id) || shares_replaced(active, current, numeric_changed, k)
}

/// Plans how the feed follows the algorithm's subscriptions. `numeric_changed`
/// tells of each current subscription whether its numeric bounds differ from
/// those of its former.
#[verifier::loop_isolation(false)]
pub fn sync_data_manager_subscriptions(
    active: &Vec<SubscriptionDataConfig>,
    current: &Vec<SubscriptionDataConfig>,
    numeric_changed: &Vec<bool>,
) -> (res: SyncPlan)
    requires
        numeric_changed@.len() == current@.len(),
        forall|i: int| 0 <= i < active@.len() ==> (#[trigger] active@[i]).wf(),
        forall|i: int| 0 <= i < current@.len() ==> (#[trigger] current@[i]).wf(),
    ensures
        lists(
            res.replaced@,
            current@.len() as int,
            |k: int| is_replaced(active@, current@, numeric_changed@, k),
        ),
        lists(
            res.added@,
            current@.len() as int,
            |k: int| is_added(active@, current@, numeric_changed@, k),
        ),
        lists(
            res.removed@,
            active@.len() as int,
            |j: int| !has_id(current@, active@[j].unique_id),
        ),
{
    let ghost replaced_if = |k: int| is_replaced(active@, current@, numeric_changed@, k);
    let ghost added_if = |k: int| is_added(active@, current@, numeric_changed@, k);
    let ghost removed_if = |j: int| !has_id(current@, active@[j].unique_id);
    let mut replaced: Vec<usize> = Vec::new();
    let mut k: usize = 0;
    while k < current.len()
        invariant
            k <= current@.len(),
            lists(replaced@, k as int, replaced_if),
        decreases current.len() - k,
    {
        let ghost before = replaced@;
        let needs = match find_id(active, current[k].unique_id) {
            Some(j) => {
                assert(active@[j as int].wf());
                assert(current@[k as int].wf());
                subscription_requires_stream_replacement(&active[j], &current[k], numeric_changed[k])
            },
            None => false,
        };
        proof {
            lemma_first_with_id(active@, current@[k as int].unique_id);
            assert(needs == replaced_if(k as int));
        }
        if needs {
            replaced.push(k);
        }
        proof {
            lemma_lists_next(before, replaced@, k, needs, replaced_if);
        }
        k = k + 1;
    }
    let mut added: Vec<usize> = Vec::new();
    let mut k: usize = 0;
    while k < current.len()
        invariant
            k <= current@.len(),
            lists(added@, k as int, added_if),
        decreases current.len() - k,
    {
        let ghost before = added@;
        let id: u64 = current[k].unique_id;
        let fresh = find_id(active, id).is_none();
        let shared = any_with_id(current, &replaced, id);
        proof {
            lemma_first_with_id(active@, id);
            if shared {
                let m = choose|m: int|
                    0 <= m < replaced@.len() && current@[#[trigger] replaced@[m] as int].unique_id
                        == id;
                assert(replaced_if(replaced@[m] as int));
                assert(is_replaced(active@, current@, numeric_changed@, replaced@[m] as int));
            }
            if shares_replaced(active@, current@, numeric_changed@, k as int) {
                let m = choose|m: int|
                    0 <= m < current@.len() && #[trigger] is_replaced(
                        active@,
                        current@,
                        numeric_changed@,
                        m,
                    ) && current@[m].unique_id == current@[k as int].unique_id;
                assert(replaced_if(m));
                assert(replaced@.contains(m as usize));
                let q = choose|q: int| 0 <= q < replaced@.len() && replaced@[q] == m as usize;
                assert(current@[replaced@[q] as int].unique_id == id);
            }
            assert((fresh || shared) == added_if(k as int));
        }
        if fresh || shared {
            added.push(k);
        }
        proof {
            lemma_lists_next(before, added@, k, fresh || shared, added_if);
        }
        k = k + 1;
    }
    let mut removed: Vec<usize> = Vec::new();
    let mut j: usize = 0;
    while j < active.len()
        invariant
            j <= active@.len(),
            lists(removed@, j as int, removed_if),
        decreases active.len() - j,
    {
        let ghost before = removed@;
        let gone = find_id(current, active[j].unique_id).is_none();
        proof {
            lemma_first_with_id(current@, active@[j as int].unique_id);
            assert(gone == removed_if(j as int));
        }
        if gone {
            removed.push(j);
        }
        proof {
            lemma_lists_next(before, removed@, j, gone, removed_if);
        }
        j = j + 1;
    }
    SyncPlan { replaced, added, removed }
}

proof fn lemma_lists_next(
    before: Seq<usize>,
    after: Seq<usize>,
    k: usize,
    listed: bool,
    condition: spec_fn(int) -> bool,
)
    requires
        k < usize::MAX,
        lists(before, k as int, condition),
        listed == condition(k as int),
        after == (if listed {
            before.push(k)
        } else {
            before
        }),
    ensures
        lists(after, k + 1, condition),
{
    crate::subscription_reader::coverage::lemma_push_contains(before, k);
}

fn any_with_id(configs: &Vec<SubscriptionDataConfig>, positions: &Vec<usize>, id: u64) -> (res: bool)
    requires
        forall|i: int| 0 <= i < positions@.len() ==> (#[trigger] positions@[i]) < configs@.len(),
    ensures
        res == exists|m: int|
            0 <= m < positions@.len() && configs@[#[trigger] positions@[m] as int].unique_id == id,
{
    let mut i: usize = 0;
    while i < positions.len()
        invariant
            i <= positions@.len(),
            forall|m: int| 0 <= m < positions@.len() ==> (#[trigger] positions@[m]) < configs@.len(),
            forall|m: int|
                0 <= m < i ==> configs@[#[trigger] positions@[m] as int].unique_id != id,
        decreases positions.len() - i,
    {
        assert(positions@[i as int] < configs@.len());
        if configs[positions[i]].unique_id == id {
            return true;
        }
        i = i + 1;
    }
    false
}

/// Following the plan, the feed ends up with exactly the current ids: an id has
/// a stream afterwards if it had one that was neither ended nor replaced, or if
/// one was started for it.
pub proof fn law_feed_follows_subscriptions(
    active: Seq<SubscriptionDataConfig>,
    current: Seq<SubscriptionDataConfig>,
    numeric_changed: Seq<bool>,
    id: u64,
)
    ensures
        has_id(current, id) <==> ((has_id(active, id) && has_id(current, id) && !(exists|k: int|
            0 <= k < current.len() && current[k].unique_id == id && #[trigger] is_replaced(
                active,
                current,
                numeric_changed,
                k,
            ))) || exists|k: int|
            0 <= k < current.len() && current[k].unique_id == id && #[trigger] is_added(
                active,
                current,
                numeric_changed,
                k,
            )),
{
    if has_id(current, id) {
        let i = choose|i: int| 0 <= i < current.len() && (#[trigger] current[i]).unique_id == id;
        if !has_id(active, id) {
            assert(is_added(active, current, numeric_changed, i));
        } else if exists|k: int|
            0 <= k < current.len() && current[k].unique_id == id && #[trigger] is_replaced(
                active,
                current,
                numeric_changed,
                k,
            ) {
            let k = choose|k: int|
                0 <= k < current.len() && current[k].unique_id == id && #[trigger] is_replaced(
                    active,
                    current,
                    numeric_changed,
                    k,
                );
            assert(shares_replaced(active, current, numeric_changed, i));
            assert(is_added(active, current, numeric_changed, i));
        }
    }
    if exists|k: int|
        0 <= k < current.len() && current[k].unique_id == id && #[trigger] is_added(
            active,
            current,
            numeric_changed,
            k,
        ) {
        let k = choose|k: int|
            0 <= k < current.len() && current[k].unique_id == id && #[trigger] is_added(
                active,
                current,
                numeric_changed,
                k,
            );
        assert(current[k].unique_id == id);
    }
}

// ---------------------------------------------------------------------------
// Benchmark and option chains
// ---------------------------------------------------------------------------

/// Where the data of the benchmark come from.
#[derive(Debug, PartialEq, Eq)]
pub enum BenchmarkChoice {
    /// There is no benchmark.
    Nothing,
    /// The subscription at this position.
    Existing(usize),
    /// A new internal daily subscription to an adjusted equity of this ticker.
    NewInternal(String),
}

/// Position of the first subscription to a ticker, whatever its case.
pub open spec fn first_with_ticker(configs: Seq<SubscriptionDataConfig>, ticker: Seq<char>) -> int
    decreases configs.len(),
{
    if configs.len() == 0 || same_ignoring_case(configs[0].symbol.permtick@, ticker) {
        0
    } else {
        1 + first_with_ticker(configs.skip(1), ticker)
    }
}

/// Chooses the data of the benchmark: a subscription to its ticker, or a new
/// internal one. A blank ticker means no benchmark.
pub fn benchmark_subscription_for_symbol(ticker: &str, subscriptions: &Vec<SubscriptionDataConfig>) -> (res:
    BenchmarkChoice)
    ensures
        ({
            let name = ascii_upper(trimmed(ticker@));
            let first = first_with_ticker(subscriptions@, name);
            match res {
                BenchmarkChoice::Nothing => name.len() == 0,
                BenchmarkChoice::Existing(i) => name.len() > 0 && i == first && i
                    < subscriptions@.len(),
                BenchmarkChoice::NewInternal(text) => name.len() > 0 && first
                    == subscriptions@.len() && text@ == name,
            }
        }),
{
    let bare = trim(ticker);
    let name = to_ascii_uppercase(bare.as_str());
    if name.as_str().is_empty() {
        return BenchmarkChoice::Nothing;
    }
    let mut i: usize = 0;
    assert(subscriptions@.skip(0) =~= subscriptions@);
    while i < subscriptions.len()
        invariant
            i <= subscriptions@.len(),
            name@ == ascii_upper(trimmed(ticker@)),
            name@.len() > 0,
            first_with_ticker(subscriptions@, name@) == i + first_with_ticker(
                subscriptions@.skip(i as int),
                name@,
            ),
        decreases subscriptions.len() - i,
    {
        assert(subscriptions@.skip(i as int).skip(1) =~= subscriptions@.skip(i + 1));
        if eq_ignore_ascii_case(subscriptions[i].symbol.permtick.as_str(), name.as_str()) {
            return BenchmarkChoice::Existing(i);
        }
        i = i + 1;
    }
    BenchmarkChoice::NewInternal(name)
}

/// Subscriptions with more added: each one whose id is not there yet.
pub open spec fn with_missing(
    configs: Seq<SubscriptionDataConfig>,
    more: Seq<SubscriptionDataConfig>,
) -> Seq<SubscriptionDataConfig>
    decreases more.len(),
{
    if more.len() == 0 {
        configs
    } else {
        let head = with_missing(configs, more.drop_last());
        if has_id(head, more.last().unique_id) {
            head
        } else {
            head.push(more.last())
        }
    }
}

/// The subscriptions with that of the benchmark, if it is not among them.
pub fn subscriptions_with_benchmark(
    subscriptions: Vec<SubscriptionDataConfig>,
    benchmark: Option<SubscriptionDataConfig>,
) -> (res: Vec<SubscriptionDataConfig>)
    ensures
        res@ == (match benchmark {
            Some(config) => with_missing(subscriptions@, seq![config]),
            None => subscriptions@,
        }),
{
    match benchmark {
        Some(config) => {
            let mut more: Vec<SubscriptionDataConfig> = Vec::new();
            more.push(config);
            assert(more@ =~= seq![config]);
            add_missing(subscriptions, more)
        },
        None => subscriptions,
    }
}

fn add_missing(
    subscriptions: Vec<SubscriptionDataConfig>,
    more: Vec<SubscriptionDataConfig>,
) -> (res: Vec<SubscriptionDataConfig>)
    ensures
        res@ == with_missing(subscriptions@, more@),
{
    let mut out = subscriptions;
    let ghost start = out@;
    let ghost all = more@;
    assert(all.take(0) =~= Seq::<SubscriptionDataConfig>::empty());
    for config in it: more
        invariant
            it.seq() == all,
            out@ == with_missing(start, all.take(it.index() as int)),
    {
        proof {
            assert(all.take(it.index() + 1).drop_last() =~= all.take(it.index() as int));
            assert(all.take(it.index() + 1).last() == config);
            lemma_first_with_id(out@, config.unique_id);
        }
        if find_id(&out, config.unique_id).is_none() {
            out.push(config);
        }
    }
    assert(all.take(all.len() as int) =~= all);
    out
}

/// The subscriptions with those of the option chains that are not among them.
pub fn subscriptions_with_option_chains(
    subscriptions: Vec<SubscriptionDataConfig>,
    chains: Vec<SubscriptionDataConfig>,
) -> (res: Vec<SubscriptionDataConfig>)
    ensures
        res@ == with_missing(subscriptions@, chains@),
{
    add_missing(subscriptions, chains)
}

/// Option-chain part of the subscription to a canonical option.
pub fn option_chain_metadata(canonical: &Symbol, filter: OptionChainFilterMetadata) -> (res:
    OptionChainSubscriptionMetadata)
    ensures
        res.canonical_permtick@ == canonical.permtick@,
        res.underlying_ticker@ == underlying_ticker(*canonical),
        res.filter == filter,
{
    OptionChainSubscriptionMetadata {
        canonical_permtick: canonical.permtick.clone(),
        underlying_ticker: option_underlying_ticker(canonical),
        filter,
    }
}

/// Adding subscriptions keeps those that were there, in their place, brings in
/// every missing id, and never the same id twice.
pub proof fn law_no_subscription_is_doubled(
    configs: Seq<SubscriptionDataConfig>,
    more: Seq<SubscriptionDataConfig>,
    id: u64,
)
    ensures
        with_missing(configs, more).len() >= configs.len(),
        with_missing(configs, more).take(configs.len() as int) == configs,
        has_id(with_missing(configs, more), id) <==> has_id(configs, id) || has_id(more, id),
        (forall|i: int, j: int|
            0 <= i < j < configs.len() ==> (#[trigger] configs[i]).unique_id != (
            #[trigger] configs[j]).unique_id) ==> (forall|i: int, j: int|
            0 <= i < j < with_missing(configs, more).len() ==> (#[trigger] with_missing(
                configs,
                more,
            )[i]).unique_id != (#[trigger] with_missing(configs, more)[j]).unique_id),
    decreases more.len(),
{
    let out = with_missing(configs, more);
    if more.len() == 0 {
        assert(out.take(configs.len() as int) =~= configs);
    } else {
        let rest = more.drop_last();
        let last = more.last();
        law_no_subscription_is_doubled(configs, rest, id);
        law_no_subscription_is_doubled(configs, rest, last.unique_id);
        let head = with_missing(configs, rest);
        assert(more[more.len() - 1] == last);
        if has_id(rest, id) {
            let i = choose|i: int| 0 <= i < rest.len() && (#[trigger] rest[i]).unique_id == id;
            assert(more[i] == rest[i]);
        }
        if has_id(more, id) {
            let i = choose|i: int| 0 <= i < more.len() && (#[trigger] more[i]).unique_id == id;
            if i < rest.len() {
                assert(rest[i] == more[i]);
            }
        }
        if !has_id(head, last.unique_id) {
            assert(out == head.push(last));
            assert(out.take(configs.len() as int) =~= head.take(configs.len() as int));
            assert(out[head.len() as int] == last);
            if has_id(head, id) {
                let i = choose|i: int| 0 <= i < head.len() && (#[trigger] head[i]).unique_id == id;
                assert(out[i] == head[i]);
            }
            if has_id(out, id) {
                let i = choose|i: int| 0 <= i < out.len() && (#[trigger] out[i]).unique_id == id;
                if i < head.len() {
                    assert(head[i] == out[i]);
                }
            }
            if forall|i: int, j: int|
                0 <= i < j < configs.len() ==> (#[trigger] configs[i]).unique_id != (
                #[trigger] configs[j]).unique_id {
                assert forall|i: int, j: int| 0 <= i < j < out.len() implies (
                #[trigger] out[i]).unique_id != (#[trigger] out[j]).unique_id by {
                    assert(out[i] == head[i]);
                    if j < head.len() {
                        assert(out[j] == head[j]);
                    } else {
                        assert(head[i].unique_id != last.unique_id);
                    }
                }
            }
        }
    }
}

/// A stream is started anew exactly when what it selects has changed. A subscription
/// that is as it was needs none, nor does one that is not custom; one whose symbols,
/// dates, texts, properties or bounds differ does.
pub proof fn law_changed_queries_need_a_new_stream(
    before: SubscriptionDataConfig,
    after: SubscriptionDataConfig,
    bounds_changed: bool,
)
    ensures
        !needs_new_stream(before, before, false),
        before.custom is None || after.custom is None ==> !needs_new_stream(
            before,
            after,
            bounds_changed,
        ),
        before.custom matches Some(p) ==> (after.custom matches Some(c) ==> {
            &&& bounds_changed ==> needs_new_stream(before, after, bounds_changed)
            &&& p.dynamic_query.start_date != c.dynamic_query.start_date ==> needs_new_stream(
                before,
                after,
                bounds_changed,
            )
            &&& p.dynamic_query.end_date != c.dynamic_query.end_date ==> needs_new_stream(
                before,
                after,
                bounds_changed,
            )
            &&& p.config.query.start_date != c.config.query.start_date ==> needs_new_stream(
                before,
                after,
                bounds_changed,
            )
            &&& p.config.query.end_date != c.config.query.end_date ==> needs_new_stream(
                before,
                after,
                bounds_changed,
            )
            &&& p.dynamic_query.symbols is Some && c.dynamic_query.symbols is None
                ==> needs_new_stream(before, after, bounds_changed)
            &&& p.dynamic_query.symbols is None && c.dynamic_query.symbols is Some
                ==> needs_new_stream(before, after, bounds_changed)
            &&& (p.dynamic_query.symbols matches Some(x) && c.dynamic_query.symbols matches Some(y)
                && texts(x@) != texts(y@)) ==> needs_new_stream(before, after, bounds_changed)
            &&& (p.config.query.symbols matches Some(x) && c.config.query.symbols matches Some(y)
                && texts(x@) != texts(y@)) ==> needs_new_stream(before, after, bounds_changed)
            &&& text_values(p.config.properties) != text_values(c.config.properties)
                ==> needs_new_stream(before, after, bounds_changed)
            &&& text_values(p.dynamic_query.string_equals) != text_values(
                c.dynamic_query.string_equals,
            ) ==> needs_new_stream(before, after, bounds_changed)
            &&& list_values(p.dynamic_query.string_in) != list_values(c.dynamic_query.string_in)
                ==> needs_new_stream(before, after, bounds_changed)
        }),
{
}

/// Whether two queries select the same does not depend on which comes first, and what
/// is the same as the same is the same.
pub proof fn law_same_queries(a: CustomDataQuery, b: CustomDataQuery, c: CustomDataQuery)
    ensures
        same_query(a, a),
        same_query(a, b) == same_query(b, a),
        same_query(a, b) && same_query(b, c) ==> same_query(a, c),
{
}

/// A stream of the symbols of a universe starts with none, and is otherwise as it was
/// asked for; streams that list their symbols, and universes themselves, stay as they
/// are.
pub proof fn law_streams_of_a_universe_start_empty(
    config: SubscriptionDataConfig,
    configs: Seq<SubscriptionDataConfig>,
    after: SubscriptionDataConfig,
    k: int,
)
    ensures
        starts_without_symbols(config, configs) ==> config.data_kind
            != SubscriptionDataKind::Universe && (config.custom matches Some(custom)
            && custom.dynamic_query.symbols is None),
        0 <= k < configs.len() && configs[k].data_kind == SubscriptionDataKind::Universe && (
        configs[k].custom matches Some(fed) && config.custom matches Some(custom)
            && same_ignoring_case(fed.source_type@, custom.source_type@)
            && custom.dynamic_query.symbols is None) && config.data_kind
            != SubscriptionDataKind::Universe ==> starts_without_symbols(config, configs),
        (forall|i: int|
            0 <= i < configs.len() ==> (#[trigger] configs[i]).data_kind
                != SubscriptionDataKind::Universe) ==> !starts_without_symbols(config, configs),
        narrowed(config, after) ==> {
            &&& after.unique_id == config.unique_id
            &&& after.symbol == config.symbol
            &&& after.resolution == config.resolution
            &&& after.data_kind == config.data_kind
            &&& after.custom matches Some(custom) && (custom.dynamic_query.symbols matches Some(
                symbols,
            ) && symbols@.len() == 0)
            &&& after.custom matches Some(new) && config.custom matches Some(old_custom)
                && new.source_type == old_custom.source_type && new.ticker == old_custom.ticker
                && new.dynamic_query.string_equals == old_custom.dynamic_query.string_equals
                && new.dynamic_query.start_date == old_custom.dynamic_query.start_date
        },
{
}

/// The data of a benchmark are those of the first subscription to its ticker, whatever
/// the case.
pub proof fn law_first_subscription_to_the_ticker(
    configs: Seq<SubscriptionDataConfig>,
    ticker: Seq<char>,
    k: int,
)
    ensures
        0 <= first_with_ticker(configs, ticker) <= configs.len(),
        first_with_ticker(configs, ticker) < configs.len() ==> same_ignoring_case(
            configs[first_with_ticker(configs, ticker)].symbol.permtick@,
            ticker,
        ),
        0 <= k < first_with_ticker(configs, ticker) ==> !same_ignoring_case(
            configs[k].symbol.permtick@,
            ticker,
        ),
    decreases configs.len(),
{
    if configs.len() > 0 && !same_ignoring_case(configs[0].symbol.permtick@, ticker) {
        let rest = configs.skip(1);
        law_first_subscription_to_the_ticker(rest, ticker, k - 1);
        let i = first_with_ticker(rest, ticker);
        if i < rest.len() {
            assert(rest[i] == configs[i + 1]);
        }
        if 0 < k < first_with_ticker(configs, ticker) {
            assert(rest[k - 1] == configs[k]);
        }
    }
}

/// The stream of a subscription is replaced only if it was there and has changed, and
/// started only if it is new or replaced.
pub proof fn law_replaced_and_added_streams(
    active: Seq<SubscriptionDataConfig>,
    current: Seq<SubscriptionDataConfig>,
    numeric_changed: Seq<bool>,
    k: int,
)
    requires
        0 <= k < current.len(),
        numeric_changed.len() == current.len(),
    ensures
        is_replaced(active, current, numeric_changed, k) ==> exists|j: int|
            0 <= j < active.len() && (#[trigger] active[j]).unique_id == current[k].unique_id
                && needs_new_stream(active[j], current[k], numeric_changed[k]),
        (forall|j: int|
            0 <= j < active.len() ==> (#[trigger] active[j]).unique_id != current[k].unique_id)
            ==> is_added(active, current, numeric_changed, k) && !is_replaced(
            active,
            current,
            numeric_changed,
            k,
        ),
        is_replaced(active, current, numeric_changed, k) ==> is_added(
            active,
            current,
            numeric_changed,
            k,
        ),
{
    lemma_first_with_id(active, current[k].unique_id);
    if is_replaced(active, current, numeric_changed, k) {
        let j = first_with_id(active, current[k].unique_id);
        assert(active[j].unique_id == current[k].unique_id);
        assert(shares_replaced(active, current, numeric_changed, k));
    }
}

} // verus!
