//! Live subscriptions: what is subscribed and polled, and what is received next.

use crate::model::{CustomDataPoint, SubscriptionDataConfig};
use crate::name_map::NameMap;
use crate::runner::live::has_sid;
use crate::subscription_reader::coverage::lemma_push_contains;
use crate::text::{eq_ignore_ascii_case, i64_to_text, int_text, same_ignoring_case};
use crate::time::{date_text, Duration};
use vstd::prelude::*;
use vstd::string::*;

verus! {

/// Index of the first source whose name is that of a subscription, whatever
/// its case.
pub open spec fn source_of(custom_name: Option<Seq<char>>, sources: Seq<String>) -> Option<int> {
    match custom_name {
        Some(name) => first_named(name, sources),
        None => None,
    }
}

pub open spec fn first_named(name: Seq<char>, sources: Seq<String>) -> Option<int>
    decreases sources.len(),
{
    if sources.len() == 0 {
        None
    } else {
        match first_named(name, sources.drop_last()) {
            Some(i) => Some(i),
            None => if same_ignoring_case(sources.last()@, name) {
                Some(sources.len() - 1)
            } else {
                None
            },
        }
    }
}

/// Name of the source of a custom subscription.
pub open spec fn source_name(config: SubscriptionDataConfig) -> Option<Seq<char>> {
    match config.custom {
        Some(custom) => Some(custom.source_type@),
        None => None,
    }
}

pub fn custom_source_for_config(config: &SubscriptionDataConfig, sources: &Vec<String>) -> (res: Option<
    usize,
>)
    ensures
        match res {
            Some(i) => source_of(source_name(*config), sources@) == Some(i as int) && i
                < sources@.len(),
            None => source_of(source_name(*config), sources@) is None,
        },
{
    let custom = match &config.custom {
        Some(custom) => custom,
        None => {
            return None;
        },
    };
    let ghost name = custom.source_type@;
    let mut i: usize = 0;
    let mut found: Option<usize> = None;
    while i < sources.len()
        invariant
            i <= sources@.len(),
            name == custom.source_type@,
            match found {
                Some(k) => k < i && first_named(name, sources@.take(i as int)) == Some(k as int),
                None => first_named(name, sources@.take(i as int)) is None,
            },
        decreases sources.len() - i,
    {
        proof {
            assert(sources@.take(i + 1).drop_last() =~= sources@.take(i as int));
            assert(sources@.take(i + 1).last() == sources@[i as int]);
        }
        if found.is_none() && eq_ignore_ascii_case(
            sources[i].as_str(),
            custom.source_type.as_str(),
        ) {
            found = Some(i);
        }
        i = i + 1;
    }
    assert(sources@.take(i as int) =~= sources@);
    found
}

/// Whether a subscription is served by a custom source.
pub open spec fn is_custom(config: SubscriptionDataConfig, sources: Seq<String>) -> bool {
    source_of(source_name(config), sources) is Some
}

pub fn is_custom_subscription(config: &SubscriptionDataConfig, sources: &Vec<String>) -> (res: bool)
    ensures
        res == is_custom(*config, sources@),
{
    custom_source_for_config(config, sources).is_some()
}

/// Subscriptions to start and to end.
pub struct SubscriptionChanges {
    /// Ids to unsubscribe.
    pub ended: Vec<u64>,
    /// Positions, in the wanted list, of the subscriptions to start.
    pub started: Vec<usize>,
}

/// Whether a subscription is taken up by a set for market data, or by one for
/// custom data.
pub open spec fn is_taken_up(
    config: SubscriptionDataConfig,
    sources: Seq<String>,
    custom: bool,
) -> bool {
    is_custom(config, sources) == custom
}

/// Ids after a sync, and the positions of new subscriptions: one for each id
/// that is wanted, of the right kind and not there yet.
pub open spec fn with_wanted(
    ids: Seq<u64>,
    wanted: Seq<SubscriptionDataConfig>,
    sources: Seq<String>,
    custom: bool,
) -> (Seq<u64>, Seq<int>)
    decreases wanted.len(),
{
    if wanted.len() == 0 {
        (ids, Seq::empty())
    } else {
        let (held, started) = with_wanted(ids, wanted.drop_last(), sources, custom);
        let config = wanted.last();
        if !held.contains(config.unique_id) && is_taken_up(config, sources, custom) {
            (held.push(config.unique_id), started.push(wanted.len() - 1))
        } else {
            (held, started)
        }
    }
}

/// Whether a held subscription stays: it is wanted. A set of custom data
/// also asks that it is still served by a custom source.
pub open spec fn stays(
    id: u64,
    wanted: Seq<SubscriptionDataConfig>,
    sources: Seq<String>,
    custom: bool,
) -> bool {
    exists|i: int|
        0 <= i < wanted.len() && (#[trigger] wanted[i]).unique_id == id && (custom ==> is_custom(
            wanted[i],
            sources,
        ))
}

/// Subscriptions that are active, by id.
pub struct LiveSubscriptionSet {
    pub ids: Vec<u64>,
    /// Whether the set is of custom data.
    pub custom: bool,
}

/// As positions in an executable list.
pub open spec fn positions(list: Seq<usize>) -> Seq<int> {
    list.map_values(|i: usize| i as int)
}

impl LiveSubscriptionSet {
    /// A set without subscriptions.
    pub fn new(custom: bool) -> (res: LiveSubscriptionSet)
        ensures
            res.ids@.len() == 0,
            res.custom == custom,
    {
        LiveSubscriptionSet { ids: Vec::new(), custom }
    }

    fn is_wanted(&self, id: u64, wanted: &Vec<SubscriptionDataConfig>, sources: &Vec<String>) -> (res:
        bool)
        ensures
            res == stays(id, wanted@, sources@, self.custom),
    {
        let mut i: usize = 0;
        while i < wanted.len()
            invariant
                i <= wanted@.len(),
                forall|k: int|
                    0 <= k < i ==> !((#[trigger] wanted@[k]).unique_id == id && (self.custom
                        ==> is_custom(wanted@[k], sources@))),
            decreases wanted.len() - i,
        {
            if wanted[i].unique_id == id && (!self.custom || is_custom_subscription(
                &wanted[i],
                sources,
            )) {
                assert(wanted@[i as int].unique_id == id);
                return true;
            }
            i = i + 1;
        }
        false
    }

    /// Brings the set in line with what is wanted: subscriptions that are no
    /// longer wanted end, new ones of the set's kind start, once each.
    #[verifier::loop_isolation(false)]
    pub fn sync(&mut self, wanted: &Vec<SubscriptionDataConfig>, sources: &Vec<String>) -> (res:
        SubscriptionChanges)
        ensures
            final(self).custom == old(self).custom,
            res.ended@ == old(self).ids@.filter(
                |id: u64| !stays(id, wanted@, sources@, old(self).custom),
            ),
            ({
                let kept = old(self).ids@.filter(
                    |id: u64| stays(id, wanted@, sources@, old(self).custom),
                );
                (final(self).ids@, positions(res.started@)) == with_wanted(
                    kept,
                    wanted@,
                    sources@,
                    old(self).custom,
                )
            }),
    {
        let custom = self.custom;
        let ghost keep = |id: u64| stays(id, wanted@, sources@, custom);
        let ghost drop = |id: u64| !stays(id, wanted@, sources@, custom);
        let ghost all = self.ids@;
        let mut kept: Vec<u64> = Vec::new();
        let mut ended: Vec<u64> = Vec::new();
        let mut i: usize = 0;
        proof {
            reveal(Seq::filter);
            assert(all.take(0).filter(keep) =~= Seq::<u64>::empty());
            assert(all.take(0).filter(drop) =~= Seq::<u64>::empty());
        }
        while i < self.ids.len()
            invariant
                i <= all.len(),
                self.ids@ == all,
                self.custom == custom,
                kept@ == all.take(i as int).filter(keep),
                ended@ == all.take(i as int).filter(drop),
            decreases self.ids.len() - i,
        {
            let id: u64 = self.ids[i];
            proof {
                reveal(Seq::filter);
                assert(all.take(i + 1).drop_last() =~= all.take(i as int));
                assert(all.take(i + 1).last() == id);
            }
            if self.is_wanted(id, wanted, sources) {
                kept.push(id);
            } else {
                ended.push(id);
            }
            i = i + 1;
        }
        assert(all.take(i as int) =~= all);
        let ghost base = kept@;
        let mut started: Vec<usize> = Vec::new();
        let mut k: usize = 0;
        proof {
            assert(wanted@.take(0) =~= Seq::<SubscriptionDataConfig>::empty());
            assert(positions(started@) =~= Seq::<int>::empty());
        }
        while k < wanted.len()
            invariant
                k <= wanted@.len(),
                self.custom == custom,
                (kept@, positions(started@)) == with_wanted(
                    base,
                    wanted@.take(k as int),
                    sources@,
                    custom,
                ),
            decreases wanted.len() - k,
        {
            let id: u64 = wanted[k].unique_id;
            let ghost before = started@;
            proof {
                assert(wanted@.take(k + 1).drop_last() =~= wanted@.take(k as int));
                assert(wanted@.take(k + 1).last() == wanted@[k as int]);
            }
            if !has_sid(&kept, id) && is_custom_subscription(&wanted[k], sources) == custom {
                kept.push(id);
                started.push(k);
                assert(positions(started@) =~= positions(before).push(k as int));
            }
            k = k + 1;
        }
        assert(wanted@.take(k as int) =~= wanted@);
        self.ids = kept;
        SubscriptionChanges { ended, started }
    }

    /// Ends every subscription.
    pub fn unsubscribe_all(&mut self) -> (res: Vec<u64>)
        ensures
            res@ == old(self).ids@,
            final(self).ids@.len() == 0,
            final(self).custom == old(self).custom,
    {
        let mut out: Vec<u64> = Vec::new();
        out.append(&mut self.ids);
        assert(out@ =~= old(self).ids@);
        out
    }
}

/// After a sync the set holds exactly the wanted subscriptions of its kind,
/// besides wanted ones that it held before.
pub proof fn law_sync_reaches_what_is_wanted(
    ids: Seq<u64>,
    wanted: Seq<SubscriptionDataConfig>,
    sources: Seq<String>,
    custom: bool,
    id: u64,
)
    ensures
        with_wanted(ids, wanted, sources, custom).0.contains(id) <==> (ids.contains(id) || exists|
            i: int,
        |
            0 <= i < wanted.len() && (#[trigger] wanted[i]).unique_id == id && is_taken_up(
                wanted[i],
                sources,
                custom,
            )),
        ids.no_duplicates() ==> with_wanted(ids, wanted, sources, custom).0.no_duplicates(),
    decreases wanted.len(),
{
    if wanted.len() > 0 {
        let head = wanted.drop_last();
        law_sync_reaches_what_is_wanted(ids, head, sources, custom, id);
        let (held, started) = with_wanted(ids, head, sources, custom);
        let config = wanted.last();
        lemma_push_contains(held, config.unique_id);
        if exists|i: int|
            0 <= i < head.len() && (#[trigger] head[i]).unique_id == id && is_taken_up(
                head[i],
                sources,
                custom,
            ) {
            let i = choose|i: int|
                0 <= i < head.len() && (#[trigger] head[i]).unique_id == id && is_taken_up(
                    head[i],
                    sources,
                    custom,
                );
            assert(wanted[i] == head[i]);
        }
        if exists|i: int|
            0 <= i < wanted.len() && (#[trigger] wanted[i]).unique_id == id && is_taken_up(
                wanted[i],
                sources,
                custom,
            ) {
            let i = choose|i: int|
                0 <= i < wanted.len() && (#[trigger] wanted[i]).unique_id == id && is_taken_up(
                    wanted[i],
                    sources,
                    custom,
                );
            if i < head.len() {
                assert(head[i] == wanted[i]);
            }
        }
        assert(wanted[wanted.len() - 1] == config);
    }
}

/// A set that holds what is wanted of its kind has nothing to start, so that a
/// sync may be repeated at will.
pub proof fn law_second_sync_starts_nothing(
    ids: Seq<u64>,
    wanted: Seq<SubscriptionDataConfig>,
    sources: Seq<String>,
    custom: bool,
)
    ensures
        ({
            let held = with_wanted(ids, wanted, sources, custom).0;
            with_wanted(held, wanted, sources, custom) == (held, Seq::<int>::empty())
        }),
{
    let held = with_wanted(ids, wanted, sources, custom).0;
    assert forall|i: int| 0 <= i < wanted.len() && is_taken_up(wanted[i], sources, custom) implies
        held.contains((#[trigger] wanted[i]).unique_id) by {
        law_sync_reaches_what_is_wanted(ids, wanted, sources, custom, wanted[i].unique_id);
    }
    lemma_nothing_new(held, wanted, sources, custom);
}

proof fn lemma_nothing_new(
    held: Seq<u64>,
    wanted: Seq<SubscriptionDataConfig>,
    sources: Seq<String>,
    custom: bool,
)
    requires
        forall|i: int|
            0 <= i < wanted.len() && is_taken_up(wanted[i], sources, custom) ==> held.contains(
                (#[trigger] wanted[i]).unique_id,
            ),
    ensures
        with_wanted(held, wanted, sources, custom) == (held, Seq::<int>::empty()),
    decreases wanted.len(),
{
    if wanted.len() > 0 {
        let head = wanted.drop_last();
        assert forall|i: int| 0 <= i < head.len() && is_taken_up(head[i], sources, custom) implies
            held.contains((#[trigger] head[i]).unique_id) by {
            assert(wanted[i] == head[i]);
        }
        lemma_nothing_new(held, head, sources, custom);
        assert(wanted[wanted.len() - 1] == wanted.last());
    }
}

/// Where the next item is looked for.
#[derive(Clone, Copy, Debug, PartialEq, Eq, Structural)]
pub enum ReceiveStep {
    /// The custom channel, without waiting.
    TryCustom,
    /// A market channel, without waiting.
    TryMarket(usize),
    /// The custom channel, waiting.
    WaitCustom,
    /// A market channel, waiting.
    WaitMarket(usize),
    /// The custom channel once more, without waiting.
    RetryCustom,
    /// Nothing came.
    Nothing,
}

/// What a channel without an item gave.
#[derive(Clone, Copy, Debug, PartialEq, Eq, Structural)]
pub enum ReceiveMiss {
    Timeout,
    Disconnected,
}

/// Where to look after a channel gave nothing.
pub open spec fn look_after(step: ReceiveStep, miss: ReceiveMiss, markets: int) -> ReceiveStep {
    match step {
        ReceiveStep::TryCustom => if markets > 0 {
            ReceiveStep::TryMarket(0)
        } else {
            ReceiveStep::WaitCustom
        },
        ReceiveStep::TryMarket(i) => if i + 1 < markets {
            ReceiveStep::TryMarket((i + 1) as usize)
        } else {
            ReceiveStep::WaitMarket(0)
        },
        ReceiveStep::WaitCustom => ReceiveStep::Nothing,
        ReceiveStep::WaitMarket(i) => match miss {
            ReceiveMiss::Timeout => ReceiveStep::RetryCustom,
            ReceiveMiss::Disconnected => if i + 1 < markets {
                ReceiveStep::WaitMarket((i + 1) as usize)
            } else {
                ReceiveStep::Nothing
            },
        },
        ReceiveStep::RetryCustom => ReceiveStep::Nothing,
        ReceiveStep::Nothing => ReceiveStep::Nothing,
    }
}

/// Where to look after a channel gave nothing. Custom data comes first; then
/// every market channel is looked at without waiting; then one wait is spent on
/// the first market channel that is connected, or on the custom channel where
/// there is no market channel.
pub fn next_receive_step(step: ReceiveStep, miss: ReceiveMiss, markets: usize) -> (res: ReceiveStep)
    requires
        step matches ReceiveStep::TryMarket(i) ==> i < markets,
        step matches ReceiveStep::WaitMarket(i) ==> i < markets,
    ensures
        res == look_after(step, miss, markets as int),
        res matches ReceiveStep::TryMarket(i) ==> i < markets,
        res matches ReceiveStep::WaitMarket(i) ==> i < markets,
{
    match step {
        ReceiveStep::TryCustom => if markets > 0 {
            ReceiveStep::TryMarket(0)
        } else {
            ReceiveStep::WaitCustom
        },
        ReceiveStep::TryMarket(i) => if i + 1 < markets {
            ReceiveStep::TryMarket(i + 1)
        } else {
            ReceiveStep::WaitMarket(0)
        },
        ReceiveStep::WaitCustom => ReceiveStep::Nothing,
        ReceiveStep::WaitMarket(i) => match miss {
            ReceiveMiss::Timeout => ReceiveStep::RetryCustom,
            ReceiveMiss::Disconnected => if i + 1 < markets {
                ReceiveStep::WaitMarket(i + 1)
            } else {
                ReceiveStep::Nothing
            },
        },
        ReceiveStep::RetryCustom => ReceiveStep::Nothing,
        ReceiveStep::Nothing => ReceiveStep::Nothing,
    }
}

/// Steps left before the search for an item ends, at most.
pub open spec fn steps_left(step: ReceiveStep, markets: int) -> int {
    match step {
        ReceiveStep::TryCustom => 2 * markets + 4,
        ReceiveStep::TryMarket(i) => 2 * markets - i + 3,
        ReceiveStep::WaitMarket(i) => markets - i + 2,
        ReceiveStep::WaitCustom => 1,
        ReceiveStep::RetryCustom => 1,
        ReceiveStep::Nothing => 0,
    }
}

/// The search for an item ends, whatever the channels give.
pub proof fn law_search_for_an_item_ends(step: ReceiveStep, miss: ReceiveMiss, markets: int)
    requires
        0 <= markets <= usize::MAX,
        step matches ReceiveStep::TryMarket(i) ==> i < markets,
        step matches ReceiveStep::WaitMarket(i) ==> i < markets,
        !(step is Nothing),
    ensures
        0 <= steps_left(look_after(step, miss, markets), markets) < steps_left(step, markets),
{
}

/// Text by which a custom row is recognised: its instant, or its date, and its
/// fields.
pub fn custom_point_key(point: &CustomDataPoint, fields: &str) -> (res: String)
    requires
        point.time.in_calendar(),
    ensures
        res@ == (match point.end_time {
            Some(time) => int_text(time.ns as int),
            None => date_text(point.time.days as int),
        }) + ":"@ + fields@,
{
    let time = match point.end_time {
        Some(time) => i64_to_text(time.ns),
        None => point.time.to_text(),
    };
    time.concat(":").concat(fields)
}

/// A polled row with its key, and whether it passes the query.
pub struct PolledPoint {
    pub point: CustomDataPoint,
    pub key: String,
    pub matches_query: bool,
}

/// Rows delivered, and the keys known after that: each row that passes the query
/// and whose key is new.
pub open spec fn delivered(seen: Map<Seq<char>, bool>, points: Seq<PolledPoint>) -> (
    Map<Seq<char>, bool>,
    Seq<CustomDataPoint>,
)
    decreases points.len(),
{
    if points.len() == 0 {
        (seen, Seq::empty())
    } else {
        let (keys, out) = delivered(seen, points.drop_last());
        let polled = points.last();
        if polled.matches_query && !keys.dom().contains(polled.key@) {
            (keys.insert(polled.key@, true), out.push(polled.point))
        } else {
            (keys, out)
        }
    }
}

/// Picks the polled rows that are delivered: those that pass the query and were
/// not delivered before.
pub fn accept_polled_points(seen: &mut NameMap<bool>, points: Vec<PolledPoint>) -> (res: Vec<
    CustomDataPoint,
>)
    requires
        old(seen).wf(),
    ensures
        final(seen).wf(),
        (final(seen)@, res@) == delivered(old(seen)@, points@),
{
    let mut out: Vec<CustomDataPoint> = Vec::new();
    let ghost all = points@;
    assert(all.take(0) =~= Seq::<PolledPoint>::empty());
    for polled in it: points
        invariant
            it.seq() == all,
            seen.wf(),
            (seen@, out@) == delivered(old(seen)@, all.take(it.index() as int)),
    {
        proof {
            assert(all.take(it.index() + 1).drop_last() =~= all.take(it.index() as int));
            assert(all.take(it.index() + 1).last() == polled);
        }
        if polled.matches_query && !seen.contains_key(polled.key.as_str()) {
            seen.insert(polled.key, true);
            out.push(polled.point);
        }
    }
    assert(all.take(all.len() as int) =~= all);
    out
}

/// Next nap of a poller that waits for `delay`: at most a second, so that it
/// notices when it is to stop; none when it is to stop or the wait is over.
pub fn next_nap(stopped: bool, elapsed: Duration, delay: Duration) -> (res: Option<Duration>)
    ensures
        res == (if stopped || elapsed.nanos >= delay.nanos {
            None
        } else if delay.nanos - elapsed.nanos > 1_000_000_000 {
            Some(Duration { nanos: 1_000_000_000 })
        } else {
            Some(Duration { nanos: (delay.nanos - elapsed.nanos) as u128 })
        }),
        is_nap(stopped, elapsed, delay, res),
{
    if stopped || elapsed.nanos >= delay.nanos {
        return None;
    }
    let remaining = Duration { nanos: delay.nanos - elapsed.nanos };
    Some(remaining.min(Duration::from_secs(1)))
}

/// Positions of the first subscription to each security.
pub open spec fn first_of_security(configs: Seq<SubscriptionDataConfig>) -> (Seq<u64>, Seq<int>)
    decreases configs.len(),
{
    if configs.len() == 0 {
        (Seq::empty(), Seq::empty())
    } else {
        let (seen, out) = first_of_security(configs.drop_last());
        let sid = configs.last().symbol.sid;
        if seen.contains(sid) {
            (seen, out)
        } else {
            (seen.push(sid), out.push(configs.len() - 1))
        }
    }
}

/// The subscriptions whose corporate actions are resolved: one per security.
pub fn resolve_live_corporate_actions(configs: &Vec<SubscriptionDataConfig>) -> (res: Vec<usize>)
    ensures
        positions(res@) == first_of_security(configs@).1,
        forall|i: int| 0 <= i < res@.len() ==> (#[trigger] res@[i]) < configs@.len(),
{
    let mut seen: Vec<u64> = Vec::new();
    let mut out: Vec<usize> = Vec::new();
    let mut i: usize = 0;
    assert(positions(out@) =~= Seq::<int>::empty());
    assert(configs@.take(0) =~= Seq::<SubscriptionDataConfig>::empty());
    while i < configs.len()
        invariant
            i <= configs@.len(),
            seen@ == first_of_security(configs@.take(i as int)).0,
            positions(out@) == first_of_security(configs@.take(i as int)).1,
            forall|k: int| 0 <= k < out@.len() ==> (#[trigger] out@[k]) < i,
        decreases configs.len() - i,
    {
        let sid: u64 = configs[i].symbol.sid;
        let ghost before = out@;
        proof {
            assert(configs@.take(i + 1).drop_last() =~= configs@.take(i as int));
            assert(configs@.take(i + 1).last() == configs@[i as int]);
        }
        if !has_sid(&seen, sid) {
            seen.push(sid);
            out.push(i);
            assert(positions(out@) =~= positions(before).push(i as int));
        }
        i = i + 1;
    }
    assert(configs@.take(i as int) =~= configs@);
    out
}

/// The source of a custom subscription is the first that bears its name, whatever the
/// case; a subscription of market data has none.
pub proof fn law_first_source_of_the_name_serves(name: Seq<char>, sources: Seq<String>, k: int)
    ensures
        0 <= k < sources.len() && same_ignoring_case(sources[k]@, name) && (forall|j: int|
            0 <= j < k ==> !same_ignoring_case((#[trigger] sources[j])@, name)) ==> source_of(
            Some(name),
            sources,
        ) == Some(k),
        (forall|j: int|
            0 <= j < sources.len() ==> !same_ignoring_case((#[trigger] sources[j])@, name))
            ==> source_of(Some(name), sources) is None,
        source_of(None, sources) is None,
    decreases sources.len(),
{
    if sources.len() > 0 {
        let head = sources.drop_last();
        assert forall|j: int| 0 <= j < head.len() implies head[j] == sources[j] by {}
        law_first_source_of_the_name_serves(name, head, k);
        assert(sources[sources.len() - 1] == sources.last());
        if forall|j: int|
            0 <= j < sources.len() ==> !same_ignoring_case((#[trigger] sources[j])@, name) {
            assert forall|j: int| 0 <= j < head.len() implies !same_ignoring_case(
                (#[trigger] head[j])@,
                name,
            ) by {
                assert(sources[j] == head[j]);
            }
        }
        if 0 <= k < sources.len() && same_ignoring_case(sources[k]@, name) && (forall|j: int|
            0 <= j < k ==> !same_ignoring_case((#[trigger] sources[j])@, name)) {
            assert forall|j: int| 0 <= j < k implies !same_ignoring_case(
                (#[trigger] head[j])@,
                name,
            ) by {
                assert(sources[j] == head[j]);
            }
            if k < head.len() {
                assert(head[k] == sources[k]);
            } else {
                law_first_source_of_the_name_serves(name, head, -1);
            }
        }
    }
}

/// A subscription is taken up by one of the two sets, never by both: by the one of
/// custom data if a source bears the name of its own, by the one of market data if
/// not.
pub proof fn law_every_subscription_has_its_set(
    config: SubscriptionDataConfig,
    sources: Seq<String>,
)
    ensures
        is_taken_up(config, sources, true) != is_taken_up(config, sources, false),
        config.custom is None ==> is_taken_up(config, sources, false),
        is_taken_up(config, sources, true) ==> (config.custom matches Some(custom)
            && exists|k: int|
            0 <= k < sources.len() && same_ignoring_case(
                (#[trigger] sources[k])@,
                custom.source_type@,
            )),
{
    if let Some(custom) = config.custom {
        law_first_source_of_the_name_serves(custom.source_type@, sources, -1);
    }
}

/// What is started is wanted, of the right kind and not yet there: each position that a
/// sync starts is that of such a subscription, and positions come in order.
pub proof fn law_only_new_subscriptions_are_started(
    ids: Seq<u64>,
    wanted: Seq<SubscriptionDataConfig>,
    sources: Seq<String>,
    custom: bool,
    k: int,
)
    requires
        0 <= k < with_wanted(ids, wanted, sources, custom).1.len(),
    ensures
        ({
            let started = with_wanted(ids, wanted, sources, custom).1;
            &&& 0 <= started[k] < wanted.len()
            &&& !ids.contains(wanted[started[k]].unique_id)
            &&& is_taken_up(wanted[started[k]], sources, custom)
            &&& k > 0 ==> started[k - 1] < started[k]
        }),
    decreases wanted.len(),
{
    let head = wanted.drop_last();
    let (held, before) = with_wanted(ids, head, sources, custom);
    law_sync_reaches_what_is_wanted(ids, head, sources, custom, wanted.last().unique_id);
    if k < before.len() {
        law_only_new_subscriptions_are_started(ids, head, sources, custom, k);
        assert(head[before[k]] == wanted[before[k]]);
    } else if k > 0 {
        law_only_new_subscriptions_are_started(ids, head, sources, custom, k - 1);
    }
}

/// A subscription that is held stays as long as it is wanted; one of custom data also
/// needs its source.
pub proof fn law_wanted_subscriptions_stay(
    id: u64,
    wanted: Seq<SubscriptionDataConfig>,
    sources: Seq<String>,
    k: int,
)
    ensures
        0 <= k < wanted.len() && wanted[k].unique_id == id ==> stays(id, wanted, sources, false),
        0 <= k < wanted.len() && wanted[k].unique_id == id && is_custom(wanted[k], sources) ==> stays(
            id,
            wanted,
            sources,
            true,
        ),
        (forall|j: int| 0 <= j < wanted.len() ==> (#[trigger] wanted[j]).unique_id != id) ==> !stays(
            id,
            wanted,
            sources,
            true,
        ) && !stays(id, wanted, sources, false),
{
}

/// A polled row is delivered once: if it passes the query and no row of its key was
/// delivered before. What was delivered stays delivered.
pub proof fn law_polled_rows_are_delivered_once(
    seen: Map<Seq<char>, bool>,
    points: Seq<PolledPoint>,
    polled: PolledPoint,
)
    ensures
        ({
            let (keys, out) = delivered(seen, points);
            let (after, all) = delivered(seen, points.push(polled));
            let new = polled.matches_query && !keys.dom().contains(polled.key@);
            &&& new ==> all == out.push(polled.point) && after.dom().contains(polled.key@)
            &&& !new ==> all == out && after == keys
            &&& delivered(after, seq![polled]).1.len() == 0
        }),
        delivered(seen, Seq::empty()).1.len() == 0,
        delivered(seen, Seq::empty()).0 == seen,
{
    assert(points.push(polled).drop_last() =~= points);
    let after = delivered(seen, points.push(polled)).0;
    assert(seq![polled].drop_last() =~= Seq::<PolledPoint>::empty());
    assert(delivered(after, seq![polled].drop_last()) == (after, Seq::<CustomDataPoint>::empty()));
}

/// The corporate actions of every security are resolved once, with its first
/// subscription.
pub proof fn law_one_subscription_per_security(
    configs: Seq<SubscriptionDataConfig>,
    k: int,
)
    requires
        0 <= k < configs.len(),
    ensures
        first_of_security(configs).0.contains(configs[k].symbol.sid),
        first_of_security(configs).1.contains(k) <==> forall|j: int|
            0 <= j < k ==> (#[trigger] configs[j]).symbol.sid != configs[k].symbol.sid,
        forall|i: int|
            0 <= i < first_of_security(configs).1.len() ==> 0 <= #[trigger] first_of_security(
                configs,
            ).1[i] < configs.len(),
        forall|s: u64|
            #[trigger] first_of_security(configs).0.contains(s) ==> exists|j: int|
                0 <= j < configs.len() && (#[trigger] configs[j]).symbol.sid == s,
    decreases configs.len(),
{
    let head = configs.drop_last();
    let (seen, out) = first_of_security(head);
    let (all_seen, all_out) = first_of_security(configs);
    let sid = configs.last().symbol.sid;
    assert(configs[configs.len() - 1] == configs.last());
    assert forall|j: int| 0 <= j < head.len() implies head[j] == configs[j] by {}
    if head.len() > 0 {
        law_one_subscription_per_security(head, if k < head.len() {
            k
        } else {
            0
        });
    }
    lemma_push_contains(seen, sid);
    assert forall|s: u64| #[trigger] all_seen.contains(s) implies exists|j: int|
        0 <= j < configs.len() && (#[trigger] configs[j]).symbol.sid == s by {
        if seen.contains(s) {
            let j = choose|j: int| 0 <= j < head.len() && (#[trigger] head[j]).symbol.sid == s;
            assert(configs[j].symbol.sid == s);
        } else {
            assert(configs[configs.len() - 1].symbol.sid == s);
        }
    }
    assert forall|i: int| 0 <= i < out.len() implies all_out[i] == out[i] by {}
    if k < head.len() {
        if out.contains(k) {
            let i = choose|i: int| 0 <= i < out.len() && out[i] == k;
            assert(all_out[i] == k);
            assert forall|j: int| 0 <= j < k implies (#[trigger] configs[j]).symbol.sid
                != configs[k].symbol.sid by {
                assert(head[j].symbol.sid != head[k].symbol.sid);
            }
        }
        if all_out.contains(k) {
            let i = choose|i: int| 0 <= i < all_out.len() && all_out[i] == k;
            assert(out[i] == k);
        }
        if forall|j: int|
            0 <= j < k ==> (#[trigger] configs[j]).symbol.sid != configs[k].symbol.sid {
            assert forall|j: int| 0 <= j < k implies (#[trigger] head[j]).symbol.sid
                != head[k].symbol.sid by {
                assert(configs[j].symbol.sid != configs[k].symbol.sid);
            }
        }
    } else {
        if seen.contains(sid) {
            let j = choose|j: int| 0 <= j < head.len() && (#[trigger] head[j]).symbol.sid == sid;
            assert(configs[j].symbol.sid == sid);
            if all_out.contains(k) {
                let i = choose|i: int| 0 <= i < all_out.len() && all_out[i] == k;
                assert(out[i] < head.len());
            }
        } else {
            assert(all_out[all_out.len() - 1] == k);
            assert forall|j: int| 0 <= j < k implies (#[trigger] configs[j]).symbol.sid
                != configs[k].symbol.sid by {
                if configs[j].symbol.sid == sid {
                    law_one_subscription_per_security(head, j);
                }
            }
        }
    }
}

/// An item is looked for on the custom channel first, then on every market channel in
/// turn; only when none has one, a channel is waited for, and after a wait in vain
/// custom data get another look.
pub proof fn law_channels_are_looked_at_in_turn(miss: ReceiveMiss, markets: int, i: usize)
    requires
        0 <= i < markets <= usize::MAX,
    ensures
        look_after(ReceiveStep::TryCustom, miss, markets) == ReceiveStep::TryMarket(0),
        look_after(ReceiveStep::TryCustom, miss, 0) == ReceiveStep::WaitCustom,
        i + 1 < markets ==> look_after(ReceiveStep::TryMarket(i), miss, markets)
            == ReceiveStep::TryMarket((i + 1) as usize),
        i + 1 == markets ==> look_after(ReceiveStep::TryMarket(i), miss, markets)
            == ReceiveStep::WaitMarket(0),
        look_after(ReceiveStep::WaitMarket(i), ReceiveMiss::Timeout, markets)
            == ReceiveStep::RetryCustom,
        i + 1 < markets ==> look_after(
            ReceiveStep::WaitMarket(i),
            ReceiveMiss::Disconnected,
            markets,
        ) == ReceiveStep::WaitMarket((i + 1) as usize),
        look_after(ReceiveStep::RetryCustom, miss, markets) == ReceiveStep::Nothing,
{
}

/// Whether a nap is the next of a poller.
pub open spec fn is_nap(
    stopped: bool,
    elapsed: Duration,
    delay: Duration,
    nap: Option<Duration>,
) -> bool {
    match nap {
        None => stopped || elapsed.nanos >= delay.nanos,
        Some(nap) => !stopped && elapsed.nanos < delay.nanos && nap.nanos == (if delay.nanos
            - elapsed.nanos < 1_000_000_000 {
            delay.nanos - elapsed.nanos
        } else {
            1_000_000_000
        }),
    }
}

/// A poller sleeps until its delay is over and not longer, never more than a second at a
/// time, and not at all once it is to stop.
pub proof fn law_naps_end_with_the_delay(
    stopped: bool,
    elapsed: Duration,
    delay: Duration,
    nap: Option<Duration>,
)
    requires
        is_nap(stopped, elapsed, delay, nap),
    ensures
        stopped ==> nap is None,
        !stopped ==> (nap is None <==> elapsed.nanos >= delay.nanos),
        nap matches Some(nap) ==> {
            &&& 0 < nap.nanos <= 1_000_000_000
            &&& elapsed.nanos + nap.nanos <= delay.nanos
            &&& nap.nanos < 1_000_000_000 ==> elapsed.nanos + nap.nanos == delay.nanos
        },
{
}

} // verus!
