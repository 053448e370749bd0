//! Services of the engine that an algorithm sees.

use crate::name_map::NameMap;
use crate::slice::{find_row, row_of, Slice};
use crate::time::DateTime;
use vstd::prelude::*;
use vstd::string::*;

verus! {

/// Indicators registered for one security, by their ids.
pub struct RegisteredIndicators {
    pub sid: u64,
    pub indicators: Vec<u64>,
}

/// State shared between the engine and the services of an algorithm.
pub struct AlgorithmRuntimeContext {
    pub runtime_parameters: NameMap<String>,
    pub registered_indicators: Vec<RegisteredIndicators>,
}

/// The indicators that a slice updates, in order of registration: those of
/// securities that have a trade bar in it.
pub open spec fn updated_indicators(registry: Seq<RegisteredIndicators>, slice: Slice) -> Seq<
    (u64, u64),
>
    decreases registry.len(),
{
    if registry.len() == 0 {
        Seq::empty()
    } else {
        let head = updated_indicators(registry.drop_last(), slice);
        let entry = registry.last();
        if row_of(slice.bars@, entry.sid) is Some {
            head + entry.indicators@.map_values(|id: u64| (id, entry.sid))
        } else {
            head
        }
    }
}

impl AlgorithmRuntimeContext {
    pub open spec fn wf(&self) -> bool {
        self.runtime_parameters.wf()
    }

    pub fn new(runtime_parameters: NameMap<String>) -> (res: AlgorithmRuntimeContext)
        ensures
            res.runtime_parameters == runtime_parameters,
            res.registered_indicators@.len() == 0,
    {
        AlgorithmRuntimeContext { runtime_parameters, registered_indicators: Vec::new() }
    }

    pub fn runtime_parameters(&self) -> (res: &NameMap<String>)
        ensures
            *res == self.runtime_parameters,
    {
        &self.runtime_parameters
    }

    pub fn registered_indicators(&self) -> (res: &Vec<RegisteredIndicators>)
        ensures
            *res == self.registered_indicators,
    {
        &self.registered_indicators
    }

    /// The indicators to update with a slice, each with the security whose bar
    /// updates it.
    pub fn update_registered_indicators(&self, slice: &Slice) -> (res: Vec<(u64, u64)>)
        ensures
            res@ == updated_indicators(self.registered_indicators@, *slice),
    {
        let mut out: Vec<(u64, u64)> = Vec::new();
        let mut i: usize = 0;
        let ghost registry = self.registered_indicators@;
        assert(registry.take(0) =~= Seq::<RegisteredIndicators>::empty());
        while i < self.registered_indicators.len()
            invariant
                i <= registry.len(),
                registry == self.registered_indicators@,
                out@ == updated_indicators(registry.take(i as int), *slice),
            decreases self.registered_indicators.len() - i,
        {
            let entry = &self.registered_indicators[i];
            proof {
                assert(registry.take(i + 1).drop_last() =~= registry.take(i as int));
                assert(registry.take(i + 1).last() == registry[i as int]);
            }
            if find_row(&slice.bars, entry.sid).is_some() {
                let ghost before = out@;
                let ghost f = |id: u64| (id, entry.sid);
                let mut k: usize = 0;
                assert(out@ =~= before + entry.indicators@.take(0).map_values(f));
                while k < entry.indicators.len()
                    invariant
                        k <= entry.indicators@.len(),
                        f == |id: u64| (id, entry.sid),
                        out@ =~= before + entry.indicators@.take(k as int).map_values(f),
                    decreases entry.indicators.len() - k,
                {
                    let ghost mid = out@;
                    out.push((entry.indicators[k], entry.sid));
                    assert(entry.indicators@.take(k + 1).map_values(f)
                        =~= entry.indicators@.take(k as int).map_values(f).push(
                        (entry.indicators@[k as int], entry.sid),
                    ));
                    k = k + 1;
                }
                assert(entry.indicators@.take(k as int) =~= entry.indicators@);
            }
            i = i + 1;
        }
        assert(registry.take(i as int) =~= registry);
        out
    }
}

/// Services that an algorithm calls.
pub struct EngineAlgorithmServices {
    pub time: DateTime,
    pub context: AlgorithmRuntimeContext,
}

impl EngineAlgorithmServices {
    pub open spec fn wf(&self) -> bool {
        self.context.wf()
    }

    pub fn new(time: DateTime, context: AlgorithmRuntimeContext) -> (res: EngineAlgorithmServices)
        ensures
            res.time == time,
            res.context == context,
    {
        EngineAlgorithmServices { time, context }
    }

    pub fn context(&self) -> (res: &AlgorithmRuntimeContext)
        ensures
            *res == self.context,
    {
        &self.context
    }

    pub fn set_time(&mut self, time: DateTime)
        ensures
            final(self).time == time,
            final(self).context == old(self).context,
    {
        self.time = time;
    }

    pub fn time(&self) -> (res: DateTime)
        ensures
            res == self.time,
    {
        self.time
    }

    /// Sets a parameter, replacing an earlier value.
    pub fn set_runtime_parameter(&mut self, key: &str, value: String)
        requires
            old(self).wf(),
        ensures
            final(self).wf(),
            final(self).time == old(self).time,
            final(self).context.registered_indicators == old(self).context.registered_indicators,
            final(self).context.runtime_parameters@ == old(self).context.runtime_parameters@.insert(key@, value),
    {
        self.context.runtime_parameters.insert(key.to_owned(), value);
    }

    /// The value of a parameter.
    pub fn runtime_parameter(&self, key: &str) -> (res: Option<&String>)
        requires
            self.wf(),
        ensures
            res == (if self.context.runtime_parameters@.dom().contains(key@) {
                Some(&self.context.runtime_parameters@[key@])
            } else {
                None
            }),
    {
        self.context.runtime_parameters.get(key)
    }
}

/// A slice updates the indicators of the securities that have a trade bar in it, all of
/// them and no others, in the order in which they were registered.
pub proof fn law_bars_update_their_indicators(
    registry: Seq<RegisteredIndicators>,
    entry: RegisteredIndicators,
    slice: Slice,
    k: int,
)
    ensures
        updated_indicators(Seq::empty(), slice).len() == 0,
        row_of(slice.bars@, entry.sid) is None ==> updated_indicators(registry.push(entry), slice)
            == updated_indicators(registry, slice),
        row_of(slice.bars@, entry.sid) is Some ==> {
            let before = updated_indicators(registry, slice);
            let after = updated_indicators(registry.push(entry), slice);
            &&& after.len() == before.len() + entry.indicators@.len()
            &&& after.take(before.len() as int) == before
            &&& 0 <= k < entry.indicators@.len() ==> after[before.len() + k]
                == (entry.indicators@[k], entry.sid)
        },
{
    assert(registry.push(entry).drop_last() =~= registry);
    let before = updated_indicators(registry, slice);
    let after = updated_indicators(registry.push(entry), slice);
    assert(after.take(before.len() as int) =~= before);
}

} // verus!
