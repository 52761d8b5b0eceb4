//! The node's parameter state, and how it is diffed into events and patched
//! back from them.
//!
//! A parameter is a CLAP parameter ID (`u32`) mapped to a value; the value is
//! kept as the `u64` bit pattern of the `f64` that the plugin receives.
use std::collections::HashMap;
use vstd::prelude::*;

use crate::float_bits::{f64_bits_eq, f64_bits_equal};

verus! {

broadcast use vstd::std_specs::hash::group_hash_axioms;

/// The data of a parameter event, as far as this node reads it: an `f64`
/// (by its bit pattern) or anything else.
#[derive(Debug, Clone, Copy, PartialEq, Eq, Structural)]
pub enum ParamData {
    F64(u64),
    Other,
}

/// Why parameter data could not be turned into a patch.
#[derive(Debug, Clone, Copy, PartialEq, Eq, Structural)]
pub enum PatchError {
    /// The path does not lead to a parameter.
    InvalidPath,
    /// The data is not of the type the parameter holds.
    InvalidData,
}

/// One parameter event produced by diffing: the full parameter path and the
/// value's bit pattern.
#[derive(Debug, Clone, PartialEq)]
pub struct ParamEvent {
    pub path: Vec<u32>,
    pub value: u64,
}

/// The CLAP parameters of a node: parameter ID to value bit pattern.
#[derive(Debug, Clone, PartialEq)]
pub struct ClapPluginParams {
    pub mapping: HashMap<u32, u64>,
}

/// The patch of a whole node: the only field is the parameter map.
#[derive(Debug, Clone, Copy, PartialEq)]
pub enum ClapPluginNodePatch {
    Params((u32, u64)),
}

/// A node that hosts a CLAP plugin, seen through its parameters.
#[derive(Debug, Clone, PartialEq)]
pub struct ClapPluginNode {
    pub params: ClapPluginParams,
}

/// What patching the parameter map with `data` at `path` gives: an `f64`
/// addressed to the last element of the path.
pub open spec fn params_patch_result(data: ParamData, path: Seq<u32>) -> Result<
    (u32, u64),
    PatchError,
> {
    match data {
        ParamData::F64(value) => if path.len() == 0 {
            Err(PatchError::InvalidPath)
        } else {
            Ok((path.last(), value))
        },
        ParamData::Other => Err(PatchError::InvalidData),
    }
}

/// What patching the node with `data` at `path` gives: the path must start at
/// field 0 (the parameters); the rest of it goes to the parameter map.
pub open spec fn node_patch_result(data: ParamData, path: Seq<u32>) -> Result<
    ClapPluginNodePatch,
    PatchError,
> {
    if path.len() > 0 && path[0] == 0 {
        match params_patch_result(data, path.drop_first()) {
            Ok(p) => Ok(ClapPluginNodePatch::Params(p)),
            Err(e) => Err(e),
        }
    } else {
        Err(PatchError::InvalidPath)
    }
}

/// Whether diffing reports parameter `id` with value `value` against
/// `baseline`: it is new there, or its value differs as `f64`s do.
pub open spec fn differs_from(baseline: Map<u32, u64>, id: u32, value: u64) -> bool {
    !baseline.contains_key(id) || !f64_bits_eq(value, baseline[id])
}

/// `events` is a diff of `current` against `baseline` under `prefix`: one
/// event per parameter of `current` that differs from `baseline`, with path
/// `prefix` followed by the ID and the current value, and nothing else.
pub open spec fn is_param_diff(
    events: Seq<ParamEvent>,
    current: Map<u32, u64>,
    baseline: Map<u32, u64>,
    prefix: Seq<u32>,
) -> bool {
    &&& forall|i: int|
        #![trigger events[i]]
        0 <= i < events.len() ==> {
            let id = events[i].path@.last();
            &&& events[i].path@ == prefix.push(id)
            &&& current.contains_key(id)
            &&& events[i].value == current[id]
            &&& differs_from(baseline, id, current[id])
        }
    &&& forall|id: u32|
        #![trigger current.contains_key(id)]
        current.contains_key(id) && differs_from(baseline, id, current[id]) ==> exists|i: int|
            0 <= i < events.len() && #[trigger] events[i].path@ == prefix.push(id)
    &&& forall|i: int, j: int|
        0 <= i < j < events.len() ==> #[trigger] events[i].path@ != #[trigger] events[j].path@
}

/// The path under which a diff of the parameters is taken: field 0 of the
/// node (`in_node`), or the empty path of the map itself.
pub open spec fn level_prefix(in_node: bool) -> Seq<u32> {
    if in_node {
        seq![0u32]
    } else {
        Seq::empty()
    }
}

/// What feeding `event` back through `patch` and `apply` sets, if its patch
/// succeeds: through the node's (`in_node`), or through the map's alone.
pub open spec fn event_setting(in_node: bool, event: ParamEvent) -> Option<(u32, u64)> {
    let data = ParamData::F64(event.value);
    if in_node {
        match node_patch_result(data, event.path@) {
            Ok(ClapPluginNodePatch::Params(p)) => Some(p),
            Err(_) => None,
        }
    } else {
        match params_patch_result(data, event.path@) {
            Ok(p) => Some(p),
            Err(_) => None,
        }
    }
}

/// The parameter map after each event, in order, has been patched and
/// applied, into the node (`in_node`) or into the map alone; events whose
/// patch fails change nothing.
pub open spec fn apply_param_events(start: Map<u32, u64>, events: Seq<ParamEvent>, in_node: bool) -> Map<
    u32,
    u64,
>
    decreases events.len(),
{
    if events.len() == 0 {
        start
    } else {
        let before = apply_param_events(start, events.drop_last(), in_node);
        match event_setting(in_node, events.last()) {
            Some((id, value)) => before.insert(id, value),
            None => before,
        }
    }
}

/// The parameter IDs that the events address (the last element of each path).
pub open spec fn event_ids(events: Seq<ParamEvent>) -> Set<u32> {
    Set::new(|id: u32| exists|i: int| 0 <= i < events.len() && events[i].path@.last() == id)
}

/// Applying events under the level's prefix that carry the current value of
/// their parameter overwrites exactly the addressed parameters with their
/// current values.
proof fn lemma_apply_current_values(
    start: Map<u32, u64>,
    current: Map<u32, u64>,
    events: Seq<ParamEvent>,
    in_node: bool,
)
    requires
        forall|i: int|
            #![trigger events[i]]
            0 <= i < events.len() ==> {
                let id = events[i].path@.last();
                &&& events[i].path@ == level_prefix(in_node).push(id)
                &&& current.contains_key(id)
                &&& events[i].value == current[id]
            },
    ensures
        apply_param_events(start, events, in_node) == start.union_prefer_right(
            current.restrict(event_ids(events)),
        ),
    decreases events.len(),
{
    if events.len() == 0 {
        assert(event_ids(events) =~= Set::empty());
        assert(start.union_prefer_right(current.restrict(event_ids(events))) =~= start);
    } else {
        let prefix = events.drop_last();
        let last = events.last();
        let id = last.path@.last();
        assert(events[events.len() - 1] == last);
        assert forall|i: int| 0 <= i < prefix.len() implies #[trigger] prefix[i] == events[i] by {}
        lemma_apply_current_values(start, current, prefix, in_node);
        let path = last.path@;
        if in_node {
            assert(path.drop_first() =~= seq![id]);
        } else {
            assert(path =~= seq![id]);
        }
        assert(event_setting(in_node, last) == Some((id, current[id])));
        assert(event_ids(events) =~= event_ids(prefix).insert(id)) by {
            assert forall|k: u32| event_ids(events).contains(k) implies event_ids(
                prefix,
            ).insert(id).contains(k) by {
                let i = choose|i: int| 0 <= i < events.len() && events[i].path@.last() == k;
                if i < prefix.len() {
                    assert(prefix[i] == events[i]);
                }
            }
            assert forall|k: u32| event_ids(prefix).insert(id).contains(k) implies event_ids(
                events,
            ).contains(k) by {
                if k != id {
                    let i = choose|i: int| 0 <= i < prefix.len() && prefix[i].path@.last() == k;
                    assert(prefix[i] == events[i]);
                } else {
                    assert(events[events.len() - 1].path@.last() == k);
                }
            }
        }
        assert(apply_param_events(start, events, in_node) =~= start.union_prefer_right(
            current.restrict(event_ids(events)),
        ));
    }
}

/// What feeding a diff back restores: every parameter of `current` ends with
/// its current value, or keeps a baseline value that equals it as an `f64`;
/// parameters that only the baseline has keep their values.
pub open spec fn restores(
    patched: Map<u32, u64>,
    current: Map<u32, u64>,
    baseline: Map<u32, u64>,
) -> bool {
    &&& patched.dom() == current.dom().union(baseline.dom())
    &&& forall|id: u32|
        #![trigger patched[id]]
        current.contains_key(id) ==> patched[id] == current[id] || (patched[id] == baseline[id]
            && baseline.contains_key(id) && f64_bits_eq(baseline[id], current[id]))
    &&& forall|id: u32|
        #![trigger patched[id]]
        baseline.contains_key(id) && !current.contains_key(id) ==> patched[id] == baseline[id]
}

/// Diff, then patch, at either level: the diff's events fed back in order
/// onto the baseline restore `current`.
proof fn lemma_diff_then_patch_at(
    current: Map<u32, u64>,
    baseline: Map<u32, u64>,
    events: Seq<ParamEvent>,
    in_node: bool,
)
    requires
        is_param_diff(events, current, baseline, level_prefix(in_node)),
    ensures
        restores(apply_param_events(baseline, events, in_node), current, baseline),
{
    let prefix = level_prefix(in_node);
    lemma_apply_current_values(baseline, current, events, in_node);
    let patched = apply_param_events(baseline, events, in_node);
    assert forall|id: u32| event_ids(events).contains(id) implies current.contains_key(id) by {
        let i = choose|i: int| 0 <= i < events.len() && events[i].path@.last() == id;
        assert(events[i] == events[i]);
    }
    assert(patched.dom() =~= current.dom().union(baseline.dom())) by {
        assert forall|id: u32| current.contains_key(id) && !baseline.contains_key(id)
            implies event_ids(events).contains(id) by {
            assert(differs_from(baseline, id, current[id]));
            let i = choose|i: int|
                0 <= i < events.len() && #[trigger] events[i].path@ == prefix.push(id);
            assert(events[i].path@.last() == id);
        }
    }
    assert forall|id: u32| #![trigger patched[id]] current.contains_key(id) implies patched[id]
        == current[id] || (patched[id] == baseline[id] && baseline.contains_key(id)
        && f64_bits_eq(baseline[id], current[id])) by {
        if event_ids(events).contains(id) {
        } else {
            if differs_from(baseline, id, current[id]) {
                let i = choose|i: int|
                    0 <= i < events.len() && #[trigger] events[i].path@ == prefix.push(id);
                assert(events[i].path@.last() == id);
            }
            assert(baseline.contains_key(id));
            assert(f64_bits_eq(current[id], baseline[id]));
        }
    }
}

/// Diff, then patch: when the events of a node diff (taken under the empty
/// path) are fed back, in the order they came, through the node's `patch`
/// and `apply` onto the baseline's parameters, every parameter of the current
/// node ends with its current value, or keeps a baseline value that equals it
/// as an `f64`; parameters that only the baseline has keep their values, as
/// the diff reports no removal.
pub proof fn lemma_diff_then_patch_restores(
    current: Map<u32, u64>,
    baseline: Map<u32, u64>,
    events: Seq<ParamEvent>,
)
    requires
        is_param_diff(events, current, baseline, Seq::<u32>::empty().push(0)),
    ensures
        restores(apply_param_events(baseline, events, true), current, baseline),
{
    assert(Seq::<u32>::empty().push(0) =~= level_prefix(true));
    lemma_diff_then_patch_at(current, baseline, events, true);
}

/// Diff, then patch, for the parameter map alone: when the events of a map
/// diff taken under the empty path are fed back, in the order they came,
/// through the map's `patch` and `apply` onto the baseline, every parameter
/// of the current map ends with its current value, or keeps a baseline value
/// that equals it as an `f64`; parameters that only the baseline has keep
/// their values.
pub proof fn lemma_map_diff_then_patch_restores(
    current: Map<u32, u64>,
    baseline: Map<u32, u64>,
    events: Seq<ParamEvent>,
)
    requires
        is_param_diff(events, current, baseline, Seq::<u32>::empty()),
    ensures
        restores(apply_param_events(baseline, events, false), current, baseline),
{
    assert(Seq::<u32>::empty() =~= level_prefix(false));
    lemma_diff_then_patch_at(current, baseline, events, false);
}

/// Every event of a map diff taken under the empty path has a path of one
/// element, the parameter's ID, and patches cleanly into the map as the
/// setting of that parameter to its current value.
pub proof fn lemma_map_diff_events_patch(
    current: Map<u32, u64>,
    baseline: Map<u32, u64>,
    events: Seq<ParamEvent>,
)
    requires
        is_param_diff(events, current, baseline, Seq::<u32>::empty()),
    ensures
        forall|i: int|
            #![trigger events[i]]
            0 <= i < events.len() ==> {
                let path = events[i].path@;
                &&& path.len() == 1
                &&& params_patch_result(ParamData::F64(events[i].value), path) == Ok::<
                    (u32, u64),
                    PatchError,
                >((path[0], current[path[0]]))
            },
{
    assert forall|i: int| #![trigger events[i]] 0 <= i < events.len() implies {
        let path = events[i].path@;
        &&& path.len() == 1
        &&& params_patch_result(ParamData::F64(events[i].value), path) == Ok::<
            (u32, u64),
            PatchError,
        >((path[0], current[path[0]]))
    } by {
        let id = events[i].path@.last();
        assert(events[i].path@ =~= seq![id]);
    }
}

/// Every event of a node diff taken under the empty path patches cleanly
/// into the node, as the setting of its parameter to the current value.
pub proof fn lemma_diff_events_patch(
    current: Map<u32, u64>,
    baseline: Map<u32, u64>,
    events: Seq<ParamEvent>,
)
    requires
        is_param_diff(events, current, baseline, Seq::<u32>::empty().push(0)),
    ensures
        forall|i: int|
            #![trigger events[i]]
            0 <= i < events.len() ==> {
                let id = events[i].path@.last();
                node_patch_result(ParamData::F64(events[i].value), events[i].path@) == Ok::<
                    ClapPluginNodePatch,
                    PatchError,
                >(ClapPluginNodePatch::Params((id, current[id])))
            },
{
    assert forall|i: int| #![trigger events[i]] 0 <= i < events.len() implies {
        let id = events[i].path@.last();
        node_patch_result(ParamData::F64(events[i].value), events[i].path@) == Ok::<
            ClapPluginNodePatch,
            PatchError,
        >(ClapPluginNodePatch::Params((id, current[id])))
    } by {
        let id = events[i].path@.last();
        assert(events[i].path@.drop_first() =~= seq![id]);
    }
}

/// A node diffed against itself reports exactly its parameters that hold a
/// NaN, as a NaN equals no value; a node without NaNs reports nothing.
pub proof fn lemma_diff_against_itself(
    params: Map<u32, u64>,
    prefix: Seq<u32>,
    events: Seq<ParamEvent>,
)
    requires
        is_param_diff(events, params, params, prefix),
    ensures
        forall|i: int|
            #![trigger events[i]]
            0 <= i < events.len() ==> crate::float_bits::is_nan_bits(events[i].value),
        forall|id: u32|
            #![trigger params[id]]
            params.contains_key(id) && crate::float_bits::is_nan_bits(params[id]) ==> exists|
                i: int,
            | 0 <= i < events.len() && #[trigger] events[i].path@ == prefix.push(id),
        (forall|id: u32|
            #![trigger params[id]]
            params.contains_key(id) ==> !crate::float_bits::is_nan_bits(params[id])) ==> events.len()
            == 0,
{
    if events.len() > 0 {
        let id = events[0].path@.last();
        assert(crate::float_bits::is_nan_bits(params[id]));
    }
    assert forall|id: u32|
        #![trigger params[id]]
        params.contains_key(id) && crate::float_bits::is_nan_bits(params[id]) implies exists|i: int|
        0 <= i < events.len() && #[trigger] events[i].path@ == prefix.push(id) by {
        assert(params.contains_key(id));
    }
}

impl ClapPluginParams {
    /// An empty parameter map.
    pub fn new() -> (r: Self)
        ensures
            r.mapping@ == Map::<u32, u64>::empty(),
    {
        ClapPluginParams { mapping: HashMap::new() }
    }

    /// Turns parameter data at `path` (relative to the map) into a patch: the
    /// data must be an `f64`, and the last element of the path is the ID.
    pub fn patch(data: &ParamData, path: &[u32]) -> (r: Result<(u32, u64), PatchError>)
        ensures
            r == params_patch_result(*data, path@),
    {
        match data {
            ParamData::F64(value) => {
                if path.len() == 0 {
                    Err(PatchError::InvalidPath)
                } else {
                    Ok((path[path.len() - 1], *value))
                }
            },
            ParamData::Other => Err(PatchError::InvalidData),
        }
    }

    /// Sets the parameter of the patch to its value.
    pub fn apply(&mut self, patch: (u32, u64))
        ensures
            final(self).mapping@ == old(self).mapping@.insert(patch.0, patch.1),
    {
        self.mapping.insert(patch.0, patch.1);
    }

    /// The events that bring `baseline` to `self`: one per parameter that is
    /// new or whose value differs as an `f64`, at path `path` followed by the
    /// parameter ID. Parameters missing from `self` give no event. The order
    /// is that in which the map is walked.
    pub fn diff(&self, baseline: &Self, path: &Vec<u32>) -> (events: Vec<ParamEvent>)
        ensures
            is_param_diff(events@, self.mapping@, baseline.mapping@, path@),
    {
        let mut events: Vec<ParamEvent> = Vec::new();
        let ghost current = self.mapping@;
        let ghost base = baseline.mapping@;
        for (id, value) in it: self.mapping.iter()
            invariant
                current == self.mapping@,
                base == baseline.mapping@,
                it.seq().no_duplicates(),
                forall|i: int|
                    0 <= i < it.seq().len() ==> current.contains_key(*it.seq()[i].0)
                        && current[*it.seq()[i].0] == *it.seq()[i].1,
                forall|id: u32|
                    #![trigger current.contains_key(id)]
                    current.contains_key(id) ==> exists|i: int|
                        0 <= i < it.seq().len() && *it.seq()[i].0 == id,
                // every event so far comes from an entry already walked
                forall|i: int|
                    #![trigger events@[i]]
                    0 <= i < events@.len() ==> {
                        let id = events@[i].path@.last();
                        &&& events@[i].path@ == path@.push(id)
                        &&& current.contains_key(id)
                        &&& events@[i].value == current[id]
                        &&& differs_from(base, id, current[id])
                        &&& exists|j: int| 0 <= j < it.index() && *it.seq()[j].0 == id
                    },
                // every differing entry already walked has an event
                forall|j: int|
                    0 <= j < it.index() && differs_from(base, *it.seq()[j].0, *it.seq()[j].1)
                        ==> exists|i: int|
                        0 <= i < events@.len() && #[trigger] events@[i].path@ == path@.push(
                            *it.seq()[j].0,
                        ),
                forall|i: int, j: int|
                    0 <= i < j < events@.len() ==> #[trigger] events@[i].path@
                        != #[trigger] events@[j].path@,
        {
            let ghost n = it.index() as int;
            proof {
                // the entry walked now has a key that no earlier entry had
                assert forall|j: int| 0 <= j < n implies *it.seq()[j].0 != *id by {
                    if *it.seq()[j].0 == *id {
                        assert(it.seq()[j] == it.seq()[n]);
                    }
                }
            }
            let emit = match baseline.mapping.get(id) {
                Some(old_value) => !f64_bits_equal(*value, *old_value),
                None => true,
            };
            let ghost before_step = events@;
            if emit {
                let mut event_path = path.clone();
                event_path.push(*id);
                let ghost before = events@;
                events.push(ParamEvent { path: event_path, value: *value });
                proof {
                    assert(events@[before.len() as int].path@ == path@.push(*id));
                    assert(events@[before.len() as int].path@.last() == *id);
                    assert forall|i: int| 0 <= i < before.len() implies events@[i].path@
                        != path@.push(*id) by {
                        let k = events@[i].path@.last();
                        assert(events@[i] == before[i]);
                        let j = choose|j: int| 0 <= j < n && *it.seq()[j].0 == k;
                        if events@[i].path@ == path@.push(*id) {
                            assert(path@.push(k).last() == k);
                            assert(path@.push(*id).last() == *id);
                        }
                    }
                }
            }
            proof {
                assert(emit == differs_from(base, *id, *value));
                assert forall|j: int|
                    0 <= j < n + 1 && differs_from(base, *it.seq()[j].0, *it.seq()[j].1)
                    implies exists|i: int|
                    0 <= i < events@.len() && #[trigger] events@[i].path@ == path@.push(
                        *it.seq()[j].0,
                    ) by {
                    if j < n {
                        let i = choose|i: int|
                            0 <= i < before_step.len() && #[trigger] before_step[i].path@
                                == path@.push(*it.seq()[j].0);
                        assert(events@[i] == before_step[i]);
                    } else {
                        assert(events@[before_step.len() as int].path@ == path@.push(*id));
                    }
                }
            }
        }
        events
    }
}

impl ClapPluginNode {
    /// Turns parameter data at `path` into a node patch: field 0 is the
    /// parameter map, which takes the rest of the path.
    pub fn patch(data: &ParamData, path: &[u32]) -> (r: Result<ClapPluginNodePatch, PatchError>)
        ensures
            r == node_patch_result(*data, path@),
    {
        if path.len() > 0 && path[0] == 0 {
            let rest = &path[1..path.len()];
            assert(rest@ == path@.drop_first());
            match ClapPluginParams::patch(data, rest) {
                Ok(p) => Ok(ClapPluginNodePatch::Params(p)),
                Err(e) => Err(e),
            }
        } else {
            Err(PatchError::InvalidPath)
        }
    }

    /// Applies a node patch to the field it names.
    pub fn apply(&mut self, patch: ClapPluginNodePatch)
        ensures
            match patch {
                ClapPluginNodePatch::Params(p) => final(self).params.mapping@ == old(
                    self,
                ).params.mapping@.insert(p.0, p.1),
            },
    {
        match patch {
            ClapPluginNodePatch::Params(p) => self.params.apply(p),
        }
    }

    /// The events that bring `baseline` to `self`: those of the parameter
    /// map, under `path` followed by field index 0.
    pub fn diff(&self, baseline: &Self, path: &Vec<u32>) -> (events: Vec<ParamEvent>)
        ensures
            is_param_diff(events@, self.params.mapping@, baseline.params.mapping@, path@.push(0)),
    {
        let mut field_path = path.clone();
        field_path.push(0);
        self.params.diff(&baseline.params, &field_path)
    }
}

impl Default for ClapPluginNode {
    /// A node with no parameters set.
    fn default() -> (r: Self)
        ensures
            r.params.mapping@ == Map::<u32, u64>::empty(),
    {
        ClapPluginNode { params: ClapPluginParams::new() }
    }
}

} // verus!
