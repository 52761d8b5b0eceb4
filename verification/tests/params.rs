use firewheel_clap_node::params::{
    ClapPluginNode, ClapPluginNodePatch, ClapPluginParams, ParamData, ParamEvent, PatchError,
};

fn node_with(entries: &[(u32, f64)]) -> ClapPluginNode {
    let mut node = ClapPluginNode::default();
    for (id, value) in entries {
        node.params.mapping.insert(*id, value.to_bits());
    }
    node
}

fn sorted(mut events: Vec<ParamEvent>) -> Vec<ParamEvent> {
    events.sort_by(|a, b| a.path.cmp(&b.path));
    events
}

fn replay(baseline: &ClapPluginNode, events: &[ParamEvent]) -> ClapPluginNode {
    let mut node = baseline.clone();
    for event in events {
        let patch = ClapPluginNode::patch(&ParamData::F64(event.value), &event.path).unwrap();
        node.apply(patch);
    }
    node
}

#[test]
fn params_patch_takes_the_last_path_element() {
    let v = 0.25f64.to_bits();
    assert_eq!(ClapPluginParams::patch(&ParamData::F64(v), &[7]), Ok((7, v)));
    assert_eq!(ClapPluginParams::patch(&ParamData::F64(v), &[3, 9]), Ok((9, v)));
}

#[test]
fn params_patch_errors() {
    let v = 0.25f64.to_bits();
    assert_eq!(ClapPluginParams::patch(&ParamData::F64(v), &[]), Err(PatchError::InvalidPath));
    assert_eq!(ClapPluginParams::patch(&ParamData::Other, &[1]), Err(PatchError::InvalidData));
    assert_eq!(ClapPluginParams::patch(&ParamData::Other, &[]), Err(PatchError::InvalidData));
}

#[test]
fn node_patch_goes_through_field_zero() {
    let v = 1.0f64.to_bits();
    assert_eq!(
        ClapPluginNode::patch(&ParamData::F64(v), &[0, 42]),
        Ok(ClapPluginNodePatch::Params((42, v)))
    );
    assert_eq!(ClapPluginNode::patch(&ParamData::F64(v), &[1, 42]), Err(PatchError::InvalidPath));
    assert_eq!(ClapPluginNode::patch(&ParamData::F64(v), &[]), Err(PatchError::InvalidPath));
    assert_eq!(ClapPluginNode::patch(&ParamData::F64(v), &[0]), Err(PatchError::InvalidPath));
    assert_eq!(ClapPluginNode::patch(&ParamData::Other, &[0]), Err(PatchError::InvalidData));
    assert_eq!(ClapPluginNode::patch(&ParamData::Other, &[2]), Err(PatchError::InvalidPath));
}

#[test]
fn apply_sets_the_parameter() {
    let mut node = ClapPluginNode::default();
    node.apply(ClapPluginNodePatch::Params((5, 2.0f64.to_bits())));
    node.apply(ClapPluginNodePatch::Params((5, 3.0f64.to_bits())));
    assert_eq!(node.params.mapping.len(), 1);
    assert_eq!(node.params.mapping[&5], 3.0f64.to_bits());
}

#[test]
fn default_node_has_no_parameters() {
    assert!(ClapPluginNode::default().params.mapping.is_empty());
    assert!(ClapPluginParams::new().mapping.is_empty());
}

#[test]
fn diff_reports_new_parameters() {
    let node = node_with(&[(95467907, 0.007), (773352680, 0.0)]);
    let events = sorted(node.diff(&ClapPluginNode::default(), &vec![]));
    assert_eq!(
        events,
        vec![
            ParamEvent { path: vec![0, 95467907], value: 0.007f64.to_bits() },
            ParamEvent { path: vec![0, 773352680], value: 0.0f64.to_bits() },
        ]
    );
}

#[test]
fn diff_reports_only_changed_parameters() {
    let baseline = node_with(&[(1, 1.0), (2, 2.0), (3, 3.0)]);
    let node = node_with(&[(1, 1.0), (2, 2.5), (3, 3.0), (4, 4.0)]);
    let events = sorted(node.diff(&baseline, &vec![9]));
    assert_eq!(
        events,
        vec![
            ParamEvent { path: vec![9, 0, 2], value: 2.5f64.to_bits() },
            ParamEvent { path: vec![9, 0, 4], value: 4.0f64.to_bits() },
        ]
    );
}

#[test]
fn diff_ignores_sign_of_zero_and_repeats_nan() {
    let baseline = node_with(&[(1, 0.0), (2, f64::NAN)]);
    let node = node_with(&[(1, -0.0), (2, f64::NAN)]);
    let events = node.diff(&baseline, &vec![]);
    assert_eq!(events.len(), 1);
    assert_eq!(events[0].path, vec![0, 2]);
    assert!(f64::from_bits(events[0].value).is_nan());
}

#[test]
fn diff_does_not_report_removed_parameters() {
    let baseline = node_with(&[(1, 1.0), (2, 2.0)]);
    let node = node_with(&[(1, 1.0)]);
    assert!(node.diff(&baseline, &vec![]).is_empty());
}

#[test]
fn diff_against_itself_is_empty() {
    let node = node_with(&[(1, 1.0), (2, -0.0), (3, f64::INFINITY)]);
    assert!(node.diff(&node.clone(), &vec![]).is_empty());
}

#[test]
fn params_diff_uses_the_given_path() {
    let mut params = ClapPluginParams::new();
    params.apply((11, 0.5f64.to_bits()));
    let events = params.diff(&ClapPluginParams::new(), &vec![4, 4]);
    assert_eq!(events, vec![ParamEvent { path: vec![4, 4, 11], value: 0.5f64.to_bits() }]);
}

#[test]
fn replaying_a_diff_restores_the_node() {
    let baseline = node_with(&[(1, 1.0), (2, 2.0), (3, 0.0), (9, 9.0)]);
    let node = node_with(&[(1, 1.5), (2, 2.0), (3, -0.0), (4, 4.0)]);
    let events = node.diff(&baseline, &vec![]);
    let replayed = replay(&baseline, &events);
    let mut keys: Vec<_> = replayed.params.mapping.keys().copied().collect();
    keys.sort();
    assert_eq!(keys, vec![1, 2, 3, 4, 9]);
    for (id, value) in node.params.mapping.iter() {
        assert_eq!(f64::from_bits(replayed.params.mapping[id]), f64::from_bits(*value));
    }
    assert_eq!(replayed.params.mapping[&9], 9.0f64.to_bits());
}

#[test]
fn replaying_a_map_diff_restores_the_map() {
    let baseline = node_with(&[(1, 1.0), (2, 2.0), (3, 0.0), (9, 9.0)]).params;
    let current = node_with(&[(1, 1.5), (2, 2.0), (3, -0.0), (4, 4.0)]).params;
    let events = current.diff(&baseline, &vec![]);
    let mut replayed = baseline.clone();
    for event in &events {
        assert_eq!(event.path.len(), 1);
        let patch = ClapPluginParams::patch(&ParamData::F64(event.value), &event.path).unwrap();
        assert_eq!(patch, (event.path[0], current.mapping[&event.path[0]]));
        replayed.apply(patch);
    }
    let mut keys: Vec<_> = replayed.mapping.keys().copied().collect();
    keys.sort();
    assert_eq!(keys, vec![1, 2, 3, 4, 9]);
    assert_eq!(replayed.mapping[&1], 1.5f64.to_bits());
    assert_eq!(replayed.mapping[&2], 2.0f64.to_bits());
    assert_eq!(replayed.mapping[&3], 0.0f64.to_bits());
    assert_eq!(replayed.mapping[&4], 4.0f64.to_bits());
    assert_eq!(replayed.mapping[&9], 9.0f64.to_bits());
}
