use firewheel_clap_node::buffers::{
    node_status, param_value_changes, plugin_channel_windows, NodeProcessStatus,
    PluginProcessStatus, ProcessorBuffers,
};
use firewheel_clap_node::plugin::ClapPluginNodeConfig;
use firewheel_clap_node::params::ClapPluginNodePatch;

#[test]
fn new_buffers_are_silent() {
    let b = ProcessorBuffers::new(2, 3, 4, 0.0f32);
    assert_eq!(b.max_frames, 4);
    assert_eq!(b.input_port_channels.len(), 1);
    assert_eq!(b.input_port_channels[0], vec![0.0f32; 8]);
    assert_eq!(b.output_port_channels.len(), 1);
    assert_eq!(b.output_port_channels[0], vec![0.0f32; 12]);
}

#[test]
fn full_blocks_are_copied_in() {
    let mut b = ProcessorBuffers::new(2, 2, 3, 0.0f32);
    let left = [1.0f32, 2.0, 3.0];
    let right = [4.0f32, 5.0, 6.0];
    b.copy_inputs(&[&left, &right], 3, 0.0);
    assert_eq!(b.input_port_channels[0], vec![1.0, 2.0, 3.0, 4.0, 5.0, 6.0]);
}

#[test]
fn short_blocks_keep_the_channel_tail() {
    let mut b = ProcessorBuffers::new(2, 2, 3, 9.0f32);
    let left = [1.0f32, 2.0];
    let right = [4.0f32, 5.0];
    b.copy_inputs(&[&left, &right], 2, 0.0);
    assert_eq!(b.input_port_channels[0], vec![1.0, 2.0, 9.0, 4.0, 5.0, 9.0]);
}

#[test]
fn unfed_channels_are_silenced() {
    let mut b = ProcessorBuffers::new(2, 2, 2, 7.0f32);
    let mono = [1.0f32, 2.0];
    b.copy_inputs(&[&mono], 2, 0.0);
    assert_eq!(b.input_port_channels[0], vec![1.0, 2.0, 0.0, 0.0]);
    b.copy_inputs(&[], 2, -1.0);
    assert_eq!(b.input_port_channels[0], vec![-1.0, -1.0, -1.0, -1.0]);
}

#[test]
fn channels_are_numbered_across_ports() {
    let mut b = ProcessorBuffers {
        input_port_channels: vec![vec![0i32; 2], vec![0i32; 5]],
        output_port_channels: vec![],
        max_frames: 2,
    };
    let c0 = [1, 2];
    let c1 = [3, 4];
    let c2 = [5, 6];
    b.copy_inputs(&[&c0, &c1, &c2], 2, -1);
    assert_eq!(b.input_port_channels[0], vec![1, 2]);
    // the second port holds two whole channels and one stray sample
    assert_eq!(b.input_port_channels[1], vec![3, 4, 5, 6, 0]);
}

#[test]
fn outputs_are_copied_out() {
    let mut b = ProcessorBuffers::new(2, 2, 3, 0.0f32);
    b.output_port_channels[0] = vec![1.0, 2.0, 3.0, 4.0, 5.0, 6.0];
    let mut host = vec![vec![0.0f32; 2], vec![0.0f32; 2]];
    b.copy_outputs(&mut host, 2);
    assert_eq!(host, vec![vec![1.0, 2.0], vec![4.0, 5.0]]);
}

#[test]
fn extra_host_outputs_are_left_alone() {
    let mut b = ProcessorBuffers::new(2, 1, 2, 0.0f32);
    b.output_port_channels[0] = vec![1.0, 2.0];
    let mut host = vec![vec![0.0f32; 2], vec![8.0f32; 2]];
    b.copy_outputs(&mut host, 2);
    assert_eq!(host, vec![vec![1.0, 2.0], vec![8.0, 8.0]]);
}

#[test]
fn missing_host_outputs_drop_channels() {
    let mut b = ProcessorBuffers::new(2, 2, 2, 0.0f32);
    b.output_port_channels[0] = vec![1.0, 2.0, 3.0, 4.0];
    let mut host = vec![vec![0.0f32; 2]];
    b.copy_outputs(&mut host, 2);
    assert_eq!(host, vec![vec![1.0, 2.0]]);
}

#[test]
fn a_pass_through_plugin_passes_audio_through() {
    let mut b = ProcessorBuffers::new(2, 2, 4, 0.0f32);
    let left = [0.1f32, 0.2, 0.3];
    let right = [0.4f32, 0.5, 0.6];
    b.copy_inputs(&[&left, &right], 3, 0.0);
    b.output_port_channels = b.input_port_channels.clone();
    let mut host = vec![vec![0.0f32; 3], vec![0.0f32; 3]];
    b.copy_outputs(&mut host, 3);
    assert_eq!(host, vec![left.to_vec(), right.to_vec()]);
}

#[test]
fn status_follows_the_plugin() {
    assert_eq!(node_status(Ok(PluginProcessStatus::Continue)), NodeProcessStatus::OutputsModified);
    assert_eq!(
        node_status(Ok(PluginProcessStatus::ContinueIfNotQuiet)),
        NodeProcessStatus::OutputsModified
    );
    assert_eq!(node_status(Ok(PluginProcessStatus::Tail)), NodeProcessStatus::OutputsModified);
    assert_eq!(node_status(Ok(PluginProcessStatus::Sleep)), NodeProcessStatus::ClearAllOutputs);
    assert_eq!(node_status(Err(())), NodeProcessStatus::ClearAllOutputs);
}

#[test]
fn a_failed_block_leaves_the_outputs() {
    let mut b = ProcessorBuffers::new(1, 1, 2, 0.0f32);
    b.output_port_channels[0] = vec![1.0, 2.0];
    let mut host = vec![vec![5.0f32, 5.0]];
    assert_eq!(b.finish_process(Err(()), &mut host, 2), NodeProcessStatus::ClearAllOutputs);
    assert_eq!(host, vec![vec![5.0, 5.0]]);
}

#[test]
fn a_finished_block_copies_the_outputs() {
    let mut b = ProcessorBuffers::new(1, 1, 2, 0.0f32);
    b.output_port_channels[0] = vec![1.0, 2.0];
    let mut host = vec![vec![5.0f32, 5.0]];
    assert_eq!(
        b.finish_process(Ok(PluginProcessStatus::Tail), &mut host, 2),
        NodeProcessStatus::OutputsModified
    );
    assert_eq!(host, vec![vec![1.0, 2.0]]);
    let mut host = vec![vec![5.0f32, 5.0]];
    assert_eq!(
        b.finish_process(Ok(PluginProcessStatus::Sleep), &mut host, 2),
        NodeProcessStatus::ClearAllOutputs
    );
    assert_eq!(host, vec![vec![1.0, 2.0]]);
}

#[test]
fn patches_become_parameter_changes_in_order() {
    let patches = vec![
        ClapPluginNodePatch::Params((3, 1.0f64.to_bits())),
        ClapPluginNodePatch::Params((1, 2.0f64.to_bits())),
        ClapPluginNodePatch::Params((3, 4.0f64.to_bits())),
    ];
    assert_eq!(
        param_value_changes(&patches),
        vec![(3, 1.0f64.to_bits()), (1, 2.0f64.to_bits()), (3, 4.0f64.to_bits())]
    );
    assert!(param_value_changes(&vec![]).is_empty());
}

fn config(inputs: u32, outputs: u32) -> ClapPluginNodeConfig {
    ClapPluginNodeConfig {
        path: "target/bundled/delay_plugin.clap".into(),
        id: "firewheel_clap_node.delay".to_string(),
        num_input_channels: inputs,
        num_output_channels: outputs,
    }
}

#[test]
fn stream_buffers_follow_the_configured_channels() {
    let b = ProcessorBuffers::for_stream(&config(2, 2), 4, 0.0f32);
    assert_eq!(b.max_frames, 4);
    assert_eq!(b.input_port_channels, vec![vec![0.0f32; 8]]);
    assert_eq!(b.output_port_channels, vec![vec![0.0f32; 8]]);
    let b = ProcessorBuffers::for_stream(&config(1, 3), 5, 0.0f32);
    assert_eq!(b.input_port_channels, vec![vec![0.0f32; 5]]);
    assert_eq!(b.output_port_channels, vec![vec![0.0f32; 15]]);
    let b = ProcessorBuffers::for_stream(&config(0, 0), 5, 0.0f32);
    assert_eq!(b.input_port_channels, vec![Vec::<f32>::new()]);
}

#[test]
fn host_inputs_past_the_channels_are_ignored() {
    let mut a = ProcessorBuffers::new(2, 2, 2, 0.0f32);
    let mut b = ProcessorBuffers::new(2, 2, 2, 0.0f32);
    let l = [1.0f32, 2.0];
    let r = [3.0f32, 4.0];
    let extra = [9.0f32, 9.0];
    a.copy_inputs(&[&l, &r], 2, 0.0);
    b.copy_inputs(&[&l, &r, &extra], 2, 0.0);
    assert_eq!(a.input_port_channels, b.input_port_channels);
}

#[test]
fn plugin_windows_sit_at_the_channel_starts() {
    assert_eq!(plugin_channel_windows(8, 4, 4), vec![(0, 4), (4, 8)]);
    assert_eq!(plugin_channel_windows(8, 4, 2), vec![(0, 2), (4, 6)]);
    assert_eq!(plugin_channel_windows(9, 4, 3), vec![(0, 3), (4, 7)]);
    assert_eq!(plugin_channel_windows(2, 3, 1), vec![]);
    assert_eq!(plugin_channel_windows(0, 1, 1), vec![]);
}
