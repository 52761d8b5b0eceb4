//! The processor's host-side audio buffers and the copying between them and
//! the host's channels.
//!
//! Each plugin port owns one buffer in which its channels lie one after the
//! other, `max_frames` samples each. Channels are numbered across all ports
//! in order: the host's channel `g` is the `g`-th whole `max_frames` chunk,
//! counting from the first port. A buffer's trailing samples that do not fill
//! a whole chunk belong to no channel.
//!
//! The sample type is a parameter, so nothing here depends on what a sample
//! is: the node instantiates it with `f32`.
use vstd::prelude::*;

use crate::params::ClapPluginNodePatch;
use crate::plugin::ClapPluginNodeConfig;

verus! {

/// The number of whole channels of `max_frames` samples in a port buffer.
pub open spec fn chunk_count<T>(port: Seq<T>, max_frames: nat) -> int {
    port.len() as int / max_frames as int
}

/// The number of channels in the ports before port `p`.
pub open spec fn channels_before<T>(ports: Seq<Vec<T>>, max_frames: nat, p: int) -> int
    decreases p,
{
    if p <= 0 {
        0
    } else {
        channels_before(ports, max_frames, p - 1) + chunk_count(ports[p - 1]@, max_frames)
    }
}

/// The number of channels in all ports.
pub open spec fn total_channels<T>(ports: Seq<Vec<T>>, max_frames: nat) -> int {
    channels_before(ports, max_frames, ports.len() as int)
}

/// The host channel number of channel `c` of port `p`.
pub open spec fn global_channel<T>(ports: Seq<Vec<T>>, max_frames: nat, p: int, c: int) -> int {
    channels_before(ports, max_frames, p) + c
}

/// The sample at index `i` of a port buffer after the host's inputs are
/// copied in, where the port's first channel is host channel `base`: a
/// channel the host feeds gets the host's samples in its first `frames`
/// places and keeps the rest; a channel the host does not feed is filled with
/// `silence`; samples outside whole channels are kept.
pub open spec fn input_sample<T>(
    old_port: Seq<T>,
    base: int,
    inputs: Seq<&[T]>,
    max_frames: nat,
    frames: nat,
    silence: T,
    i: int,
) -> T {
    let c = i / max_frames as int;
    let j = i % max_frames as int;
    if c >= chunk_count(old_port, max_frames) {
        old_port[i]
    } else if base + c < inputs.len() {
        if j < frames {
            inputs[base + c]@[j]
        } else {
            old_port[i]
        }
    } else {
        silence
    }
}

/// `new_port` is `old_port` after the host's inputs are copied in, with the
/// port's first channel at host channel `base`.
pub open spec fn inputs_copied<T>(
    old_port: Seq<T>,
    new_port: Seq<T>,
    base: int,
    inputs: Seq<&[T]>,
    max_frames: nat,
    frames: nat,
    silence: T,
) -> bool {
    &&& new_port.len() == old_port.len()
    &&& forall|i: int|
        #![trigger new_port[i]]
        0 <= i < new_port.len() ==> new_port[i] == input_sample(
            old_port,
            base,
            inputs,
            max_frames,
            frames,
            silence,
            i,
        )
}

/// The first `frames` samples of channel `c` of a port buffer.
pub open spec fn channel_head<T>(port: Seq<T>, max_frames: nat, frames: nat, c: int) -> Seq<T> {
    port.subrange(c * max_frames, c * max_frames + frames)
}

/// Locates sample `i` of a port buffer: in channel `c`, at offset `i - c * m`.
proof fn lemma_chunk_position(i: int, c: int, m: int)
    requires
        m > 0,
        c >= 0,
        c * m <= i < c * m + m,
    ensures
        i / m == c,
        i % m == i - c * m,
{
    vstd::arithmetic::div_mod::lemma_fundamental_div_mod_converse(i, m, c, i - c * m);
}

/// A channel that counts among the whole channels lies inside the buffer.
proof fn lemma_chunk_inside(len: int, c: int, m: int)
    requires
        m > 0,
        0 <= c < len / m,
        len >= 0,
    ensures
        c * m + m <= len,
        0 <= c * m,
{
    vstd::arithmetic::div_mod::lemma_fundamental_div_mod(len, m);
    let q = len / m;
    assert(c * m + m <= q * m) by (nonlinear_arith)
        requires
            c + 1 <= q,
            m > 0,
    ;
    assert(0 <= c * m) by (nonlinear_arith)
        requires
            c >= 0,
            m > 0,
    ;
    assert(q * m == m * q) by (nonlinear_arith);
    assert(len % m >= 0) by {
        vstd::arithmetic::div_mod::lemma_mod_bound(len, m);
    }
}

/// A sample at or past the last whole channel lies in no channel.
proof fn lemma_past_chunks(len: int, i: int, m: int)
    requires
        m > 0,
        len >= 0,
        (len / m) * m <= i,
    ensures
        i / m >= len / m,
{
    if i / m < len / m {
        vstd::arithmetic::div_mod::lemma_fundamental_div_mod(i, m);
        vstd::arithmetic::div_mod::lemma_mod_bound(i, m);
        assert((i / m) * m + m <= (len / m) * m) by (nonlinear_arith)
            requires
                i / m + 1 <= len / m,
                m > 0,
        ;
        assert(i == m * (i / m) + i % m);
        assert(m * (i / m) == (i / m) * m) by (nonlinear_arith);
    }
}

/// Copies the host's inputs into one port buffer whose first channel is host
/// channel `base`.
fn copy_inputs_into_port<T: Copy>(
    port: &mut Vec<T>,
    base: usize,
    inputs: &[&[T]],
    max_frames: usize,
    frames: usize,
    silence: T,
)
    requires
        max_frames > 0,
        base < inputs@.len() && 0 < chunk_count(old(port)@, max_frames as nat) ==> frames
            <= max_frames,
        base + chunk_count(old(port)@, max_frames as nat) <= usize::MAX,
        forall|g: int|
            #![trigger inputs@[g]]
            base <= g < base + chunk_count(old(port)@, max_frames as nat) && g < inputs@.len()
                ==> inputs@[g]@.len() == frames,
    ensures
        inputs_copied(
            old(port)@,
            final(port)@,
            base as int,
            inputs@,
            max_frames as nat,
            frames as nat,
            silence,
        ),
{
    let ghost old_port = port@;
    let ghost m = max_frames as int;
    let len = port.len();
    let channels = len / max_frames;
    let mut c: usize = 0;
    while c < channels
        invariant
            m == max_frames,
            m > 0,
            base < inputs@.len() && 0 < channels ==> frames <= max_frames,
            len == old_port.len(),
            channels == chunk_count(old_port, max_frames as nat),
            base + channels <= usize::MAX,
            c <= channels,
            port@.len() == len,
            forall|g: int|
                #![trigger inputs@[g]]
                base <= g < base + channels && g < inputs@.len() ==> inputs@[g]@.len() == frames,
            forall|i: int|
                #![trigger port@[i]]
                0 <= i < c * m ==> port@[i] == input_sample(
                    old_port,
                    base as int,
                    inputs@,
                    max_frames as nat,
                    frames as nat,
                    silence,
                    i,
                ),
            forall|i: int| #![trigger port@[i]] c * m <= i < len ==> port@[i] == old_port[i],
        decreases channels - c,
    {
        proof {
            lemma_chunk_inside(len as int, c as int, m);
        }
        let start = c * max_frames;
        let channel = base + c;
        if channel < inputs.len() {
            let source: &[T] = inputs[channel];
            let mut j: usize = 0;
            while j < frames
                invariant
                    m == max_frames,
                    m > 0,
                    frames <= max_frames,
                    len == old_port.len(),
                    channels == chunk_count(old_port, max_frames as nat),
                    c < channels,
                    start == c * m,
                    start + m <= len,
                    channel == base + c,
                    channel < inputs@.len(),
                    source@ == inputs@[channel as int]@,
                    source@.len() == frames,
                    j <= frames,
                    port@.len() == len,
                    forall|i: int|
                        #![trigger port@[i]]
                        0 <= i < c * m ==> port@[i] == input_sample(
                            old_port,
                            base as int,
                            inputs@,
                            max_frames as nat,
                            frames as nat,
                            silence,
                            i,
                        ),
                    forall|i: int|
                        #![trigger port@[i]]
                        start <= i < start + j ==> port@[i] == source@[i - start],
                    forall|i: int| #![trigger port@[i]] start + j <= i < len ==> port@[i] == old_port[i],
                decreases frames - j,
            {
                port.set(start + j, source[j]);
                j = j + 1;
            }
            proof {
                assert forall|i: int| 0 <= i < (c + 1) * m implies #[trigger] port@[i] == input_sample(
                    old_port,
                    base as int,
                    inputs@,
                    max_frames as nat,
                    frames as nat,
                    silence,
                    i,
                ) by {
                    if i >= c * m {
                        assert((c + 1) * m == c * m + m) by (nonlinear_arith);
                        lemma_chunk_position(i, c as int, m);
                    }
                }
            }
        } else {
            let mut j: usize = 0;
            while j < max_frames
                invariant
                    m == max_frames,
                    m > 0,
                    len == old_port.len(),
                    channels == chunk_count(old_port, max_frames as nat),
                    c < channels,
                    start == c * m,
                    start + m <= len,
                    channel == base + c,
                    channel >= inputs@.len(),
                    j <= max_frames,
                    port@.len() == len,
                    forall|i: int|
                        #![trigger port@[i]]
                        0 <= i < c * m ==> port@[i] == input_sample(
                            old_port,
                            base as int,
                            inputs@,
                            max_frames as nat,
                            frames as nat,
                            silence,
                            i,
                        ),
                    forall|i: int| #![trigger port@[i]] start <= i < start + j ==> port@[i] == silence,
                    forall|i: int| #![trigger port@[i]] start + j <= i < len ==> port@[i] == old_port[i],
                decreases max_frames - j,
            {
                port.set(start + j, silence);
                j = j + 1;
            }
            proof {
                assert forall|i: int| 0 <= i < (c + 1) * m implies #[trigger] port@[i] == input_sample(
                    old_port,
                    base as int,
                    inputs@,
                    max_frames as nat,
                    frames as nat,
                    silence,
                    i,
                ) by {
                    if i >= c * m {
                        assert((c + 1) * m == c * m + m) by (nonlinear_arith);
                        lemma_chunk_position(i, c as int, m);
                    }
                }
            }
        }
        proof {
            assert((c + 1) * m == c * m + m) by (nonlinear_arith);
        }
        c = c + 1;
    }
    proof {
        assert forall|i: int| 0 <= i < len implies #[trigger] port@[i] == input_sample(
            old_port,
            base as int,
            inputs@,
            max_frames as nat,
            frames as nat,
            silence,
            i,
        ) by {
            if i >= c * m {
                lemma_past_chunks(len as int, i, m);
                assert(c * m == (len as int / m) * m);
            }
        }
    }
}

/// Copies the first `frames` samples of each channel of one port buffer to
/// the host's outputs, where the port's first channel is host channel `base`;
/// channels past the host's last output are dropped.
fn copy_port_into_outputs<T: Copy>(
    port: &Vec<T>,
    base: usize,
    outputs: &mut Vec<Vec<T>>,
    max_frames: usize,
    frames: usize,
)
    requires
        max_frames > 0,
        base < old(outputs)@.len() && 0 < chunk_count(port@, max_frames as nat) ==> frames
            <= max_frames,
        base + chunk_count(port@, max_frames as nat) <= usize::MAX,
        forall|g: int|
            #![trigger old(outputs)@[g]]
            base <= g < base + chunk_count(port@, max_frames as nat) && g < old(outputs)@.len()
                ==> old(outputs)@[g]@.len() == frames,
    ensures
        final(outputs)@.len() == old(outputs)@.len(),
        forall|g: int|
            #![trigger final(outputs)@[g]]
            0 <= g < old(outputs)@.len() ==> if base <= g < base + chunk_count(
                port@,
                max_frames as nat,
            ) {
                final(outputs)@[g]@ == channel_head(
                    port@,
                    max_frames as nat,
                    frames as nat,
                    g - base,
                )
            } else {
                final(outputs)@[g] == old(outputs)@[g]
            },
{
    let ghost old_outputs = outputs@;
    let ghost m = max_frames as int;
    let len = port.len();
    let channels = len / max_frames;
    let mut c: usize = 0;
    while c < channels
        invariant
            m == max_frames,
            m > 0,
            base < old_outputs.len() && 0 < channels ==> frames <= max_frames,
            len == port@.len(),
            channels == chunk_count(port@, max_frames as nat),
            base + channels <= usize::MAX,
            c <= channels,
            outputs@.len() == old_outputs.len(),
            forall|g: int|
                #![trigger outputs@[g]]
                0 <= g < outputs@.len() ==> if base <= g < base + c {
                    outputs@[g]@ == channel_head(port@, max_frames as nat, frames as nat, g - base)
                } else {
                    outputs@[g] == old_outputs[g]
                },
        decreases channels - c,
    {
        proof {
            lemma_chunk_inside(len as int, c as int, m);
        }
        let channel = base + c;
        if channel < outputs.len() {
            let start = c * max_frames;
            let mut samples: Vec<T> = Vec::new();
            let mut j: usize = 0;
            while j < frames
                invariant
                    start == c * m,
                    start + m <= len,
                    len == port@.len(),
                    frames <= m,
                    j <= frames,
                    samples@ == port@.subrange(start as int, start + j),
                decreases frames - j,
            {
                samples.push(port[start + j]);
                j = j + 1;
                assert(samples@ =~= port@.subrange(start as int, start + j));
            }
            outputs.set(channel, samples);
        }
        c = c + 1;
    }
}

/// How a started plugin's processing call came out, by the plugin's status.
#[derive(Debug, Clone, Copy, PartialEq, Eq, Structural)]
pub enum PluginProcessStatus {
    /// Processing should go on.
    Continue,
    /// Processing should go on unless all outputs are quiet.
    ContinueIfNotQuiet,
    /// The plugin is producing its tail.
    Tail,
    /// No processing is needed until the next event or input change.
    Sleep,
}

/// What the node tells the audio graph about its outputs after processing.
#[derive(Debug, Clone, Copy, PartialEq, Eq, Structural)]
pub enum NodeProcessStatus {
    /// The node wrote its outputs.
    OutputsModified,
    /// The graph is to clear the node's outputs.
    ClearAllOutputs,
}

/// The node's status for a processing result: the plugin's outputs count as
/// written unless the plugin failed or went to sleep.
pub open spec fn node_status_for(result: Result<PluginProcessStatus, ()>) -> NodeProcessStatus {
    match result {
        Ok(PluginProcessStatus::Continue) => NodeProcessStatus::OutputsModified,
        Ok(PluginProcessStatus::ContinueIfNotQuiet) => NodeProcessStatus::OutputsModified,
        Ok(PluginProcessStatus::Tail) => NodeProcessStatus::OutputsModified,
        Ok(PluginProcessStatus::Sleep) => NodeProcessStatus::ClearAllOutputs,
        Err(()) => NodeProcessStatus::ClearAllOutputs,
    }
}

/// Maps a processing result to the node's status.
pub fn node_status(result: Result<PluginProcessStatus, ()>) -> (r: NodeProcessStatus)
    ensures
        r == node_status_for(result),
{
    match result {
        Ok(PluginProcessStatus::Continue) => NodeProcessStatus::OutputsModified,
        Ok(PluginProcessStatus::ContinueIfNotQuiet) => NodeProcessStatus::OutputsModified,
        Ok(PluginProcessStatus::Tail) => NodeProcessStatus::OutputsModified,
        Ok(PluginProcessStatus::Sleep) => NodeProcessStatus::ClearAllOutputs,
        Err(()) => NodeProcessStatus::ClearAllOutputs,
    }
}

/// The parameter changes to send to the plugin for the node patches of one
/// block, in order: one per patch, with its parameter ID and value.
pub fn param_value_changes(patches: &Vec<ClapPluginNodePatch>) -> (changes: Vec<(u32, u64)>)
    ensures
        changes@.len() == patches@.len(),
        forall|i: int|
            0 <= i < patches@.len() ==> #[trigger] patches@[i] == ClapPluginNodePatch::Params(
                changes@[i],
            ),
{
    let mut changes: Vec<(u32, u64)> = Vec::new();
    let mut i: usize = 0;
    while i < patches.len()
        invariant
            i <= patches@.len(),
            changes@.len() == i,
            forall|k: int|
                0 <= k < i ==> #[trigger] patches@[k] == ClapPluginNodePatch::Params(changes@[k]),
        decreases patches@.len() - i,
    {
        match patches[i] {
            ClapPluginNodePatch::Params(change) => changes.push(change),
        }
        i = i + 1;
    }
    changes
}

/// A channel never counts fewer than zero chunks.
proof fn lemma_chunk_count_nonneg<T>(port: Seq<T>, m: nat)
    requires
        m > 0,
    ensures
        chunk_count(port, m) >= 0,
{
    vstd::arithmetic::div_mod::lemma_div_pos_is_pos(port.len() as int, m as int);
}

/// Channel numbers are never negative.
proof fn lemma_channels_before_nonneg<T>(ports: Seq<Vec<T>>, m: nat, p: int)
    requires
        m > 0,
        0 <= p <= ports.len(),
    ensures
        channels_before(ports, m, p) >= 0,
    decreases p,
{
    if p > 0 {
        lemma_channels_before_nonneg(ports, m, p - 1);
        lemma_chunk_count_nonneg(ports[p - 1]@, m);
    }
}

/// Channel numbering only grows from port to port.
proof fn lemma_channels_before_monotone<T>(ports: Seq<Vec<T>>, m: nat, p: int, q: int)
    requires
        m > 0,
        0 <= p <= q <= ports.len(),
    ensures
        channels_before(ports, m, p) <= channels_before(ports, m, q),
        channels_before(ports, m, p) >= 0,
    decreases q,
{
    lemma_channels_before_nonneg(ports, m, p);
    if p < q {
        lemma_channels_before_monotone(ports, m, p, q - 1);
        lemma_chunk_count_nonneg(ports[q - 1]@, m);
    }
}

/// Channel numbering depends only on the buffers' lengths.
proof fn lemma_channels_before_lengths<T>(a: Seq<Vec<T>>, b: Seq<Vec<T>>, m: nat, p: int)
    requires
        a.len() == b.len(),
        0 <= p <= a.len(),
        forall|q: int| 0 <= q < a.len() ==> #[trigger] a[q]@.len() == b[q]@.len(),
    ensures
        channels_before(a, m, p) == channels_before(b, m, p),
    decreases p,
{
    if p > 0 {
        lemma_channels_before_lengths(a, b, m, p - 1);
        assert(a[p - 1]@.len() == b[p - 1]@.len());
    }
}

/// Every host channel below the total is channel `c` of some port `p`.
proof fn lemma_channel_located<T>(ports: Seq<Vec<T>>, m: nat, p: int, g: int) -> (pc: (int, int))
    requires
        m > 0,
        0 <= p <= ports.len(),
        0 <= g < channels_before(ports, m, p),
    ensures
        0 <= pc.0 < p,
        0 <= pc.1 < chunk_count(ports[pc.0]@, m),
        global_channel(ports, m, pc.0, pc.1) == g,
    decreases p,
{
    if g < channels_before(ports, m, p - 1) {
        lemma_channel_located(ports, m, p - 1, g)
    } else {
        (p - 1, g - channels_before(ports, m, p - 1))
    }
}

/// `new_outputs` are `old_outputs` after the first `frames` samples of each
/// port channel are copied to the host channel of the same number; host
/// channels past the ports' last channel are kept.
pub open spec fn outputs_copied<T>(
    ports: Seq<Vec<T>>,
    max_frames: nat,
    frames: nat,
    old_outputs: Seq<Vec<T>>,
    new_outputs: Seq<Vec<T>>,
) -> bool {
    &&& new_outputs.len() == old_outputs.len()
    &&& forall|p: int, c: int|
        #![trigger global_channel(ports, max_frames, p, c)]
        0 <= p < ports.len() && 0 <= c < chunk_count(ports[p]@, max_frames) && global_channel(
            ports,
            max_frames,
            p,
            c,
        ) < new_outputs.len() ==> new_outputs[global_channel(ports, max_frames, p, c)]@
            == channel_head(ports[p]@, max_frames, frames, c)
    &&& forall|g: int|
        #![trigger new_outputs[g]]
        total_channels(ports, max_frames) <= g < new_outputs.len() ==> new_outputs[g]
            == old_outputs[g]
}

/// The port buffers of a running processor: one buffer per plugin port on
/// each side, and the most frames a block may hold.
pub struct ProcessorBuffers<T> {
    /// One buffer per input port, its channels one after another.
    pub input_port_channels: Vec<Vec<T>>,
    /// One buffer per output port, its channels one after another.
    pub output_port_channels: Vec<Vec<T>>,
    /// The most frames a block may hold: the length of every channel.
    pub max_frames: usize,
}

impl<T: Copy> ProcessorBuffers<T> {
    /// Channels are at least one frame long and can be numbered in a `usize`.
    pub open spec fn wf(&self) -> bool {
        &&& self.max_frames > 0
        &&& total_channels(self.input_port_channels@, self.max_frames as nat) <= usize::MAX
        &&& total_channels(self.output_port_channels@, self.max_frames as nat) <= usize::MAX
    }

    /// Buffers for one input port of `input_channels` channels and one output
    /// port of `output_channels` channels, `max_frames` samples each, all
    /// filled with `silence`.
    pub fn new(input_channels: usize, output_channels: usize, max_frames: usize, silence: T) -> (r:
        Self)
        requires
            max_frames > 0,
            input_channels * max_frames <= usize::MAX,
            output_channels * max_frames <= usize::MAX,
        ensures
            r.wf(),
            r.max_frames == max_frames,
            r.input_port_channels@.len() == 1,
            r.input_port_channels@[0]@ == Seq::new(
                (input_channels * max_frames) as nat,
                |i: int| silence,
            ),
            r.output_port_channels@.len() == 1,
            r.output_port_channels@[0]@ == Seq::new(
                (output_channels * max_frames) as nat,
                |i: int| silence,
            ),
            total_channels(r.input_port_channels@, max_frames as nat) == input_channels,
            total_channels(r.output_port_channels@, max_frames as nat) == output_channels,
    {
        let input = silent_buffer(input_channels * max_frames, silence);
        let output = silent_buffer(output_channels * max_frames, silence);
        let mut input_port_channels: Vec<Vec<T>> = Vec::new();
        input_port_channels.push(input);
        let mut output_port_channels: Vec<Vec<T>> = Vec::new();
        output_port_channels.push(output);
        let r = ProcessorBuffers { input_port_channels, output_port_channels, max_frames };
        proof {
            vstd::arithmetic::div_mod::lemma_div_multiples_vanish(
                input_channels as int,
                max_frames as int,
            );
            vstd::arithmetic::div_mod::lemma_div_multiples_vanish(
                output_channels as int,
                max_frames as int,
            );
            assert(input_channels * max_frames == max_frames * input_channels) by (nonlinear_arith);
            assert(output_channels * max_frames == max_frames * output_channels)
                by (nonlinear_arith);
            assert(channels_before(r.input_port_channels@, max_frames as nat, 0) == 0);
            assert(channels_before(r.output_port_channels@, max_frames as nat, 0) == 0);
        }
        r
    }

    /// The buffers of a processor for a stream whose blocks hold at most
    /// `max_block_frames` frames: one input port with the configured number of
    /// input channels and one output port with the configured number of
    /// output channels, all silent.
    pub fn for_stream(config: &ClapPluginNodeConfig, max_block_frames: u32, silence: T) -> (r: Self)
        requires
            max_block_frames > 0,
            config.num_input_channels * max_block_frames <= usize::MAX,
            config.num_output_channels * max_block_frames <= usize::MAX,
        ensures
            r.wf(),
            r.max_frames == max_block_frames,
            r.input_port_channels@.len() == 1,
            r.input_port_channels@[0]@ == Seq::new(
                (config.num_input_channels * max_block_frames) as nat,
                |i: int| silence,
            ),
            r.output_port_channels@.len() == 1,
            r.output_port_channels@[0]@ == Seq::new(
                (config.num_output_channels * max_block_frames) as nat,
                |i: int| silence,
            ),
            total_channels(r.input_port_channels@, max_block_frames as nat)
                == config.num_input_channels,
            total_channels(r.output_port_channels@, max_block_frames as nat)
                == config.num_output_channels,
    {
        let input_channels = config.num_input_channels as usize;
        let output_channels = config.num_output_channels as usize;
        let max_frames = max_block_frames as usize;
        Self::new(input_channels, output_channels, max_frames, silence)
    }

    /// Copies the host's input channels of one block into the input port
    /// buffers: each port channel that the host feeds takes the host's
    /// `frames` samples at its start and keeps the rest; each port channel
    /// beyond the host's inputs is filled with `silence`.
    pub fn copy_inputs(&mut self, inputs: &[&[T]], frames: usize, silence: T)
        requires
            old(self).wf(),
            0 < total_channels(old(self).input_port_channels@, old(self).max_frames as nat) && 0
                < inputs@.len() ==> frames <= old(self).max_frames,
            forall|g: int|
                #![trigger inputs@[g]]
                0 <= g < total_channels(old(self).input_port_channels@, old(self).max_frames as nat)
                    && g < inputs@.len() ==> inputs@[g]@.len() == frames,
        ensures
            final(self).wf(),
            final(self).max_frames == old(self).max_frames,
            final(self).output_port_channels@ == old(self).output_port_channels@,
            final(self).input_port_channels@.len() == old(self).input_port_channels@.len(),
            forall|p: int|
                #![trigger final(self).input_port_channels@[p]]
                0 <= p < old(self).input_port_channels@.len() ==> inputs_copied(
                    old(self).input_port_channels@[p]@,
                    final(self).input_port_channels@[p]@,
                    channels_before(old(self).input_port_channels@, old(self).max_frames as nat, p),
                    inputs@,
                    old(self).max_frames as nat,
                    frames as nat,
                    silence,
                ),
    {
        let ghost old_ports = self.input_port_channels@;
        let ghost m = self.max_frames as nat;
        let max_frames = self.max_frames;
        let n = self.input_port_channels.len();
        let mut channel: usize = 0;
        let mut p: usize = 0;
        while p < n
            invariant
                max_frames == m,
                m > 0,
                n == old_ports.len(),
                total_channels(old_ports, m) <= usize::MAX,
                0 < total_channels(old_ports, m) && 0 < inputs@.len() ==> frames <= max_frames,
                forall|g: int|
                    #![trigger inputs@[g]]
                    0 <= g < total_channels(old_ports, m) && g < inputs@.len() ==> inputs@[g]@.len()
                        == frames,
                self.max_frames == max_frames,
                self.output_port_channels@ == old(self).output_port_channels@,
                self.input_port_channels@.len() == n,
                p <= n,
                channel == channels_before(old_ports, m, p as int),
                forall|q: int|
                    #![trigger self.input_port_channels@[q]]
                    0 <= q < p ==> inputs_copied(
                        old_ports[q]@,
                        self.input_port_channels@[q]@,
                        channels_before(old_ports, m, q),
                        inputs@,
                        m,
                        frames as nat,
                        silence,
                    ),
                forall|q: int|
                    #![trigger self.input_port_channels@[q]]
                    p <= q < n ==> self.input_port_channels@[q] == old_ports[q],
            decreases n - p,
        {
            proof {
                lemma_channels_before_monotone(old_ports, m, p as int + 1, n as int);
                lemma_channels_before_monotone(old_ports, m, 0, p as int);
                lemma_chunk_count_nonneg(old_ports[p as int]@, m);
                assert(self.input_port_channels@[p as int] == old_ports[p as int]);
            }
            let port_len = self.input_port_channels[p].len();
            copy_inputs_into_port(
                &mut self.input_port_channels[p],
                channel,
                inputs,
                max_frames,
                frames,
                silence,
            );
            channel = channel + port_len / max_frames;
            p = p + 1;
        }
        proof {
            lemma_channels_before_lengths(
                old_ports,
                self.input_port_channels@,
                m,
                n as int,
            );
        }
    }

    /// Copies the first `frames` samples of each output port channel of one
    /// block to the host's output channel of the same number; host channels
    /// beyond the ports' channels are left as they are.
    pub fn copy_outputs(&self, outputs: &mut Vec<Vec<T>>, frames: usize)
        requires
            self.wf(),
            0 < total_channels(self.output_port_channels@, self.max_frames as nat) && 0 < old(
                outputs,
            )@.len() ==> frames <= self.max_frames,
            forall|g: int|
                #![trigger old(outputs)@[g]]
                0 <= g < total_channels(self.output_port_channels@, self.max_frames as nat) && g
                    < old(outputs)@.len() ==> old(outputs)@[g]@.len() == frames,
        ensures
            outputs_copied(
                self.output_port_channels@,
                self.max_frames as nat,
                frames as nat,
                old(outputs)@,
                final(outputs)@,
            ),
    {
        let ghost ports = self.output_port_channels@;
        let ghost m = self.max_frames as nat;
        let ghost old_outputs = outputs@;
        let max_frames = self.max_frames;
        let n = self.output_port_channels.len();
        let mut channel: usize = 0;
        let mut p: usize = 0;
        while p < n
            invariant
                ports == self.output_port_channels@,
                max_frames == m,
                m > 0,
                n == ports.len(),
                total_channels(ports, m) <= usize::MAX,
                0 < total_channels(ports, m) && 0 < old_outputs.len() ==> frames <= max_frames,
                forall|g: int|
                    #![trigger old_outputs[g]]
                    0 <= g < total_channels(ports, m) && g < old_outputs.len()
                        ==> old_outputs[g]@.len() == frames,
                outputs@.len() == old_outputs.len(),
                p <= n,
                channel == channels_before(ports, m, p as int),
                forall|q: int, c: int|
                    #![trigger global_channel(ports, m, q, c)]
                    0 <= q < p && 0 <= c < chunk_count(ports[q]@, m) && global_channel(
                        ports,
                        m,
                        q,
                        c,
                    ) < outputs@.len() ==> outputs@[global_channel(ports, m, q, c)]@
                        == channel_head(ports[q]@, m, frames as nat, c),
                forall|g: int|
                    #![trigger outputs@[g]]
                    channels_before(ports, m, p as int) <= g < outputs@.len() ==> outputs@[g]
                        == old_outputs[g],
            decreases n - p,
        {
            proof {
                lemma_channels_before_monotone(ports, m, p as int + 1, n as int);
                lemma_channels_before_monotone(ports, m, 0, p as int);
                lemma_chunk_count_nonneg(ports[p as int]@, m);
            }
            let ghost before = outputs@;
            let port = &self.output_port_channels[p];
            copy_port_into_outputs(port, channel, outputs, max_frames, frames);
            proof {
                let cb = channels_before(ports, m, p as int);
                assert forall|q: int, c: int|
                    #![trigger global_channel(ports, m, q, c)]
                    0 <= q < p + 1 && 0 <= c < chunk_count(ports[q]@, m) && global_channel(
                        ports,
                        m,
                        q,
                        c,
                    ) < outputs@.len() implies outputs@[global_channel(ports, m, q, c)]@
                    == channel_head(ports[q]@, m, frames as nat, c) by {
                    if q < p {
                        lemma_channels_before_monotone(ports, m, q + 1, p as int);
                        lemma_channels_before_nonneg(ports, m, q);
                        assert(channels_before(ports, m, q + 1) == channels_before(ports, m, q)
                            + chunk_count(ports[q]@, m));
                        let g = global_channel(ports, m, q, c);
                        assert(0 <= g < cb);
                        assert(g < before.len());
                        assert(outputs@[global_channel(ports, m, q, c)] == before[global_channel(
                            ports,
                            m,
                            q,
                            c,
                        )]);
                    }
                }
            }
            channel = channel + port.len() / max_frames;
            p = p + 1;
        }
    }

    /// Ends a block after the plugin processed it: when the plugin succeeded,
    /// its outputs go to the host (as `copy_outputs` does) and the block's
    /// status follows the plugin's; when it failed, the host's outputs are
    /// left alone and are to be cleared.
    pub fn finish_process(
        &self,
        result: Result<PluginProcessStatus, ()>,
        outputs: &mut Vec<Vec<T>>,
        frames: usize,
    ) -> (status: NodeProcessStatus)
        requires
            self.wf(),
            result is Ok ==> {
                &&& 0 < total_channels(self.output_port_channels@, self.max_frames as nat) && 0
                    < old(outputs)@.len() ==> frames <= self.max_frames
                &&& forall|g: int|
                    #![trigger old(outputs)@[g]]
                    0 <= g < total_channels(self.output_port_channels@, self.max_frames as nat)
                        && g < old(outputs)@.len() ==> old(outputs)@[g]@.len() == frames
            },
        ensures
            status == node_status_for(result),
            result is Ok ==> outputs_copied(
                self.output_port_channels@,
                self.max_frames as nat,
                frames as nat,
                old(outputs)@,
                final(outputs)@,
            ),
            result is Err ==> final(outputs)@ == old(outputs)@,
    {
        match result {
            Ok(plugin_status) => {
                self.copy_outputs(outputs, frames);
                node_status(Ok(plugin_status))
            },
            Err(()) => NodeProcessStatus::ClearAllOutputs,
        }
    }
}

/// A buffer of `len` samples, all `silence`.
fn silent_buffer<T: Copy>(len: usize, silence: T) -> (r: Vec<T>)
    ensures
        r@ == Seq::new(len as nat, |i: int| silence),
{
    let mut r: Vec<T> = Vec::new();
    let mut i: usize = 0;
    while i < len
        invariant
            i <= len,
            r@ == Seq::new(i as nat, |k: int| silence),
        decreases len - i,
    {
        r.push(silence);
        i = i + 1;
        assert(r@ =~= Seq::new(i as nat, |k: int| silence));
    }
    r
}

/// Pass-through: a plugin whose output port channels start with what its
/// input port channels start with passes the host's audio through. After
/// `copy_inputs`, if each output port channel holds, in its first `frames`
/// samples, what the input port channel of the same place holds, then
/// `copy_outputs` gives every host output channel whose number has a fed
/// input channel exactly that input's samples.
pub proof fn lemma_pass_through<T>(
    old_ports: Seq<Vec<T>>,
    ports: Seq<Vec<T>>,
    out_ports: Seq<Vec<T>>,
    inputs: Seq<&[T]>,
    max_frames: nat,
    frames: nat,
    silence: T,
    old_outputs: Seq<Vec<T>>,
    outputs: Seq<Vec<T>>,
)
    requires
        max_frames > 0,
        0 < total_channels(old_ports, max_frames) && 0 < inputs.len() ==> frames <= max_frames,
        forall|g: int|
            #![trigger inputs[g]]
            0 <= g < total_channels(old_ports, max_frames) && g < inputs.len() ==> inputs[g]@.len()
                == frames,
        ports.len() == old_ports.len(),
        forall|p: int|
            #![trigger ports[p]]
            0 <= p < old_ports.len() ==> inputs_copied(
                old_ports[p]@,
                ports[p]@,
                channels_before(old_ports, max_frames, p),
                inputs,
                max_frames,
                frames,
                silence,
            ),
        out_ports.len() == ports.len(),
        forall|p: int| 0 <= p < ports.len() ==> #[trigger] out_ports[p]@.len() == ports[p]@.len(),
        forall|p: int, c: int|
            0 <= p < ports.len() && 0 <= c < chunk_count(ports[p]@, max_frames) ==> #[trigger]
                channel_head(out_ports[p]@, max_frames, frames, c) == channel_head(
                ports[p]@,
                max_frames,
                frames,
                c,
            ),
        outputs_copied(out_ports, max_frames, frames, old_outputs, outputs),
    ensures
        forall|g: int|
            #![trigger outputs[g]]
            0 <= g < total_channels(old_ports, max_frames) && g < inputs.len() && g < outputs.len()
                ==> outputs[g]@ == inputs[g]@,
{
    let m = max_frames as int;
    assert forall|q: int| 0 <= q < old_ports.len() implies #[trigger] old_ports[q]@.len()
        == ports[q]@.len() by {
        assert(inputs_copied(
            old_ports[q]@,
            ports[q]@,
            channels_before(old_ports, max_frames, q),
            inputs,
            max_frames,
            frames,
            silence,
        ));
    }
    assert forall|q: int| 0 <= q < old_ports.len() implies #[trigger] old_ports[q]@.len()
        == out_ports[q]@.len() by {
        assert(out_ports[q]@.len() == ports[q]@.len());
    }
    assert forall|g: int|
        #![trigger outputs[g]]
        0 <= g < total_channels(old_ports, max_frames) && g < inputs.len() && g < outputs.len()
            implies outputs[g]@ == inputs[g]@ by {
        let (p, c) = lemma_channel_located(old_ports, max_frames, old_ports.len() as int, g);
        lemma_channels_before_lengths(old_ports, out_ports, max_frames, p);
        lemma_channels_before_lengths(old_ports, out_ports, max_frames, old_ports.len() as int);
        assert(global_channel(out_ports, max_frames, p, c) == g);
        assert(chunk_count(ports[p]@, max_frames) == chunk_count(old_ports[p]@, max_frames));
        assert(chunk_count(out_ports[p]@, max_frames) == chunk_count(old_ports[p]@, max_frames));
        let head = channel_head(ports[p]@, max_frames, frames, c);
        assert(outputs[g]@ == channel_head(out_ports[p]@, max_frames, frames, c));
        assert(outputs[g]@ == head);
        lemma_chunk_inside(old_ports[p]@.len() as int, c, m);
        assert forall|j: int| 0 <= j < frames implies #[trigger] head[j] == inputs[g]@[j] by {
            let i = c * m + j;
            lemma_chunk_position(i, c, m);
            assert(ports[p]@[i] == input_sample(
                old_ports[p]@,
                channels_before(old_ports, max_frames, p),
                inputs,
                max_frames,
                frames,
                silence,
                i,
            ));
        }
        assert(head =~= inputs[g]@);
    }
}

/// The window in which the plugin finds its channel `k` of a port buffer
/// during a block of `frames` frames: the first `frames` samples of the
/// port's channel `k`, which starts at `k * max_frames`.
pub open spec fn plugin_window<T>(port: Seq<T>, max_frames: nat, frames: nat, k: int) -> Seq<T> {
    port.subrange(k * max_frames, k * max_frames + frames)
}

/// Where the plugin finds its channels in a port buffer of `port_len`
/// samples during a block of `frames` frames: one window per whole channel
/// of `max_frames` samples, window `k` (start, end) holding the first
/// `frames` samples of channel `k`; samples past the last whole channel are
/// in none.
pub fn plugin_channel_windows(port_len: usize, max_frames: usize, frames: usize) -> (r: Vec<
    (usize, usize),
>)
    requires
        max_frames > 0,
        port_len / max_frames > 0 ==> frames <= max_frames,
    ensures
        r@.len() == port_len / max_frames,
        forall|k: int|
            0 <= k < r@.len() ==> #[trigger] r@[k].0 == k * max_frames && r@[k].1 == k
                * max_frames + frames,
{
    let count = port_len / max_frames;
    let mut r: Vec<(usize, usize)> = Vec::new();
    let mut k: usize = 0;
    while k < count
        invariant
            max_frames > 0,
            count == port_len / max_frames,
            count > 0 ==> frames <= max_frames,
            k <= count,
            r@.len() == k,
            forall|i: int|
                0 <= i < k ==> #[trigger] r@[i].0 == i * max_frames && r@[i].1 == i * max_frames
                    + frames,
        decreases count - k,
    {
        proof {
            lemma_chunk_inside(port_len as int, k as int, max_frames as int);
        }
        let start = k * max_frames;
        r.push((start, start + frames));
        k = k + 1;
    }
    r
}

/// The plugin's windows are the port's channels: in a block of `frames`
/// frames the plugin's channel `k` is the first `frames` samples of the
/// port's channel `k`, the very samples that `copy_inputs` fills from host
/// channel `k` and that `copy_outputs` hands to it.
pub proof fn lemma_windows_are_channel_heads<T>(
    port: Seq<T>,
    max_frames: nat,
    frames: nat,
    k: int,
)
    ensures
        plugin_window(port, max_frames, frames, k) == channel_head(port, max_frames, frames, k),
{
}

/// Pass-through as the plugin sees it: for any block of `frames` frames, a
/// plugin that writes into each window of its output port buffers what it
/// found in the same window of its input port buffers passes the host's audio
/// through.
pub proof fn lemma_pass_through_plugin_view<T>(
    old_ports: Seq<Vec<T>>,
    ports: Seq<Vec<T>>,
    out_ports: Seq<Vec<T>>,
    inputs: Seq<&[T]>,
    max_frames: nat,
    frames: nat,
    silence: T,
    old_outputs: Seq<Vec<T>>,
    outputs: Seq<Vec<T>>,
)
    requires
        max_frames > 0,
        0 < total_channels(old_ports, max_frames) && 0 < inputs.len() ==> frames <= max_frames,
        forall|g: int|
            #![trigger inputs[g]]
            0 <= g < total_channels(old_ports, max_frames) && g < inputs.len() ==> inputs[g]@.len()
                == frames,
        ports.len() == old_ports.len(),
        forall|p: int|
            #![trigger ports[p]]
            0 <= p < old_ports.len() ==> inputs_copied(
                old_ports[p]@,
                ports[p]@,
                channels_before(old_ports, max_frames, p),
                inputs,
                max_frames,
                frames,
                silence,
            ),
        out_ports.len() == ports.len(),
        forall|p: int| 0 <= p < ports.len() ==> #[trigger] out_ports[p]@.len() == ports[p]@.len(),
        forall|p: int, k: int|
            0 <= p < ports.len() && 0 <= k < chunk_count(ports[p]@, max_frames) ==> #[trigger]
                plugin_window(out_ports[p]@, max_frames, frames, k) == plugin_window(
                ports[p]@,
                max_frames,
                frames,
                k,
            ),
        outputs_copied(out_ports, max_frames, frames, old_outputs, outputs),
    ensures
        forall|g: int|
            #![trigger outputs[g]]
            0 <= g < total_channels(old_ports, max_frames) && g < inputs.len() && g < outputs.len()
                ==> outputs[g]@ == inputs[g]@,
{
    assert forall|p: int, c: int|
        0 <= p < ports.len() && 0 <= c < chunk_count(ports[p]@, max_frames) implies #[trigger]
        channel_head(out_ports[p]@, max_frames, frames, c) == channel_head(
        ports[p]@,
        max_frames,
        frames,
        c,
    ) by {
        assert(plugin_window(out_ports[p]@, max_frames, frames, c) == plugin_window(
            ports[p]@,
            max_frames,
            frames,
            c,
        ));
    }
    lemma_pass_through(
        old_ports,
        ports,
        out_ports,
        inputs,
        max_frames,
        frames,
        silence,
        old_outputs,
        outputs,
    );
}

/// `x` brought into the range from `lo` to `hi`.
pub open spec fn clamp(x: int, lo: int, hi: int) -> int {
    if x < lo {
        lo
    } else if x > hi {
        hi
    } else {
        x
    }
}

/// Two lists of host inputs agree on host channels `lo` to `hi` (exclusive):
/// each channel is in both or in neither, with the same samples.
pub open spec fn inputs_agree<T>(a: Seq<&[T]>, b: Seq<&[T]>, lo: int, hi: int) -> bool {
    &&& clamp(a.len() as int, lo, hi) == clamp(b.len() as int, lo, hi)
    &&& forall|g: int|
        #![trigger a[g]]
        #![trigger b[g]]
        lo <= g < hi && g < a.len() ==> a[g]@ == b[g]@
}

/// Agreement on a range of channels is agreement on every range inside it.
proof fn lemma_inputs_agree_within<T>(
    a: Seq<&[T]>,
    b: Seq<&[T]>,
    lo: int,
    hi: int,
    lo2: int,
    hi2: int,
)
    requires
        inputs_agree(a, b, lo, hi),
        lo <= lo2 <= hi2 <= hi,
    ensures
        inputs_agree(a, b, lo2, hi2),
{
}

/// Host inputs past the port's channels are never read: copying two lists of
/// host inputs that agree on every channel of the port gives the same port.
pub proof fn lemma_extra_inputs_ignored_in_port<T>(
    old_port: Seq<T>,
    port_a: Seq<T>,
    port_b: Seq<T>,
    base: int,
    inputs_a: Seq<&[T]>,
    inputs_b: Seq<&[T]>,
    max_frames: nat,
    frames: nat,
    silence: T,
)
    requires
        max_frames > 0,
        inputs_copied(old_port, port_a, base, inputs_a, max_frames, frames, silence),
        inputs_copied(old_port, port_b, base, inputs_b, max_frames, frames, silence),
        inputs_agree(inputs_a, inputs_b, base, base + chunk_count(old_port, max_frames)),
    ensures
        port_a == port_b,
{
    let m = max_frames as int;
    assert forall|i: int| 0 <= i < port_a.len() implies #[trigger] port_a[i] == port_b[i] by {
        let c = i / m;
        if 0 <= c < chunk_count(old_port, max_frames) {
            assert(base <= base + c < base + chunk_count(old_port, max_frames));
            if base + c < inputs_a.len() {
                assert(inputs_a[base + c]@ == inputs_b[base + c]@);
            }
        }
        assert(port_b[i] == input_sample(old_port, base, inputs_b, max_frames, frames, silence, i));
    }
    assert(port_a =~= port_b);
}

/// Host inputs past the ports' channels are never read: `copy_inputs` from the
/// same buffers with two lists of host inputs that agree on every channel the
/// ports have (their first `total_channels` entries, as far as either has
/// them) leaves the same buffers.
pub proof fn lemma_extra_inputs_ignored<T>(
    old_ports: Seq<Vec<T>>,
    ports_a: Seq<Vec<T>>,
    ports_b: Seq<Vec<T>>,
    inputs_a: Seq<&[T]>,
    inputs_b: Seq<&[T]>,
    max_frames: nat,
    frames: nat,
    silence: T,
)
    requires
        max_frames > 0,
        ports_a.len() == old_ports.len(),
        ports_b.len() == old_ports.len(),
        forall|p: int|
            #![trigger ports_a[p]]
            0 <= p < old_ports.len() ==> inputs_copied(
                old_ports[p]@,
                ports_a[p]@,
                channels_before(old_ports, max_frames, p),
                inputs_a,
                max_frames,
                frames,
                silence,
            ),
        forall|p: int|
            #![trigger ports_b[p]]
            0 <= p < old_ports.len() ==> inputs_copied(
                old_ports[p]@,
                ports_b[p]@,
                channels_before(old_ports, max_frames, p),
                inputs_b,
                max_frames,
                frames,
                silence,
            ),
        inputs_agree(inputs_a, inputs_b, 0, total_channels(old_ports, max_frames)),
    ensures
        forall|p: int| 0 <= p < old_ports.len() ==> #[trigger] ports_a[p]@ == ports_b[p]@,
{
    assert forall|p: int| 0 <= p < old_ports.len() implies #[trigger] ports_a[p]@
        == ports_b[p]@ by {
        let base = channels_before(old_ports, max_frames, p);
        lemma_channels_before_monotone(old_ports, max_frames, p + 1, old_ports.len() as int);
        lemma_channels_before_nonneg(old_ports, max_frames, p);
        assert(channels_before(old_ports, max_frames, p + 1) == base + chunk_count(
            old_ports[p]@,
            max_frames,
        ));
        assert(ports_a[p] == ports_a[p]);
        assert(ports_b[p] == ports_b[p]);
        let hi = base + chunk_count(old_ports[p]@, max_frames);
        assert(hi <= total_channels(old_ports, max_frames));
        assert(0 <= base);
        lemma_inputs_agree_within(inputs_a, inputs_b, 0, total_channels(old_ports, max_frames), base, hi);
        assert(inputs_agree(inputs_a, inputs_b, base, hi));
        lemma_extra_inputs_ignored_in_port(
            old_ports[p]@,
            ports_a[p]@,
            ports_b[p]@,
            base,
            inputs_a,
            inputs_b,
            max_frames,
            frames,
            silence,
        );
    }
}

} // verus!
