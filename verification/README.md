# firewheel_clap_node

A Firewheel audio node that hosts a CLAP plugin, with its host-side logic
verified by Verus.

- `src/` is the verified library:
  - `float_bits`: `f64` equality decided on `f64::to_bits` patterns;
  - `params`: the node's parameter map, its diffing into parameter events
    and its patching back from them, with the diff/patch round-trip laws for the node and for the map alone;
  - `buffers`: the processor's port buffers, the copying of audio between
    the host's channels and the plugin's ports (sized by the configured
    channel counts), the windows in which the plugin finds its channels (the
    head of each channel of `max_frames` samples), the
    block status, with the pass-through laws and the law that host inputs past
    the ports' channels are never read;
  - `plugin`: plugin selection from a bundle's descriptors, the node's
    errors and configuration, plugin and parameter names, the parameter
    listing, the routing of the plugin's log messages, the host description.
- `app/` holds what runs around it: loading the bundle, creating and
  activating the plugin through Clack, the Firewheel `AudioNode` and
  `AudioNodeProcessor` impls, and logging.
- `tests/` exercises the library on concrete values.
