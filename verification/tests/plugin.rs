use firewheel_clap_node::plugin::{
    find_plugin_descriptor, host_info, param_display_name, parameters_log, plugin_display_name,
    plugin_id_bytes, plugin_log_record, select_plugin, ClapNodeError, ClapPluginNodeConfig,
    LogLevel, LogSeverity, PluginSelection,
};

fn config(id: &str) -> ClapPluginNodeConfig {
    ClapPluginNodeConfig {
        path: "target/bundled/delay_plugin.clap".into(),
        id: id.to_string(),
        num_input_channels: 2,
        num_output_channels: 2,
    }
}

#[test]
fn plain_ids_become_c_string_bytes() {
    let bytes = plugin_id_bytes("firewheel_clap_node.delay").unwrap();
    assert_eq!(bytes, b"firewheel_clap_node.delay".to_vec());
    assert_eq!(plugin_id_bytes("").unwrap(), Vec::<u8>::new());
}

#[test]
fn ids_with_nul_are_refused() {
    match plugin_id_bytes("ab\0c\0") {
        Err(ClapNodeError::ParseIDFailed(e)) => {
            assert_eq!(e.nul_position, 2);
            assert_eq!(e.bytes, b"ab\0c\0".to_vec());
        }
        other => panic!("unexpected {other:?}"),
    }
}

#[test]
fn descriptors_are_searched_in_order() {
    let ids = vec![None, Some(b"a".to_vec()), Some(b"b".to_vec()), Some(b"b".to_vec())];
    assert_eq!(find_plugin_descriptor(&ids, &b"b".to_vec()).unwrap(), 2);
    assert_eq!(find_plugin_descriptor(&ids, &b"a".to_vec()).unwrap(), 1);
    assert!(matches!(find_plugin_descriptor(&ids, &b"c".to_vec()), Err(ClapNodeError::IDNotFound)));
    assert!(matches!(find_plugin_descriptor(&vec![], &b"".to_vec()), Err(ClapNodeError::IDNotFound)));
}

#[test]
fn plugin_selection() {
    let ids = vec![Some(b"other".to_vec()), Some(b"firewheel_clap_node.delay".to_vec())];
    let sel = select_plugin(&config("firewheel_clap_node.delay"), Some(&ids)).unwrap();
    assert_eq!(
        sel,
        PluginSelection { id: b"firewheel_clap_node.delay".to_vec(), descriptor_index: 1 }
    );
    assert!(matches!(
        select_plugin(&config("firewheel_clap_node.delay"), None),
        Err(ClapNodeError::MissingPluginFactory)
    ));
    assert!(matches!(
        select_plugin(&config("bad\0id"), None),
        Err(ClapNodeError::MissingPluginFactory)
    ));
    assert!(matches!(
        select_plugin(&config("bad\0id"), Some(&ids)),
        Err(ClapNodeError::ParseIDFailed(_))
    ));
    assert!(matches!(select_plugin(&config("missing"), Some(&ids)), Err(ClapNodeError::IDNotFound)));
}

#[test]
fn default_config_is_empty() {
    let c = ClapPluginNodeConfig::default();
    assert_eq!(c.id, "");
    assert_eq!(c.path, std::path::PathBuf::new());
    assert_eq!(c.num_input_channels, 0);
    assert_eq!(c.num_output_channels, 0);
}

#[test]
fn names_default_to_unknown() {
    assert_eq!(plugin_display_name(Some("Delay".to_string())), "Delay");
    assert_eq!(plugin_display_name(None), "Unknown");
    assert_eq!(param_display_name(b"Delay in Seconds"), "Delay in Seconds");
    assert_eq!(param_display_name(&[0xff, 0x41]), "Unknown");
    assert_eq!(param_display_name("Größe".as_bytes()), "Größe");
}

#[test]
fn parameter_listing() {
    let infos = vec![
        Some((95467907u32, b"Delay in Seconds".to_vec())),
        None,
        Some((0u32, b"Say \"hi\"".to_vec())),
        Some((10u32, vec![0xc3])),
    ];
    assert_eq!(
        parameters_log(&infos),
        "[Parameters]\n- 95467907: \"Delay in Seconds\"\n- 0: \"Say \\\"hi\\\"\"\n- 10: \"Unknown\"\n"
    );
    assert_eq!(parameters_log(&vec![]), "[Parameters]\n");
    assert_eq!(parameters_log(&vec![Some((u32::MAX, b"x".to_vec()))]), "[Parameters]\n- 4294967295: \"x\"\n");
}

#[test]
fn log_records() {
    assert_eq!(plugin_log_record(LogSeverity::Debug, "d"), (LogLevel::Debug, "d".to_string()));
    assert_eq!(plugin_log_record(LogSeverity::Info, "i"), (LogLevel::Info, "i".to_string()));
    assert_eq!(plugin_log_record(LogSeverity::Warning, "w"), (LogLevel::Warn, "w".to_string()));
    assert_eq!(plugin_log_record(LogSeverity::Error, "e"), (LogLevel::Error, "e".to_string()));
    assert_eq!(
        plugin_log_record(LogSeverity::Fatal, "boom"),
        (LogLevel::Error, "[FATAL] boom".to_string())
    );
    assert_eq!(
        plugin_log_record(LogSeverity::HostMisbehaving, "h"),
        (LogLevel::Warn, "[HOST MISBEHAVING] h".to_string())
    );
    assert_eq!(
        plugin_log_record(LogSeverity::PluginMisbehaving, "p"),
        (LogLevel::Warn, "[PLUGIN MISBEHAVING] p".to_string())
    );
}

#[test]
fn host_info_describes_this_host() {
    let info = host_info("0.1.0");
    assert_eq!(info.name().to_str().unwrap(), "Firewheel Clap Plugin Node Host");
    assert_eq!(info.vendor().to_str().unwrap(), "Firewheel");
    assert_eq!(info.url().to_str().unwrap(), "https://github.com/IRSMsoso/firewheel_clap_node");
    assert_eq!(info.version().to_str().unwrap(), "0.1.0");
}

#[test]
fn configs_clone_field_for_field() {
    let original = config("firewheel_clap_node.delay");
    let copy = original.clone();
    assert_eq!(copy, original);
    assert_eq!(copy.path, std::path::PathBuf::from("target/bundled/delay_plugin.clap"));
    assert_eq!(copy.num_output_channels, 2);
}
