use sudo_plugin::{Error, Ip4Addr, NetAddr, OptionMap, Settings};

fn map_of(tokens: &[&[u8]]) -> OptionMap {
    OptionMap::new(tokens.iter().map(|t| t.to_vec()).collect())
}

fn required() -> Vec<&'static [u8]> {
    vec![
        b"plugin_dir=/x".as_slice(),
        b"plugin_path=/x/p".as_slice(),
        b"progname=sudo".as_slice(),
    ]
}

#[test]
fn required_fields_resolve() {
    let settings = Settings::new(map_of(&required())).unwrap();

    assert_eq!("/x", settings.plugin_dir);
    assert_eq!("/x/p", settings.plugin_path);
    assert_eq!("sudo", settings.progname);
}

#[test]
fn omitting_any_required_field_fails() {
    let all = required();
    for omit in 0..all.len() {
        let mut tokens = all.clone();
        tokens.remove(omit);
        let result = Settings::new(map_of(&tokens));
        assert!(matches!(result, Err(Error::MissingOption(_))));
    }
}

#[test]
fn missing_required_field_error_names_it() {
    let result = Settings::new(map_of(&[b"plugin_dir=/x".as_slice()]));
    match result {
        Err(Error::MissingOption(k)) => assert_eq!("plugin_path", k),
        other => panic!("expected a missing-option error, got {:?}", other),
    }
}

#[test]
fn optional_fields_default_when_absent() {
    let settings = Settings::new(map_of(&required())).unwrap();

    assert_eq!(None, settings.bsd_auth_type);
    assert_eq!(None, settings.close_from);
    assert_eq!(None, settings.debug_flags);
    assert_eq!(None, settings.debug_level);
    assert!(!settings.ignore_ticket);
    assert!(!settings.implied_shell);
    assert_eq!(None, settings.login_class);
    assert!(!settings.login_shell);
    assert_eq!(None, settings.max_groups);
    assert!(settings.network_addrs.is_empty());
    assert!(!settings.noninteractive);
    assert!(!settings.preserve_environment);
    assert!(!settings.preserve_groups);
    assert_eq!(None, settings.prompt);
    assert_eq!(None, settings.remote_host);
    assert!(!settings.run_shell);
    assert_eq!(None, settings.runas_group);
    assert_eq!(None, settings.runas_user);
    assert_eq!(None, settings.selinux_role);
    assert_eq!(None, settings.selinux_type);
    assert!(!settings.set_home);
    assert!(!settings.sudoedit);
}

#[test]
fn optional_fields_take_supplied_values() {
    let mut tokens = required();
    tokens.push(b"closefrom=7".as_slice());
    tokens.push(b"debug_level=3".as_slice());
    tokens.push(b"prompt=Password:".as_slice());
    tokens.push(b"runas_user=alice".as_slice());
    let settings = Settings::new(map_of(&tokens)).unwrap();

    assert_eq!(Some(7), settings.close_from);
    assert_eq!(Some(3), settings.debug_level);
    assert_eq!(Some("Password:".to_string()), settings.prompt);
    assert_eq!(Some("alice".to_string()), settings.runas_user);
}

#[test]
fn boolean_fields_parse_canonically() {
    let mut tokens = required();
    tokens.push(b"login_shell=true".as_slice());
    tokens.push(b"set_home=false".as_slice());
    tokens.push(b"sudoedit=banana".as_slice());
    tokens.push(b"ignore_ticket=TRUE".as_slice());
    let settings = Settings::new(map_of(&tokens)).unwrap();

    assert!(settings.login_shell);
    assert!(!settings.set_home);
    assert!(!settings.sudoedit);
    assert!(!settings.ignore_ticket);
    assert!(!settings.run_shell);
}

#[test]
fn unparsable_optional_fields_fall_back_to_defaults() {
    let mut tokens = required();
    tokens.push(b"closefrom=lots".as_slice());
    tokens.push(b"network_addrs=10.0.0.0".as_slice());
    let settings = Settings::new(map_of(&tokens)).unwrap();

    assert_eq!(None, settings.close_from);
    assert!(settings.network_addrs.is_empty());
}

#[test]
fn network_addrs_parse_as_a_list() {
    let mut tokens = required();
    tokens.push(b"network_addrs=10.0.0.0/24 192.168.1.0/255.255.255.0".as_slice());
    let settings = Settings::new(map_of(&tokens)).unwrap();

    assert_eq!(
        vec![
            NetAddr {
                addr: Ip4Addr { o1: 10, o2: 0, o3: 0, o4: 0 },
                mask: Ip4Addr { o1: 255, o2: 255, o3: 255, o4: 0 },
            },
            NetAddr {
                addr: Ip4Addr { o1: 192, o2: 168, o3: 1, o4: 0 },
                mask: Ip4Addr { o1: 255, o2: 255, o3: 255, o4: 0 },
            },
        ],
        settings.network_addrs
    );
}

#[test]
fn one_bad_network_addr_empties_the_list() {
    let mut tokens = required();
    tokens.push(b"network_addrs=10.0.0.0/24 10.0.1.0".as_slice());
    let settings = Settings::new(map_of(&tokens)).unwrap();

    assert!(settings.network_addrs.is_empty());
}

#[test]
fn flags_emit_in_fixed_order() {
    let mut tokens = required();
    tokens.push(b"runas_user=alice".as_slice());
    tokens.push(b"runas_group=wheel".as_slice());
    tokens.push(b"login_shell=true".as_slice());
    tokens.push(b"run_shell=false".as_slice());
    let settings = Settings::new(map_of(&tokens)).unwrap();

    assert_eq!(
        vec![
            b"-u".to_vec(),
            b"alice".to_vec(),
            b"-g".to_vec(),
            b"wheel".to_vec(),
            b"-i".to_vec(),
        ],
        settings.flags()
    );
}

#[test]
fn flags_empty_when_nothing_is_set() {
    let settings = Settings::new(map_of(&required())).unwrap();

    assert!(settings.flags().is_empty());
}

#[test]
fn flags_run_shell_only() {
    let mut tokens = required();
    tokens.push(b"run_shell=true".as_slice());
    let settings = Settings::new(map_of(&tokens)).unwrap();

    assert_eq!(vec![b"-s".to_vec()], settings.flags());
}

#[test]
fn raw_map_is_retained_for_unknown_keys() {
    let mut tokens = required();
    tokens.push(b"custom_plugin_key=custom".as_slice());
    let settings = Settings::new(map_of(&tokens)).unwrap();

    assert_eq!(Some("custom"), settings.raw.get_str("custom_plugin_key"));
    assert_eq!(Some("/x"), settings.raw.get_str("plugin_dir"));
}

#[test]
fn duplicate_settings_key_uses_last_value() {
    let mut tokens = required();
    tokens.push(b"progname=sudoedit".as_slice());
    let settings = Settings::new(map_of(&tokens)).unwrap();

    assert_eq!("sudoedit", settings.progname);
}
