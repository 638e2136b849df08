use govee_cli::alias::{
    alias_appendix, parse_name_or_ip, resolve_name_or_ip, AliasTable, ConfigError, Light, Lights,
};
use govee_cli::ipv4::is_ipv4_address;
use govee_cli::naming::{
    alias_from_input, auto_name_devices, filter_alias_chars, light_for_device, pending_devices,
};
use govee_cli::packet::{DevScanCmd, GoveeDeviceInfo, GoveeMessage, GoveePacket};

fn light(name: &str, ip: &str) -> Light {
    Light { name: name.to_string(), ip: ip.to_string(), mac: format!("mac-{name}") }
}

fn info(ip: &str) -> GoveeDeviceInfo {
    GoveeDeviceInfo {
        ip: ip.to_string(),
        mac: format!("m{ip}"),
        sku: "H6008".to_string(),
        bt_hard_version: String::new(),
        bt_soft_version: String::new(),
        wifi_hard_version: String::new(),
        wifi_soft_version: String::new(),
    }
}

fn handshake(ip: &str) -> GoveePacket {
    GoveePacket { msg: GoveeMessage::Handshake { cmd: DevScanCmd::Scan, data: info(ip) } }
}

fn table() -> AliasTable {
    AliasTable::from_lights(Lights {
        light: Some(vec![light("desk", "10.0.0.7"), light("lamp", "10.0.0.8"), light("desk", "10.0.0.9")]),
    })
}

#[test]
fn ipv4_addresses() {
    for ok in ["0.0.0.0", "192.168.1.10", "255.255.255.255", "10.0.0.1", "1.22.100.9"] {
        assert!(is_ipv4_address(ok), "{ok}");
    }
    for bad in [
        "", "1.2.3", "1.2.3.4.", ".1.2.3.4", "1.2.3.4.5", "256.1.1.1", "01.2.3.4", "1.2.3.00",
        "1..2.3", "a.b.c.d", "1.2.3.4 ", "１.2.3.4", "1000.1.1.1", "+1.2.3.4", "1.2.3.-4", "desk",
    ] {
        assert!(!is_ipv4_address(bad), "{bad}");
    }
}

#[test]
fn later_lights_win_in_the_table() {
    let t = table();
    assert_eq!(t.len(), 2);
    assert_eq!(t.get(&"desk".to_string()).unwrap().ip, "10.0.0.9");
    assert_eq!(t.get(&"lamp".to_string()).unwrap().ip, "10.0.0.8");
    assert!(t.get(&"sofa".to_string()).is_none());
    let mut names: Vec<String> = t.lights().iter().map(|l| l.name.clone()).collect();
    names.sort();
    assert_eq!(names, vec!["desk".to_string(), "lamp".to_string()]);
}

#[test]
fn empty_alias_file() {
    let t = AliasTable::from_lights(Lights { light: None });
    assert_eq!(t.len(), 0);
    let t = AliasTable::from_lights(Lights { light: Some(vec![]) });
    assert_eq!(t.len(), 0);
    assert_eq!(AliasTable::new().len(), 0);
}

#[test]
fn insert_then_get() {
    let mut t = table();
    t.insert(light("lamp", "10.0.0.20"));
    assert_eq!(t.get(&"lamp".to_string()).unwrap().ip, "10.0.0.20");
    assert_eq!(t.len(), 2);
    t.insert(light("porch", "10.0.0.21"));
    assert_eq!(t.len(), 3);
    assert_eq!(t.get(&"porch".to_string()).unwrap().mac, "mac-porch");
    assert_eq!(t.get(&"desk".to_string()).unwrap().ip, "10.0.0.9");
}

#[test]
fn lookup_by_address() {
    let t = table();
    assert!(t.contains_ip(&"10.0.0.9".to_string()));
    assert!(!t.contains_ip(&"10.0.0.7".to_string()));
    assert_eq!(t.alias_for_ip(&"10.0.0.8".to_string()).unwrap().name, "lamp");
    assert!(t.alias_for_ip(&"10.0.0.1".to_string()).is_none());
}

#[test]
fn names_and_addresses_resolve() {
    let mut t = table();
    let (name, ip) = parse_name_or_ip(&t, &"desk".to_string()).ok().unwrap();
    assert_eq!((name.as_str(), ip.as_str()), ("desk", "10.0.0.9"));
    let (name, ip) = parse_name_or_ip(&t, &"192.168.0.3".to_string()).ok().unwrap();
    assert_eq!((name.as_str(), ip.as_str()), ("192.168.0.3", "192.168.0.3"));
    match resolve_name_or_ip(&t, &"sofa".to_string()) {
        Err(ConfigError::AliasLookUpError(n)) => assert_eq!(n, "sofa"),
        Ok(_) => panic!("unknown alias resolved"),
    }
    match parse_name_or_ip(&t, &"sofa".to_string()) {
        Err(e) => {
            assert_eq!(e.kind(), std::io::ErrorKind::InvalidInput);
            assert_eq!(e.to_string(), "Alias 'sofa' not found.");
        }
        Ok(_) => panic!("unknown alias resolved"),
    }
    let (name, ip) = resolve_name_or_ip(&t, &"lamp".to_string()).ok().unwrap();
    assert_eq!((name.as_str(), ip.as_str()), ("lamp", "10.0.0.8"));
    t.insert(light("broken", "not-an-ip"));
    assert!(parse_name_or_ip(&t, &"broken".to_string()).is_err());
    assert!(resolve_name_or_ip(&t, &"broken".to_string()).is_err());
}

#[test]
fn appendix_separates_new_aliases() {
    assert_eq!(alias_appendix(b"", "[[light]]\n"), "[[light]]\n");
    assert_eq!(alias_appendix(b"\n", "x"), "x");
    assert_eq!(alias_appendix(b"a = 1\n", "x"), "\nx");
    assert_eq!(alias_appendix(b"a = 1\n\n", "x"), "x");
    assert_eq!(alias_appendix(b"ab", "x"), "\nx");
}

#[test]
fn typed_aliases_are_sanitized() {
    assert_eq!(alias_from_input("living room\n"), "living-room");
    assert_eq!(alias_from_input("desk_1\r\n"), "desk_1");
    assert_eq!(alias_from_input("a.b!c?"), "abc");
    assert_eq!(alias_from_input("héllo wörld"), "héllo-wörld");
    assert_eq!(alias_from_input("\n"), "");
    assert_eq!(alias_from_input(""), "");
    assert_eq!(alias_from_input("x\n\n"), "x");
}

#[test]
fn empty_alias_skips_device() {
    let d = info("10.0.0.5");
    assert!(light_for_device(String::new(), &d).is_none());
    let l = light_for_device("kitchen".to_string(), &d).unwrap();
    assert_eq!((l.name.as_str(), l.ip.as_str(), l.mac.as_str()), ("kitchen", "10.0.0.5", "m10.0.0.5"));
}

#[test]
fn pending_devices_are_unaliased_handshakes() {
    let t = table();
    let found = vec![
        handshake("10.0.0.9"),
        handshake("10.0.0.50"),
        GoveePacket { msg: govee_cli::packet::power_packet(1).msg },
        handshake("10.0.0.51"),
        handshake("10.0.0.8"),
    ];
    let pending = pending_devices(found, &t);
    let got: Vec<(usize, String)> = pending.iter().map(|(i, d)| (*i, d.ip.clone())).collect();
    assert_eq!(got, vec![(1, "10.0.0.50".to_string()), (3, "10.0.0.51".to_string())]);
}

#[test]
fn auto_names_continue_the_count() {
    let t = table();
    let found = vec![handshake("10.0.0.50"), handshake("10.0.0.9"), handshake("10.0.0.51")];
    let added = auto_name_devices(found, &t);
    let got: Vec<(String, String, String)> =
        added.iter().map(|l| (l.name.clone(), l.ip.clone(), l.mac.clone())).collect();
    assert_eq!(
        got,
        vec![
            ("dev2".to_string(), "10.0.0.50".to_string(), "m10.0.0.50".to_string()),
            ("dev3".to_string(), "10.0.0.51".to_string(), "m10.0.0.51".to_string()),
        ]
    );
}

#[test]
fn auto_names_use_decimal_numbers() {
    let mut lights = Vec::new();
    for i in 0..10 {
        lights.push(light(&format!("l{i}"), &format!("10.1.0.{i}")));
    }
    let t = AliasTable::from_lights(Lights { light: Some(lights) });
    let added = auto_name_devices(vec![handshake("10.2.0.1"), handshake("10.2.0.2")], &t);
    assert_eq!(added[0].name, "dev10");
    assert_eq!(added[1].name, "dev11");
    assert!(auto_name_devices(vec![], &t).is_empty());
}

#[test]
fn alias_chars_filtered_by_answers() {
    let chars = vec!['a', '!', '_', 'x', '-', 'é'];
    let answers = vec![true, false, false, false, false, true];
    assert_eq!(filter_alias_chars(&chars, &answers), "a_-é");
    assert_eq!(filter_alias_chars(&vec![], &vec![]), "");
}

#[test]
fn extended_alias_list_inserts_in_order() {
    let mut old = table();
    let extended = AliasTable::from_lights(Lights {
        light: Some(vec![
            light("desk", "10.0.0.7"),
            light("lamp", "10.0.0.8"),
            light("desk", "10.0.0.9"),
            light("dev2", "10.0.0.30"),
            light("lamp", "10.0.0.31"),
        ]),
    });
    old.insert(light("dev2", "10.0.0.30"));
    old.insert(light("lamp", "10.0.0.31"));
    for name in ["desk", "lamp", "dev2"] {
        assert_eq!(extended.get(&name.to_string()).unwrap().ip, old.get(&name.to_string()).unwrap().ip);
    }
    assert_eq!(extended.len(), old.len());
}
