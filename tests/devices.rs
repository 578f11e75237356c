use cli_utils::alias::{address_is_canonical, DeviceEntry, DeviceMap};
use cli_utils::connected::{device_address, parse_devices_connected};
use cli_utils::error::BconnectError;
use cli_utils::plan::{plan_commands, select_action, Action, DeviceCommand};
use cli_utils::rect::Rect;

#[test]
fn parses_listing_of_two_devices() {
    let out = "Device AC:80:0A:27:99:3E WF-1000XM5\nDevice FC:91:5D:70:51:41 Alexander's Pixel Buds Pro 2\n";
    let r = parse_devices_connected(out);
    assert_eq!(r, vec!["AC:80:0A:27:99:3E".to_string(), "FC:91:5D:70:51:41".to_string()]);
}

#[test]
fn parses_record_of_exactly_24_characters() {
    let r = parse_devices_connected("Device AC:80:0A:27:99:3E");
    assert_eq!(r, vec!["AC:80:0A:27:99:3E".to_string()]);
}

#[test]
fn short_lines_are_skipped() {
    let out = "Waiting\n\nDevice AC:80:0A:27:99:3E X\nshort line here 23 char\n";
    let r = parse_devices_connected(out);
    assert_eq!(r, vec!["AC:80:0A:27:99:3E".to_string()]);
}

#[test]
fn empty_listing_gives_no_devices() {
    assert!(parse_devices_connected("").is_empty());
    assert!(parse_devices_connected(" \n\t\n").is_empty());
}

#[test]
fn listing_is_trimmed_first() {
    let out = "\n  Device 14:3F:A6:E7:9B:4F WH-1000XM4  \n";
    let r = parse_devices_connected(out);
    assert_eq!(r, vec!["14:3F:A6:E7:9B:4F".to_string()]);
}

#[test]
fn device_address_of_one_line() {
    assert_eq!(device_address("Device 30:50:75:C7:3D:B7 Jabra").unwrap(), "30:50:75:C7:3D:B7");
    assert!(device_address("Device 30:50:75:C7:3D:B").is_none());
}

#[test]
fn known_aliases_resolve_to_their_addresses() {
    let m = DeviceMap::standard();
    let expected = [
        ("buds", "B0:4A:6A:C9:DF:0C"),
        ("jabra", "30:50:75:C7:3D:B7"),
        ("link", "F8:4E:17:75:18:A2"),
        ("pbuds", "FC:91:5D:70:51:41"),
        ("tw4", "80:C3:BA:55:83:B1"),
        ("xm4", "14:3F:A6:E7:9B:4F"),
        ("xm5", "AC:80:0A:27:99:3E"),
    ];
    for (alias, address) in expected {
        assert_eq!(m.resolve(alias).unwrap(), address);
    }
    assert_eq!(m.aliases().len(), 7);
}

#[test]
fn unknown_alias_is_an_error() {
    let m = DeviceMap::standard();
    match m.resolve("Buds") {
        Err(BconnectError::BadDeviceString(s)) => assert_eq!(s, "Buds"),
        other => panic!("unexpected {:?}", other),
    }
    assert!(matches!(m.resolve(""), Err(BconnectError::BadDeviceString(_))));
}

#[test]
fn map_from_entries_checks_rows() {
    let ok = DeviceMap::from_entries(vec![
        DeviceEntry::new("a", "00:11:22:33:44:55"),
        DeviceEntry::new("b", "AA:BB:CC:DD:EE:FF"),
    ]);
    assert_eq!(ok.unwrap().resolve("b").unwrap(), "AA:BB:CC:DD:EE:FF");
    let dup = DeviceMap::from_entries(vec![
        DeviceEntry::new("a", "00:11:22:33:44:55"),
        DeviceEntry::new("a", "AA:BB:CC:DD:EE:FF"),
    ]);
    assert!(dup.is_none());
    let bad = DeviceMap::from_entries(vec![DeviceEntry::new("a", "aa:bb:cc:dd:ee:ff")]);
    assert!(bad.is_none());
}

#[test]
fn canonical_address_form() {
    assert!(address_is_canonical("B0:4A:6A:C9:DF:0C"));
    assert!(!address_is_canonical("B0:4A:6A:C9:DF:0"));
    assert!(!address_is_canonical("B0-4A-6A-C9-DF-0C"));
    assert!(!address_is_canonical("G0:4A:6A:C9:DF:0C"));
}

#[test]
fn both_or_neither_input_is_a_usage_error() {
    assert!(matches!(select_action(Some("buds".to_string()), true), Err(BconnectError::Usage)));
    assert!(matches!(select_action(None, false), Err(BconnectError::Usage)));
    assert!(matches!(select_action(None, true), Ok(Action::DisconnectAll)));
    match select_action(Some("buds".to_string()), false) {
        Ok(Action::ConnectAlias(a)) => assert_eq!(a, "buds"),
        other => panic!("unexpected {:?}", other),
    }
}

fn addrs(v: &[&str]) -> Vec<String> {
    v.iter().map(|s| s.to_string()).collect()
}

#[test]
fn connected_alias_is_disconnected_then_connected() {
    let m = DeviceMap::standard();
    let connected = addrs(&["AC:80:0A:27:99:3E", "B0:4A:6A:C9:DF:0C"]);
    let cs = plan_commands(&m, &Action::ConnectAlias("buds".to_string()), &connected).unwrap();
    assert_eq!(cs.len(), 2);
    assert!(matches!(&cs[0], DeviceCommand::Disconnect(a) if a == "B0:4A:6A:C9:DF:0C"));
    assert!(matches!(&cs[1], DeviceCommand::Connect(a) if a == "B0:4A:6A:C9:DF:0C"));
}

#[test]
fn unconnected_alias_is_only_connected() {
    let m = DeviceMap::standard();
    let connected = addrs(&["AC:80:0A:27:99:3E"]);
    let cs = plan_commands(&m, &Action::ConnectAlias("jabra".to_string()), &connected).unwrap();
    assert_eq!(cs.len(), 1);
    assert!(matches!(&cs[0], DeviceCommand::Connect(a) if a == "30:50:75:C7:3D:B7"));
}

#[test]
fn disconnect_all_disconnects_each_in_order() {
    let m = DeviceMap::standard();
    let connected = addrs(&["AC:80:0A:27:99:3E", "B0:4A:6A:C9:DF:0C"]);
    let cs = plan_commands(&m, &Action::DisconnectAll, &connected).unwrap();
    assert_eq!(cs.len(), 2);
    assert!(matches!(&cs[0], DeviceCommand::Disconnect(a) if a == "AC:80:0A:27:99:3E"));
    assert!(matches!(&cs[1], DeviceCommand::Disconnect(a) if a == "B0:4A:6A:C9:DF:0C"));
    assert!(plan_commands(&m, &Action::DisconnectAll, &Vec::new()).unwrap().is_empty());
}

#[test]
fn plan_for_unknown_alias_is_an_error() {
    let m = DeviceMap::standard();
    let r = plan_commands(&m, &Action::ConnectAlias("nope".to_string()), &Vec::new());
    assert!(matches!(r, Err(BconnectError::BadDeviceString(s)) if s == "nope"));
}

#[test]
fn rect_area() {
    let r = Rect { width: 4, height: 6 };
    assert_eq!(r.area(), 24);
    assert_eq!(Rect { width: 0, height: 9 }.area(), 0);
    assert_eq!(Rect { width: 65536, height: 65535 }.area(), 4294901760);
}
