use syd::audio::{is_sink_change, parse_device_list, parse_volume_output, select_devices, AudioService};
use syd::bluetooth::{
    connect_command_arg, parse_connected, parse_devices_output, parse_powered, power_command_arg,
    BluetoothService,
};
use syd::brightness::{parse_brightness_output, BrightnessService};
use syd::media::{parse_metadata, parse_metadata_line};
use syd::network::{
    build_networks, classify_connect, classify_state, connect_requires_reset, parse_scan_rows,
    pick_active_ssid, scan_from_output, sort_networks,
};
use syd::system::{battery_status_of, parse_current_profile, parse_power_profiles, select_battery};
use syd::text::{contains_str, lines, parse_u32_str, parse_u8_str, remove_char, split_str, tokens, trim_str};
use syd::types::{AudioDevice, BatteryStatus, NetworkStatus, PlayStatus};

#[test]
fn volume_output_second_field() {
    let out = "Volume: front-left: 39321 /  60% / -13.31 dB,   front-right: 39321 /  60% / -13.31 dB";
    assert_eq!(parse_volume_output(out), Some(60));
    assert_eq!(parse_volume_output("no slash here"), None);
    assert_eq!(parse_volume_output("a / junk / b"), Some(0));
}

#[test]
fn sink_change_lines() {
    assert!(is_sink_change("Event 'change' on sink #55"));
    assert!(!is_sink_change("Event 'new' on client #12"));
    assert!(!is_sink_change("Event 'change' on source #3"));
}

#[test]
fn device_listing_drops_monitor_taps() {
    let json = br#"[{"name":"alsa_output.pci","description":"Speakers"},
                    {"name":"alsa_output.pci.monitor","description":"Monitor of Speakers"}]"#;
    let devs = parse_device_list(json);
    assert_eq!(
        devs,
        vec![AudioDevice { name: "alsa_output.pci".to_string(), description: "Speakers".to_string() }]
    );
    assert!(parse_device_list(b"not json").is_empty());
}

#[test]
fn select_devices_keeps_order() {
    let rows = vec![
        ("a".to_string(), "A".to_string()),
        ("b.monitor".to_string(), "B".to_string()),
        ("c".to_string(), "C".to_string()),
    ];
    let devs = select_devices(rows);
    assert_eq!(devs.len(), 2);
    assert_eq!(devs[0].name, "a");
    assert_eq!(devs[1].name, "c");
}

#[test]
fn volume_cache_and_command_are_clamped() {
    let mut svc = AudioService::new();
    assert_eq!(svc.get_volume(), 0);
    assert_eq!(svc.set_volume(150), 100);
    assert_eq!(svc.get_volume(), 100);
    assert_eq!(svc.set_volume(42), 42);
    assert_eq!(svc.get_volume(), 42);
    svc.store_volume(153);
    assert_eq!(svc.get_volume(), 100);
}

#[test]
fn brightness_output_fourth_field() {
    assert_eq!(
        parse_brightness_output("intel_backlight,backlight,48000,50%,96000"),
        Some(50)
    );
    assert_eq!(parse_brightness_output("a,b,c"), None);
    let mut svc = BrightnessService::new();
    assert_eq!(svc.set_brightness(70), 70);
    assert_eq!(svc.get_brightness(), 70);
    assert_eq!(svc.set_brightness(150), 100);
    assert_eq!(svc.get_brightness(), 100);
}

#[test]
fn metadata_full_line_and_fallback() {
    let s = parse_metadata("Playing|Blue Train|John Coltrane");
    assert_eq!(s.status, PlayStatus::Playing);
    assert_eq!(s.title, "Blue Train");
    assert_eq!(s.artist, "John Coltrane");
    let s = parse_metadata("Paused|X|Y\n");
    assert_eq!(s.status, PlayStatus::Paused);
    let s = parse_metadata("gibberish");
    assert_eq!(s.status, PlayStatus::Stopped);
    assert_eq!(s.title, "No Media");
    assert_eq!(s.artist, "");
    assert!(parse_metadata_line("only|two").is_none());
    let s = parse_metadata_line("Stopped||").unwrap();
    assert_eq!(s.status, PlayStatus::Stopped);
    assert_eq!(s.title, "");
}

#[test]
fn bluetooth_device_lines() {
    let out = "Device AA:BB:CC:DD:EE:FF My Speaker\nDevice 11:22:33:44:55:66 Buds\nshort line\n";
    let devs = parse_devices_output(out);
    assert_eq!(devs.len(), 2);
    assert_eq!(devs[0], ("AA:BB:CC:DD:EE:FF".to_string(), "My Speaker".to_string()));
    assert_eq!(devs[1], ("11:22:33:44:55:66".to_string(), "Buds".to_string()));
}

#[test]
fn bluetooth_flags_and_args() {
    assert!(parse_connected("\tConnected: yes\n"));
    assert!(!parse_connected("Connected: no"));
    assert!(parse_powered("Powered: yes"));
    assert!(!parse_powered("Powered: no"));
    assert_eq!(power_command_arg(true), "on");
    assert_eq!(power_command_arg(false), "off");
    assert_eq!(connect_command_arg(true), "connect");
    assert_eq!(connect_command_arg(false), "disconnect");
    let mut svc = BluetoothService::new();
    assert!(!svc.get_power());
    svc.set_power(true);
    assert!(svc.get_power());
}

#[test]
fn battery_selection_and_codes() {
    let devs = vec![(1u32, 0u32, 0u32), (2, 75, 1), (2, 10, 2)];
    let b = select_battery(&devs);
    assert_eq!(b.percent, 75);
    assert_eq!(b.status, BatteryStatus::Charging);
    let none = select_battery(&vec![(1, 0, 0)]);
    assert_eq!(none.percent, 0);
    assert_eq!(none.status, BatteryStatus::NoBattery);
    assert_eq!(battery_status_of(2), BatteryStatus::Discharging);
    assert_eq!(battery_status_of(3), BatteryStatus::Empty);
    assert_eq!(battery_status_of(4), BatteryStatus::FullyCharged);
    assert_eq!(battery_status_of(9), BatteryStatus::Unknown);
    assert_eq!(select_battery(&vec![(2, 250, 1)]).percent, 100);
}

#[test]
fn status_labels() {
    assert_eq!(BatteryStatus::FullyCharged.label(), "Fully Charged");
    assert_eq!(BatteryStatus::NoBattery.label(), "No Battery");
    assert_eq!(BatteryStatus::Discharging.label(), "Discharging");
    assert_eq!(NetworkStatus::Connected.label(), "Connected");
    assert_eq!(NetworkStatus::Unknown.label(), "Unknown");
}

#[test]
fn power_profile_listing() {
    let out = "  performance:\n    CpuDriver: intel_pstate\n* balanced:\n    Driver: ok\n";
    assert_eq!(parse_power_profiles(out), vec!["performance".to_string(), "balanced".to_string()]);
    assert_eq!(
        parse_power_profiles(""),
        vec!["balanced".to_string(), "power-saver".to_string()]
    );
    assert_eq!(parse_current_profile("balanced\n"), "balanced");
}

#[test]
fn network_state_classification() {
    // The state word itself decides: "disconnected" is not "connected".
    assert_eq!(
        classify_state("STATE CONNECTIVITY\nconnected full\n"),
        NetworkStatus::Connected
    );
    assert_eq!(classify_state("connected (site only) full"), NetworkStatus::Connected);
    assert_eq!(classify_state("disconnected none"), NetworkStatus::Disconnected);
    assert_eq!(classify_state("asleep"), NetworkStatus::Disconnected);
    assert_eq!(classify_state(""), NetworkStatus::Disconnected);
}

#[test]
fn active_ssid_skips_virtual_interfaces() {
    assert_eq!(pick_active_ssid("lo\ndocker0\nvirbr0\nHomeWifi\n"), "HomeWifi");
    assert_eq!(pick_active_ssid("lo\ndocker0\n"), "");
    assert_eq!(pick_active_ssid(""), "");
}

#[test]
fn connect_reply_classification() {
    assert_eq!(classify_connect(Some((true, String::new()))), "OK");
    assert_eq!(
        classify_connect(Some((false, "Error: Secrets were required, but not provided.".to_string()))),
        "PASS_REQ"
    );
    assert_eq!(classify_connect(Some((false, "boom".to_string()))), "boom");
    assert_eq!(classify_connect(None), "Error");
    assert!(connect_requires_reset("hunter2"));
    assert!(!connect_requires_reset(""));
}

#[test]
fn scan_dedup_and_sort() {
    let out = "X:60:\nX:40:\nY:80:WPA2\n";
    let nets = scan_from_output(out, &"Y".to_string(), &Vec::new());
    assert_eq!(nets.len(), 2);
    assert_eq!(nets[0].ssid, "Y");
    assert_eq!(nets[0].strength, 80);
    assert!(nets[0].active);
    assert_eq!(nets[0].security, "WPA2");
    assert_eq!(nets[1].ssid, "X");
    assert_eq!(nets[1].strength, 60);
    assert!(!nets[1].active);
    assert_eq!(nets[1].security, "");
}

#[test]
fn scan_flags_known_networks_and_skips_empty_ssids() {
    let out = ":50:\nHome:70:WPA2\nCafe:90:\n";
    let known = vec!["Home".to_string()];
    let nets = scan_from_output(out, &"Home".to_string(), &known);
    assert_eq!(nets.len(), 2);
    // The active network leads even though the other is stronger.
    assert_eq!(nets[0].ssid, "Home");
    assert!(nets[0].known);
    assert!(nets[0].active);
    assert_eq!(nets[1].ssid, "Cafe");
    assert!(!nets[1].known);
}

#[test]
fn scan_orders_by_strength_within_a_class() {
    let rows = parse_scan_rows("A:10:\nB:90:\nC:50:\n");
    let nets = build_networks(&rows, &String::new(), &Vec::new());
    let sorted = sort_networks(nets);
    let ssids: Vec<&str> = sorted.iter().map(|n| n.ssid.as_str()).collect();
    assert_eq!(ssids, vec!["B", "C", "A"]);
}

#[test]
fn scan_rows_need_three_fields() {
    let rows = parse_scan_rows("A:1\nB:2:sec:extra\n");
    assert_eq!(rows.len(), 1);
    assert_eq!(rows[0], ("B".to_string(), "2".to_string(), "sec".to_string()));
}

#[test]
fn text_splitting_and_trimming() {
    assert_eq!(split_str("a:b:c", ':'), vec!["a", "b", "c"]);
    assert_eq!(split_str("", ':'), vec![""]);
    assert_eq!(split_str(":", ':'), vec!["", ""]);
    assert_eq!(lines("a\r\nb\n"), vec!["a", "b"]);
    assert_eq!(lines(""), Vec::<String>::new());
    assert_eq!(lines("a\n\nb"), vec!["a", "", "b"]);
    assert_eq!(trim_str("  x y\t\n"), "x y");
    assert_eq!(tokens("  a  bb\tc "), vec!["a", "bb", "c"]);
    assert_eq!(remove_char("6%4%", '%'), "64");
}

#[test]
fn text_search_and_numbers() {
    assert!(contains_str("hello world", "lo wo"));
    assert!(!contains_str("hello", "world"));
    assert!(contains_str("abc", ""));
    assert!(!contains_str("", "a"));
    assert_eq!(parse_u32_str("4294967295"), 4294967295);
    assert_eq!(parse_u32_str("4294967296"), 0);
    assert_eq!(parse_u32_str(""), 0);
    assert_eq!(parse_u32_str("12a"), 0);
    assert_eq!(parse_u32_str("007"), 7);
    assert_eq!(parse_u8_str("255"), 255);
    assert_eq!(parse_u8_str("256"), 0);
}
