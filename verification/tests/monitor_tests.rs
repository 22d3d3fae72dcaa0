use syd::audio::VolumeMonitor;
use syd::bluetooth::BtPowerMonitor;
use syd::brightness::BrightnessMonitor;
use syd::media::PlaybackMonitor;
use syd::network::NetworkMonitor;
use syd::system::BatteryMonitor;
use syd::types::{BatteryState, BatteryStatus, NetworkStatus, PlayStatus, PlaybackState};

fn adjacent_distinct(init: u32, samples: &[u32]) -> usize {
    let mut last = init;
    let mut n = 0;
    for &s in samples {
        if s != last {
            n += 1;
            last = s;
        }
    }
    n
}

#[test]
fn event_count_equals_transition_count() {
    let samples = vec![5u32, 5, 7, 7, 7, 9, 5, 5];
    let mut m = VolumeMonitor::new();
    let events = m.feed(&samples);
    assert_eq!(events.len(), adjacent_distinct(0, &samples));
    assert_eq!(events, vec![5, 7, 9, 5]);
    assert_eq!(m.read(), 5);
}

#[test]
fn equal_samples_emit_nothing() {
    let mut m = BrightnessMonitor::new();
    m.seed(40);
    assert_eq!(m.step(40), None);
    assert_eq!(m.step(40), None);
    assert_eq!(m.step(41), Some(41));
    assert_eq!(m.step(41), None);
    assert_eq!(m.read(), 41);
}

#[test]
fn battery_scenario_two_events() {
    let d = |p, s| BatteryState { percent: p, status: s };
    let mut m = BatteryMonitor::new();
    m.seed(d(30, BatteryStatus::Discharging));
    let samples = vec![
        d(30, BatteryStatus::Discharging),
        d(30, BatteryStatus::Discharging),
        d(31, BatteryStatus::Discharging),
        d(31, BatteryStatus::Charging),
    ];
    let events = m.feed(&samples);
    assert_eq!(
        events,
        vec![d(31, BatteryStatus::Discharging), d(31, BatteryStatus::Charging)]
    );
}

#[test]
fn network_monitor_starts_unknown() {
    let mut m = NetworkMonitor::new();
    assert_eq!(m.read(), NetworkStatus::Unknown);
    let events = m.feed(&vec![
        NetworkStatus::Connected,
        NetworkStatus::Connected,
        NetworkStatus::Disconnected,
    ]);
    assert_eq!(events, vec![NetworkStatus::Connected, NetworkStatus::Disconnected]);
}

#[test]
fn power_monitor_diffs_booleans() {
    let mut m = BtPowerMonitor::new();
    assert_eq!(m.step(false), None);
    assert_eq!(m.step(true), Some(true));
    assert_eq!(m.step(true), None);
    assert_eq!(m.step(false), Some(false));
    assert_eq!(m.read(), false);
}

#[test]
fn playback_monitor_emits_once_per_change() {
    let playing = |t: &str| PlaybackState {
        status: PlayStatus::Playing,
        title: t.to_string(),
        artist: "Band".to_string(),
    };
    let mut m = PlaybackMonitor::new();
    assert_eq!(m.read().status, PlayStatus::Stopped);
    assert_eq!(m.read().title, "No Media");
    let events = m.feed(vec![playing("One"), playing("One"), playing("Two")]);
    assert_eq!(events.len(), 2);
    assert_eq!(events[0].title, "One");
    assert_eq!(events[1].title, "Two");
    assert_eq!(m.read().title, "Two");
}

#[test]
fn seed_commits_without_event() {
    let mut m = VolumeMonitor::new();
    m.seed(33);
    assert_eq!(m.read(), 33);
    assert_eq!(m.step(33), None);
}
