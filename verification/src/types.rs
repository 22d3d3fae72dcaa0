//! Plain data carried between the daemon, its monitors and its clients.

use vstd::prelude::*;

verus! {

/// One wireless network row produced by a scan. Entries of one scan are
/// unique by `ssid` and at most one entry is `active`.
#[derive(Debug, PartialEq, Eq)]
pub struct WifiNet {
    pub ssid: String,
    pub strength: u8,
    pub security: String,
    pub known: bool,
    pub active: bool,
}

/// Mathematical image of a `WifiNet`: the strings as character sequences.
#[verifier::ext_equal]
pub ghost struct WifiNetView {
    pub ssid: Seq<char>,
    pub strength: u8,
    pub security: Seq<char>,
    pub known: bool,
    pub active: bool,
}

impl View for WifiNet {
    type V = WifiNetView;

    open spec fn view(&self) -> WifiNetView {
        WifiNetView {
            ssid: self.ssid@,
            strength: self.strength,
            security: self.security@,
            known: self.known,
            active: self.active,
        }
    }
}

impl Clone for WifiNet {
    fn clone(&self) -> (r: Self)
        ensures
            r == *self,
    {
        WifiNet {
            ssid: self.ssid.clone(),
            strength: self.strength,
            security: self.security.clone(),
            known: self.known,
            active: self.active,
        }
    }
}

/// An audio sink or source as reported by the sound server.
#[derive(Debug, PartialEq, Eq)]
pub struct AudioDevice {
    pub name: String,
    pub description: String,
}

impl Clone for AudioDevice {
    fn clone(&self) -> (r: Self)
        ensures
            r == *self,
    {
        AudioDevice { name: self.name.clone(), description: self.description.clone() }
    }
}

/// One short-range radio peripheral as reported by the control tool.
#[derive(Debug, PartialEq, Eq)]
pub struct BtDevice {
    pub mac: String,
    pub name: String,
    pub connected: bool,
}

impl Clone for BtDevice {
    fn clone(&self) -> (r: Self)
        ensures
            r == *self,
    {
        BtDevice { mac: self.mac.clone(), name: self.name.clone(), connected: self.connected }
    }
}

/// One alert as received from a producer; never mutated after creation.
#[derive(Debug, PartialEq, Eq)]
pub struct NotifData {
    pub summary: String,
    pub body: String,
    pub app_name: String,
}

impl Clone for NotifData {
    fn clone(&self) -> (r: Self)
        ensures
            r == *self,
    {
        NotifData {
            summary: self.summary.clone(),
            body: self.body.clone(),
            app_name: self.app_name.clone(),
        }
    }
}

/// Charging status of the battery. Absence of hardware is a valid terminal
/// value, not an error.
#[derive(Clone, Copy, Debug, PartialEq, Eq, Structural)]
pub enum BatteryStatus {
    Charging,
    Discharging,
    Empty,
    FullyCharged,
    Unknown,
    NoBattery,
}

impl BatteryStatus {
    /// The stable name of this status on the message bus.
    pub fn label(&self) -> (r: String)
        ensures
            r@ == self.spec_label(),
    {
        match self {
            BatteryStatus::Charging => String::from_str("Charging"),
            BatteryStatus::Discharging => String::from_str("Discharging"),
            BatteryStatus::Empty => String::from_str("Empty"),
            BatteryStatus::FullyCharged => String::from_str("Fully Charged"),
            BatteryStatus::Unknown => String::from_str("Unknown"),
            BatteryStatus::NoBattery => String::from_str("No Battery"),
        }
    }

    pub open spec fn spec_label(&self) -> Seq<char> {
        match self {
            BatteryStatus::Charging => "Charging"@,
            BatteryStatus::Discharging => "Discharging"@,
            BatteryStatus::Empty => "Empty"@,
            BatteryStatus::FullyCharged => "Fully Charged"@,
            BatteryStatus::Unknown => "Unknown"@,
            BatteryStatus::NoBattery => "No Battery"@,
        }
    }
}

/// Last observed battery reading: percentage and charging status.
#[derive(Clone, Copy, Debug, PartialEq, Eq, Structural)]
pub struct BatteryState {
    pub percent: u32,
    pub status: BatteryStatus,
}

/// Connectivity as last reported by the network tool.
#[derive(Clone, Copy, Debug, PartialEq, Eq, Structural)]
pub enum NetworkStatus {
    Connected,
    Disconnected,
    Unknown,
}

impl NetworkStatus {
    /// The stable name of this status on the message bus.
    pub fn label(&self) -> (r: String)
        ensures
            r@ == self.spec_label(),
    {
        match self {
            NetworkStatus::Connected => String::from_str("Connected"),
            NetworkStatus::Disconnected => String::from_str("Disconnected"),
            NetworkStatus::Unknown => String::from_str("Unknown"),
        }
    }

    pub open spec fn spec_label(&self) -> Seq<char> {
        match self {
            NetworkStatus::Connected => "Connected"@,
            NetworkStatus::Disconnected => "Disconnected"@,
            NetworkStatus::Unknown => "Unknown"@,
        }
    }
}

/// Media player transport status.
#[derive(Clone, Copy, Debug, PartialEq, Eq, Structural)]
pub enum PlayStatus {
    Playing,
    Paused,
    Stopped,
}

/// Last values re-derived from the player each poll; nothing is cached
/// between client queries.
#[derive(Debug, PartialEq, Eq)]
pub struct PlaybackState {
    pub status: PlayStatus,
    pub title: String,
    pub artist: String,
}

/// Mathematical image of a `PlaybackState`.
#[verifier::ext_equal]
pub ghost struct PlaybackView {
    pub status: PlayStatus,
    pub title: Seq<char>,
    pub artist: Seq<char>,
}

impl View for PlaybackState {
    type V = PlaybackView;

    open spec fn view(&self) -> PlaybackView {
        PlaybackView { status: self.status, title: self.title@, artist: self.artist@ }
    }
}

impl Clone for PlaybackState {
    fn clone(&self) -> (r: Self)
        ensures
            r == *self,
    {
        PlaybackState {
            status: self.status,
            title: self.title.clone(),
            artist: self.artist.clone(),
        }
    }
}

/// One tagged change notification as seen by a client of the daemon.
#[derive(Debug, PartialEq)]
pub enum SydEvent {
    Volume(u32),
    Brightness(u32),
    Media { status: String, title: String, artist: String },
    Battery(u32, String),
    NetworkState(String),
    BtPower(bool),
    Notification(NotifData),
    TrayItem(String),
}

impl Clone for SydEvent {
    fn clone(&self) -> (r: Self)
        ensures
            r == *self,
    {
        match self {
            SydEvent::Volume(v) => SydEvent::Volume(*v),
            SydEvent::Brightness(v) => SydEvent::Brightness(*v),
            SydEvent::Media { status, title, artist } => SydEvent::Media {
                status: status.clone(),
                title: title.clone(),
                artist: artist.clone(),
            },
            SydEvent::Battery(p, s) => SydEvent::Battery(*p, s.clone()),
            SydEvent::NetworkState(s) => SydEvent::NetworkState(s.clone()),
            SydEvent::BtPower(b) => SydEvent::BtPower(*b),
            SydEvent::Notification(n) => SydEvent::Notification(n.clone()),
            SydEvent::TrayItem(s) => SydEvent::TrayItem(s.clone()),
        }
    }
}

} // verus!
