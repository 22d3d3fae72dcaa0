//! System subsystem: battery selection and status mapping, power-profile
//! parsing, and the polling battery monitor.

use vstd::prelude::*;
use vstd::string::StringExecFns;
use crate::cache::DomainCache;
use crate::clamped;
use crate::monitor::current_value;
use crate::monitor::monitor_outputs;
use crate::text::drop_while;
use crate::text::drop_while_end;
use crate::text::lines;
use crate::text::lines_seq;
use crate::text::trim_seq;
use crate::text::trim_str;
use crate::text::strip_leading_char;
use crate::text::strip_trailing_char;
use crate::types::BatteryState;
use crate::types::BatteryStatus;

verus! {

/// The charging status named by the power daemon's state code.
pub open spec fn spec_battery_status_of(code: u32) -> BatteryStatus {
    if code == 1 {
        BatteryStatus::Charging
    } else if code == 2 {
        BatteryStatus::Discharging
    } else if code == 3 {
        BatteryStatus::Empty
    } else if code == 4 {
        BatteryStatus::FullyCharged
    } else {
        BatteryStatus::Unknown
    }
}

/// Maps the power daemon's state code to the charging status.
pub fn battery_status_of(code: u32) -> (r: BatteryStatus)
    ensures
        r == spec_battery_status_of(code),
{
    if code == 1 {
        BatteryStatus::Charging
    } else if code == 2 {
        BatteryStatus::Discharging
    } else if code == 3 {
        BatteryStatus::Empty
    } else if code == 4 {
        BatteryStatus::FullyCharged
    } else {
        BatteryStatus::Unknown
    }
}

/// The battery reading among the power daemon's enumerated devices: each
/// device is (device type, percentage, state code), and the first one of
/// the battery type (code 2) wins; absence of such a device is the valid
/// no-battery state, not an error.
pub open spec fn battery_of_devices(devs: Seq<(u32, u32, u32)>) -> BatteryState
    decreases devs.len(),
{
    if devs.len() == 0 {
        BatteryState { percent: 0, status: BatteryStatus::NoBattery }
    } else if devs[0].0 == 2 {
        BatteryState { percent: clamped(devs[0].1), status: spec_battery_status_of(devs[0].2) }
    } else {
        battery_of_devices(devs.skip(1))
    }
}

/// Selects the battery reading out of the enumerated devices.
pub fn select_battery(devs: &Vec<(u32, u32, u32)>) -> (r: BatteryState)
    ensures
        r == battery_of_devices(devs@),
{
    let mut i: usize = 0;
    proof {
        assert(devs@.skip(0) =~= devs@);
    }
    while i < devs.len()
        invariant
            i <= devs@.len(),
            battery_of_devices(devs@) == battery_of_devices(devs@.skip(i as int)),
        decreases devs@.len() - i,
    {
        proof {
            assert(devs@.skip(i as int)[0] == devs@[i as int]);
            assert(devs@.skip(i as int).skip(1) =~= devs@.skip(i + 1));
        }
        let d = devs[i];
        if d.0 == 2 {
            let percent = if d.1 <= 100 {
                d.1
            } else {
                100
            };
            let status = battery_status_of(d.2);
            return BatteryState { percent, status };
        }
        i = i + 1;
    }
    proof {
        assert(devs@.skip(devs@.len() as int) =~= Seq::<(u32, u32, u32)>::empty());
    }
    BatteryState { percent: 0, status: BatteryStatus::NoBattery }
}

/// The profile a listing line names: a trimmed line ending in a colon,
/// without its leading asterisks (the active marker) and trailing colons.
pub open spec fn profile_of_line(l: Seq<char>) -> Option<Seq<char>> {
    let t = trim_seq(l);
    if t.len() > 0 && t.last() == ':' {
        Some(
            drop_while_end(
                trim_seq(drop_while(t, |c: char| c == '*')),
                |c: char| c == ':',
            ),
        )
    } else {
        None
    }
}

/// The profiles of the whole listing, in listing order.
pub open spec fn profiles_of(ls: Seq<Seq<char>>) -> Seq<Seq<char>>
    decreases ls.len(),
{
    if ls.len() == 0 {
        Seq::empty()
    } else {
        profiles_of(ls.drop_last()) + (match profile_of_line(ls.last()) {
            Some(p) => seq![p],
            None => Seq::empty(),
        })
    }
}

/// The power profiles named in the tool's listing; when the listing names
/// none, the two stock profiles stand in.
pub fn parse_power_profiles(out: &str) -> (r: Vec<String>)
    ensures
        r@.map_values(|p: String| p@) == (if profiles_of(lines_seq(out@)).len() > 0 {
            profiles_of(lines_seq(out@))
        } else {
            seq!["balanced"@, "power-saver"@]
        }),
{
    let ls = lines(out);
    let ghost lviews = ls@.map_values(|x: String| x@);
    let mut profiles: Vec<String> = Vec::new();
    let mut i: usize = 0;
    proof {
        assert(lviews =~= lines_seq(out@));
        assert(lviews.take(0) =~= Seq::<Seq<char>>::empty());
        assert(profiles@.map_values(|p: String| p@) =~= profiles_of(lviews.take(0)));
    }
    while i < ls.len()
        invariant
            i <= ls@.len(),
            lviews == ls@.map_values(|x: String| x@),
            profiles@.map_values(|p: String| p@) == profiles_of(lviews.take(i as int)),
        decreases ls@.len() - i,
    {
        proof {
            assert(lviews.take(i + 1).drop_last() =~= lviews.take(i as int));
            assert(lviews.take(i + 1).last() == lviews[i as int]);
        }
        let t = trim_str(ls[i].as_str());
        let tn = t.as_str().unicode_len();
        let ends_colon = tn > 0 && t.as_str().get_char(tn - 1) == ':';
        if ends_colon {
            let unstarred = strip_leading_char(t.as_str(), '*');
            let trimmed = trim_str(unstarred.as_str());
            let name = strip_trailing_char(trimmed.as_str(), ':');
            proof {
                assert(t@.last() == ':');
                assert(profile_of_line(lviews[i as int]) == Some(name@));
                assert((profiles@.push(name)).map_values(|p: String| p@) =~= profiles_of(
                    lviews.take(i + 1),
                ));
            }
            profiles.push(name);
        } else {
            proof {
                if t@.len() > 0 {
                    assert(t@.last() != ':');
                }
                assert(profiles_of(lviews.take(i + 1)) =~= profiles_of(lviews.take(i as int)));
            }
        }
        i = i + 1;
    }
    proof {
        assert(lviews.take(lviews.len() as int) =~= lviews);
    }
    if profiles.len() > 0 {
        profiles
    } else {
        let mut stock: Vec<String> = Vec::new();
        stock.push(String::from_str("balanced"));
        stock.push(String::from_str("power-saver"));
        proof {
            assert(stock@.map_values(|p: String| p@) =~= seq!["balanced"@, "power-saver"@]);
        }
        stock
    }
}

/// The current profile named in the tool's reply: the reply, trimmed.
pub fn parse_current_profile(out: &str) -> (r: String)
    ensures
        r@ == trim_seq(out@),
{
    trim_str(out)
}

/// The system subsystem's bus face; every operation is an external tool or
/// power-daemon invocation around the parsing above.
pub struct SystemService;

/// Keeps the battery cache synchronized with the polled reading and emits
/// one change event per observed transition.
pub struct BatteryMonitor {
    cache: DomainCache<BatteryState>,
}

impl BatteryMonitor {
    /// The cached battery reading, for contracts.
    pub closed spec fn value(self) -> BatteryState {
        self.cache.spec_value()
    }

    /// A monitor whose cache starts at zero percent, status unknown.
    pub fn new() -> (r: Self)
        ensures
            r.value() == (BatteryState { percent: 0, status: BatteryStatus::Unknown }),
    {
        BatteryMonitor {
            cache: DomainCache::new(
                BatteryState { percent: 0, status: BatteryStatus::Unknown },
            ),
        }
    }

    /// The last committed battery reading.
    pub fn read(&self) -> (r: BatteryState)
        ensures
            r == self.value(),
    {
        self.cache.read()
    }

    /// The startup seed: one best-effort read is committed without any
    /// event being emitted.
    pub fn seed(&mut self, v: BatteryState)
        ensures
            final(self).value() == v,
    {
        self.cache.write(v);
    }

    /// One polling cycle: diff the fresh reading against the cache; on a
    /// difference commit it and emit exactly one change event carrying it.
    pub fn step(&mut self, sample: BatteryState) -> (emit: Option<BatteryState>)
        ensures
            final(self).value() == sample,
            emit == (if sample == old(self).value() {
                None::<BatteryState>
            } else {
                Some(sample)
            }),
            monitor_outputs(old(self).value(), seq![sample]) == (match emit {
                None => Seq::<BatteryState>::empty(),
                Some(e) => seq![e],
            }),
    {
        proof {
            let init = old(self).value();
            assert(seq![sample].skip(1) =~= Seq::<BatteryState>::empty());
            assert(monitor_outputs(init, Seq::<BatteryState>::empty()) =~= Seq::<
                BatteryState,
            >::empty());
            assert(monitor_outputs(sample, Seq::<BatteryState>::empty()) =~= Seq::<
                BatteryState,
            >::empty());
            if sample == init {
                assert(monitor_outputs(init, seq![sample]) =~= Seq::<BatteryState>::empty());
            } else {
                assert(monitor_outputs(init, seq![sample]) =~= seq![sample]);
            }
        }
        let cur = self.cache.read();
        if sample == cur {
            None
        } else {
            self.cache.write(sample);
            Some(sample)
        }
    }

    /// Feeds a whole sequence of readings: the emitted events are exactly
    /// the value transitions, in order.
    pub fn feed(&mut self, samples: &Vec<BatteryState>) -> (events: Vec<BatteryState>)
        ensures
            events@ == monitor_outputs(old(self).value(), samples@),
            final(self).value() == current_value(old(self).value(), samples@),
    {
        let ghost init = self.value();
        let mut events: Vec<BatteryState> = Vec::new();
        let mut i: usize = 0;
        proof {
            assert(samples@.take(0) =~= Seq::<BatteryState>::empty());
            assert(events@ =~= monitor_outputs(init, samples@.take(0)));
        }
        while i < samples.len()
            invariant
                i <= samples@.len(),
                events@ == monitor_outputs(init, samples@.take(i as int)),
                self.value() == current_value(init, samples@.take(i as int)),
            decreases samples@.len() - i,
        {
            proof {
                crate::monitor::lemma_monitor_outputs_push(
                    init,
                    samples@.take(i as int),
                    samples@[i as int],
                );
                assert(samples@.take(i as int).push(samples@[i as int]) =~= samples@.take(i + 1));
            }
            let e = self.step(samples[i]);
            match e {
                Some(v) => {
                    events.push(v);
                },
                None => {},
            }
            i = i + 1;
        }
        proof {
            assert(samples@.take(samples@.len() as int) =~= samples@);
        }
        events
    }
}

} // verus!
