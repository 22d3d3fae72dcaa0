//! Brightness subsystem: the brightness cache and its polling monitor.

use vstd::prelude::*;
use crate::cache::DomainCache;
use crate::monitor::current_value;
use crate::monitor::monitor_outputs;
use crate::text::parse_u32_or_zero;
use crate::text::parse_u32_str;
use crate::text::remove_char;
use crate::text::remove_seq;
use crate::text::split_seq;
use crate::text::split_str;
use crate::text::trim_seq;
use crate::text::trim_str;

verus! {

/// The brightness percentage in the tool's machine-readable info line: the
/// fourth comma-separated field, trimmed, with the percent sign removed;
/// absent when the line has fewer fields.
pub open spec fn brightness_of_output(out: Seq<char>) -> Option<u32> {
    let p = split_seq(out, ',');
    if p.len() >= 4 {
        Some(parse_u32_or_zero(remove_seq(trim_seq(p[3]), '%')))
    } else {
        None
    }
}

/// Reads the current brightness out of the tool's info line.
pub fn parse_brightness_output(out: &str) -> (r: Option<u32>)
    ensures
        r == brightness_of_output(out@),
{
    let p = split_str(out, ',');
    if p.len() >= 4 {
        let t = trim_str(p[3].as_str());
        let d = remove_char(t.as_str(), '%');
        Some(parse_u32_str(d.as_str()))
    } else {
        None
    }
}

/// The brightness subsystem's bus face: holds the brightness cache; every
/// operation around it is an external tool invocation.
pub struct BrightnessService {
    val: DomainCache<u32>,
}

impl BrightnessService {
    /// The cached brightness percentage, for contracts.
    pub closed spec fn brightness(self) -> u32 {
        self.val.spec_value()
    }

    /// A service whose brightness cache starts at zero.
    pub fn new() -> (r: Self)
        ensures
            r.brightness() == 0,
    {
        BrightnessService { val: DomainCache::new(0) }
    }

    /// Accepts a brightness command: the requested percentage, clamped into
    /// the 0..=100 range the brightness state keeps, is cached and is also
    /// the value to pass to the tool.
    pub fn set_brightness(&mut self, p: u32) -> (cmd: u32)
        ensures
            final(self).brightness() == crate::clamped(p),
            cmd == crate::clamped(p),
    {
        let cmd = crate::clamp_percent(p);
        self.val.write(cmd);
        cmd
    }

    /// The last committed brightness, without consulting the tool.
    pub fn get_brightness(&self) -> (r: u32)
        ensures
            r == self.brightness(),
    {
        self.val.read()
    }

    /// The monitor's write path into the cache; whatever the tool reports,
    /// the cached state stays in range.
    pub fn store_brightness(&mut self, v: u32)
        ensures
            final(self).brightness() == crate::clamped(v),
    {
        self.val.write(crate::clamp_percent(v));
    }
}

/// Keeps the brightness cache synchronized with the polled tool state and
/// emits one change event per observed transition.
pub struct BrightnessMonitor {
    cache: DomainCache<u32>,
}

impl BrightnessMonitor {
    /// The cached brightness, for contracts.
    pub closed spec fn value(self) -> u32 {
        self.cache.spec_value()
    }

    /// A monitor whose cache starts at zero.
    pub fn new() -> (r: Self)
        ensures
            r.value() == 0,
    {
        BrightnessMonitor { cache: DomainCache::new(0) }
    }

    /// The last committed brightness.
    pub fn read(&self) -> (r: u32)
        ensures
            r == self.value(),
    {
        self.cache.read()
    }

    /// The startup seed: one best-effort read is committed without any
    /// event being emitted.
    pub fn seed(&mut self, v: u32)
        ensures
            final(self).value() == v,
    {
        self.cache.write(v);
    }

    /// One polling cycle: diff the fresh sample against the cache; on a
    /// difference commit it and emit exactly one change event carrying it.
    pub fn step(&mut self, sample: u32) -> (emit: Option<u32>)
        ensures
            final(self).value() == sample,
            emit == (if sample == old(self).value() {
                None::<u32>
            } else {
                Some(sample)
            }),
            monitor_outputs(old(self).value(), seq![sample]) == (match emit {
                None => Seq::<u32>::empty(),
                Some(e) => seq![e],
            }),
    {
        proof {
            let init = old(self).value();
            assert(seq![sample].skip(1) =~= Seq::<u32>::empty());
            assert(monitor_outputs(init, Seq::<u32>::empty()) =~= Seq::<u32>::empty());
            assert(monitor_outputs(sample, Seq::<u32>::empty()) =~= Seq::<u32>::empty());
            if sample == init {
                assert(monitor_outputs(init, seq![sample]) =~= Seq::<u32>::empty());
            } else {
                assert(monitor_outputs(init, seq![sample]) =~= seq![sample]);
            }
        }
        let cur = self.cache.read();
        if sample == cur {
            None
        } else {
            self.cache.write(sample);
            Some(sample)
        }
    }

    /// Feeds a whole sequence of samples: the emitted events are exactly
    /// the value transitions, in order.
    pub fn feed(&mut self, samples: &Vec<u32>) -> (events: Vec<u32>)
        ensures
            events@ == monitor_outputs(old(self).value(), samples@),
            final(self).value() == current_value(old(self).value(), samples@),
    {
        let ghost init = self.value();
        let mut events: Vec<u32> = Vec::new();
        let mut i: usize = 0;
        proof {
            assert(samples@.take(0) =~= Seq::<u32>::empty());
            assert(events@ =~= monitor_outputs(init, samples@.take(0)));
        }
        while i < samples.len()
            invariant
                i <= samples@.len(),
                events@ == monitor_outputs(init, samples@.take(i as int)),
                self.value() == current_value(init, samples@.take(i as int)),
            decreases samples@.len() - i,
        {
            proof {
                crate::monitor::lemma_monitor_outputs_push(
                    init,
                    samples@.take(i as int),
                    samples@[i as int],
                );
                assert(samples@.take(i as int).push(samples@[i as int]) =~= samples@.take(i + 1));
            }
            let e = self.step(samples[i]);
            match e {
                Some(v) => {
                    events.push(v);
                },
                None => {},
            }
            i = i + 1;
        }
        proof {
            assert(samples@.take(samples@.len() as int) =~= samples@);
        }
        events
    }
}

} // verus!
