//! Short-range radio subsystem: the power cache, the device listing parser
//! and the polling power monitor.

use vstd::prelude::*;
use vstd::string::StrSliceExecFns;
use crate::cache::DomainCache;
use crate::monitor::current_value;
use crate::monitor::monitor_outputs;
use crate::text::contains_seq;
use crate::text::contains_str;
use crate::text::join_from;
use crate::text::join_space;
use crate::text::lines;
use crate::text::lines_seq;
use crate::text::tokens;
use crate::text::tokens_seq;

verus! {

/// A device line yields its address (second token) and name (the remaining
/// tokens joined), when it has at least three whitespace-separated tokens.
pub open spec fn device_of_line(l: Seq<char>) -> Option<(Seq<char>, Seq<char>)> {
    let t = tokens_seq(l);
    if t.len() >= 3 {
        Some((t[1], join_space(t.skip(2))))
    } else {
        None
    }
}

/// The (address, name) pairs of the whole device listing.
pub open spec fn devices_of(ls: Seq<Seq<char>>) -> Seq<(Seq<char>, Seq<char>)>
    decreases ls.len(),
{
    if ls.len() == 0 {
        Seq::empty()
    } else {
        devices_of(ls.drop_last()) + (match device_of_line(ls.last()) {
            Some(d) => seq![d],
            None => Seq::empty(),
        })
    }
}

/// Parses the device listing into (address, name) pairs, in listing order.
pub fn parse_devices_output(out: &str) -> (r: Vec<(String, String)>)
    ensures
        r@.map_values(|p: (String, String)| (p.0@, p.1@)) == devices_of(lines_seq(out@)),
{
    let ls = lines(out);
    let ghost lviews = ls@.map_values(|x: String| x@);
    let mut devs: Vec<(String, String)> = Vec::new();
    let mut i: usize = 0;
    proof {
        assert(lviews.take(0) =~= Seq::<Seq<char>>::empty());
        assert(devs@.map_values(|p: (String, String)| (p.0@, p.1@)) =~= devices_of(
            lviews.take(0),
        ));
    }
    while i < ls.len()
        invariant
            i <= ls@.len(),
            lviews == ls@.map_values(|x: String| x@),
            devs@.map_values(|p: (String, String)| (p.0@, p.1@)) == devices_of(
                lviews.take(i as int),
            ),
        decreases ls@.len() - i,
    {
        let toks = tokens(ls[i].as_str());
        proof {
            assert(lviews.take(i + 1).drop_last() =~= lviews.take(i as int));
            assert(lviews.take(i + 1).last() == lviews[i as int]);
        }
        if toks.len() >= 3 {
            let mac = toks[1].clone();
            let name = join_from(&toks, 2);
            proof {
                let tv = tokens_seq(lviews[i as int]);
                assert(toks@.map_values(|p: String| p@).skip(2) =~= tv.skip(2));
                assert(mac@ == tv[1] && name@ == join_space(tv.skip(2)));
                assert((devs@.push((mac, name))).map_values(|p: (String, String)| (p.0@, p.1@))
                    =~= devices_of(lviews.take(i + 1)));
            }
            devs.push((mac, name));
        } else {
            proof {
                assert(devices_of(lviews.take(i + 1)) =~= devices_of(lviews.take(i as int)));
            }
        }
        i = i + 1;
    }
    proof {
        assert(lviews.take(lviews.len() as int) =~= lviews);
    }
    devs
}

/// Whether a device's info output reports it connected.
pub fn parse_connected(info: &str) -> (r: bool)
    ensures
        r == contains_seq(info@, "Connected: yes"@),
{
    contains_str(info, "Connected: yes")
}

/// Whether the adapter's show output reports the radio powered.
pub fn parse_powered(out: &str) -> (r: bool)
    ensures
        r == contains_seq(out@, "Powered: yes"@),
{
    contains_str(out, "Powered: yes")
}

/// The power-command word the control tool expects.
pub fn power_command_arg(enabled: bool) -> (r: String)
    ensures
        r@ == (if enabled {
            "on"@
        } else {
            "off"@
        }),
{
    if enabled {
        String::from_str("on")
    } else {
        String::from_str("off")
    }
}

/// The connect-command word the control tool expects.
pub fn connect_command_arg(connect: bool) -> (r: String)
    ensures
        r@ == (if connect {
            "connect"@
        } else {
            "disconnect"@
        }),
{
    if connect {
        String::from_str("connect")
    } else {
        String::from_str("disconnect")
    }
}

/// The radio subsystem's bus face: holds the power cache; every operation
/// around it is an external tool invocation.
pub struct BluetoothService {
    on: DomainCache<bool>,
}

impl BluetoothService {
    /// The cached power state, for contracts.
    pub closed spec fn power(self) -> bool {
        self.on.spec_value()
    }

    /// A service whose power cache starts off.
    pub fn new() -> (r: Self)
        ensures
            r.power() == false,
    {
        BluetoothService { on: DomainCache::new(false) }
    }

    /// The last committed power state, without consulting the tool.
    pub fn get_power(&self) -> (r: bool)
        ensures
            r == self.power(),
    {
        self.on.read()
    }

    /// Accepts a power command: caches the requested state, which is also
    /// what the tool is told to set.
    pub fn set_power(&mut self, enabled: bool)
        ensures
            final(self).power() == enabled,
    {
        self.on.write(enabled);
    }

    /// The monitor's write path into the cache.
    pub fn store_power(&mut self, v: bool)
        ensures
            final(self).power() == v,
    {
        self.on.write(v);
    }
}

/// Keeps the power cache synchronized with the polled adapter state and
/// emits one change event per observed transition.
pub struct BtPowerMonitor {
    cache: DomainCache<bool>,
}

impl BtPowerMonitor {
    /// The cached power state, for contracts.
    pub closed spec fn value(self) -> bool {
        self.cache.spec_value()
    }

    /// A monitor whose cache starts off.
    pub fn new() -> (r: Self)
        ensures
            r.value() == false,
    {
        BtPowerMonitor { cache: DomainCache::new(false) }
    }

    /// The last committed power state.
    pub fn read(&self) -> (r: bool)
        ensures
            r == self.value(),
    {
        self.cache.read()
    }

    /// The startup seed: one best-effort read is committed without any
    /// event being emitted.
    pub fn seed(&mut self, v: bool)
        ensures
            final(self).value() == v,
    {
        self.cache.write(v);
    }

    /// One polling cycle: diff the fresh sample against the cache; on a
    /// difference commit it and emit exactly one change event carrying it.
    pub fn step(&mut self, sample: bool) -> (emit: Option<bool>)
        ensures
            final(self).value() == sample,
            emit == (if sample == old(self).value() {
                None::<bool>
            } else {
                Some(sample)
            }),
            monitor_outputs(old(self).value(), seq![sample]) == (match emit {
                None => Seq::<bool>::empty(),
                Some(e) => seq![e],
            }),
    {
        proof {
            let init = old(self).value();
            assert(seq![sample].skip(1) =~= Seq::<bool>::empty());
            assert(monitor_outputs(init, Seq::<bool>::empty()) =~= Seq::<bool>::empty());
            assert(monitor_outputs(sample, Seq::<bool>::empty()) =~= Seq::<bool>::empty());
            if sample == init {
                assert(monitor_outputs(init, seq![sample]) =~= Seq::<bool>::empty());
            } else {
                assert(monitor_outputs(init, seq![sample]) =~= seq![sample]);
            }
        }
        let cur = self.cache.read();
        if sample == cur {
            None
        } else {
            self.cache.write(sample);
            Some(sample)
        }
    }

    /// Feeds a whole sequence of samples: the emitted events are exactly
    /// the value transitions, in order.
    pub fn feed(&mut self, samples: &Vec<bool>) -> (events: Vec<bool>)
        ensures
            events@ == monitor_outputs(old(self).value(), samples@),
            final(self).value() == current_value(old(self).value(), samples@),
    {
        let ghost init = self.value();
        let mut events: Vec<bool> = Vec::new();
        let mut i: usize = 0;
        proof {
            assert(samples@.take(0) =~= Seq::<bool>::empty());
            assert(events@ =~= monitor_outputs(init, samples@.take(0)));
        }
        while i < samples.len()
            invariant
                i <= samples@.len(),
                events@ == monitor_outputs(init, samples@.take(i as int)),
                self.value() == current_value(init, samples@.take(i as int)),
            decreases samples@.len() - i,
        {
            proof {
                crate::monitor::lemma_monitor_outputs_push(
                    init,
                    samples@.take(i as int),
                    samples@[i as int],
                );
                assert(samples@.take(i as int).push(samples@[i as int]) =~= samples@.take(i + 1));
            }
            let e = self.step(samples[i]);
            match e {
                Some(v) => {
                    events.push(v);
                },
                None => {},
            }
            i = i + 1;
        }
        proof {
            assert(samples@.take(samples@.len() as int) =~= samples@);
        }
        events
    }
}

} // verus!
