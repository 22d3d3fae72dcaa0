//! Audio subsystem: the volume cache, the sound server's JSON device
//! listing, and the push-mode volume monitor.
//!
//! The volume monitor consumes the sound server's continuous event stream:
//! lines naming a sink change trigger a re-read of the volume, which is
//! diffed against the cache and emitted at most once per transition.

use vstd::prelude::*;
use vstd::string::StrSliceExecFns;
use crate::cache::DomainCache;
use crate::monitor::current_value;
use crate::monitor::monitor_outputs;
use crate::text::contains_seq;
use crate::text::contains_str;
use crate::text::parse_u32_or_zero;
use crate::text::parse_u32_str;
use crate::text::remove_char;
use crate::text::remove_seq;
use crate::text::split_seq;
use crate::text::split_str;
use crate::text::trim_seq;
use crate::text::trim_str;
use crate::types::AudioDevice;

verus! {

/// The volume percentage in the tool's sink-volume report: the second
/// slash-separated field, trimmed, with the percent sign removed; absent
/// when the report has no second field.
pub open spec fn volume_of_output(out: Seq<char>) -> Option<u32> {
    let p = split_seq(out, '/');
    if p.len() >= 2 {
        Some(parse_u32_or_zero(remove_seq(trim_seq(p[1]), '%')))
    } else {
        None
    }
}

/// Reads the current volume out of the tool's sink-volume report.
pub fn parse_volume_output(out: &str) -> (r: Option<u32>)
    ensures
        r == volume_of_output(out@),
{
    let p = split_str(out, '/');
    if p.len() >= 2 {
        let t = trim_str(p[1].as_str());
        let d = remove_char(t.as_str(), '%');
        Some(parse_u32_str(d.as_str()))
    } else {
        None
    }
}

/// Whether a line of the subscription stream reports a sink change, the
/// only events that warrant a volume re-read.
pub fn is_sink_change(line: &str) -> (r: bool)
    ensures
        r == (contains_seq(line@, "sink"@) && contains_seq(line@, "change"@)),
{
    contains_str(line, "sink") && contains_str(line, "change")
}

/// What `serde_json` decodes from the device-listing bytes: the `name` and
/// `description` string fields of each object of the JSON array, in order,
/// or nothing when the bytes are not such an array. A function of the bytes
/// alone.
pub uninterp spec fn device_rows_of(b: Seq<u8>) -> Option<Seq<(Seq<char>, Seq<char>)>>;

/// Relies on serde_json::from_slice, serde_json::Value::get and
/// serde_json::Value::as_str: decodes a JSON array of objects and moves
/// each object's `name` and `description` string fields out; the result
/// depends on the bytes alone.
#[verifier::external_body]
fn decode_device_rows(b: &[u8]) -> (r: Option<Vec<(String, String)>>)
    ensures
        match r {
            Some(v) => device_rows_of(b@) == Some(
                v@.map_values(|p: (String, String)| (p.0@, p.1@)),
            ),
            None => device_rows_of(b@) is None,
        },
{
    let vals: Vec<serde_json::Value> = match serde_json::from_slice(b) {
        Ok(v) => v,
        Err(_) => return None,
    };
    let mut out: Vec<(String, String)> = Vec::new();
    for v in vals {
        match (v.get("name").and_then(|x| x.as_str()), v.get("description").and_then(|x| x.as_str())) {
            (Some(n), Some(d)) => out.push((n.to_string(), d.to_string())),
            _ => return None,
        }
    }
    Some(out)
}

/// The decoded rows that describe real devices: monitor taps are dropped.
pub open spec fn keep_devices(rows: Seq<(Seq<char>, Seq<char>)>) -> Seq<(Seq<char>, Seq<char>)>
    decreases rows.len(),
{
    if rows.len() == 0 {
        Seq::empty()
    } else {
        keep_devices(rows.drop_last()) + (if contains_seq(rows.last().0, ".monitor"@) {
            Seq::empty()
        } else {
            seq![rows.last()]
        })
    }
}

/// Builds the device list from decoded rows, dropping monitor taps.
pub fn select_devices(rows: Vec<(String, String)>) -> (r: Vec<AudioDevice>)
    ensures
        r@.map_values(|d: AudioDevice| (d.name@, d.description@)) == keep_devices(
            rows@.map_values(|p: (String, String)| (p.0@, p.1@)),
        ),
{
    let ghost rviews = rows@.map_values(|p: (String, String)| (p.0@, p.1@));
    let mut out: Vec<AudioDevice> = Vec::new();
    let mut rest = rows;
    let mut i: usize = 0;
    proof {
        assert(rviews.take(0) =~= Seq::<(Seq<char>, Seq<char>)>::empty());
        assert(out@.map_values(|d: AudioDevice| (d.name@, d.description@)) =~= keep_devices(
            rviews.take(0),
        ));
    }
    while i < rest.len()
        invariant
            i <= rest@.len(),
            rviews == rest@.map_values(|p: (String, String)| (p.0@, p.1@)),
            out@.map_values(|d: AudioDevice| (d.name@, d.description@)) == keep_devices(
                rviews.take(i as int),
            ),
        decreases rest@.len() - i,
    {
        proof {
            assert(rviews.take(i + 1).drop_last() =~= rviews.take(i as int));
            assert(rviews.take(i + 1).last() == rviews[i as int]);
        }
        let row = &rest[i];
        if !contains_str(row.0.as_str(), ".monitor") {
            let dev = AudioDevice { name: row.0.clone(), description: row.1.clone() };
            proof {
                assert((out@.push(dev)).map_values(|d: AudioDevice| (d.name@, d.description@))
                    =~= out@.map_values(|d: AudioDevice| (d.name@, d.description@)).push(
                    (dev.name@, dev.description@),
                ));
                assert(keep_devices(rviews.take(i + 1)) =~= keep_devices(rviews.take(i as int)).push(
                    rviews[i as int],
                ));
            }
            out.push(dev);
        } else {
            proof {
                assert(keep_devices(rviews.take(i + 1)) =~= keep_devices(rviews.take(i as int)));
            }
        }
        i = i + 1;
    }
    proof {
        assert(rviews.take(rviews.len() as int) =~= rviews);
    }
    out
}

/// The sinks or sources named in the tool's JSON listing: the decoded rows
/// without monitor taps, or an empty list when decoding fails.
pub fn parse_device_list(bytes: &[u8]) -> (r: Vec<AudioDevice>)
    ensures
        match device_rows_of(bytes@) {
            Some(rows) => r@.map_values(|d: AudioDevice| (d.name@, d.description@))
                == keep_devices(rows),
            None => r@.len() == 0,
        },
{
    match decode_device_rows(bytes) {
        Some(rows) => select_devices(rows),
        None => Vec::new(),
    }
}

/// The audio subsystem's bus face: holds the volume cache; every operation
/// around it is an external tool invocation.
pub struct AudioService {
    vol: DomainCache<u32>,
}

impl AudioService {
    /// The cached volume percentage, for contracts.
    pub closed spec fn volume(self) -> u32 {
        self.vol.spec_value()
    }

    /// A service whose volume cache starts at zero.
    pub fn new() -> (r: Self)
        ensures
            r.volume() == 0,
    {
        AudioService { vol: DomainCache::new(0) }
    }

    /// Accepts a volume command: the requested percentage, clamped into the
    /// 0..=100 range the volume state keeps, is cached and is also the value
    /// to pass to the tool.
    pub fn set_volume(&mut self, p: u32) -> (cmd: u32)
        ensures
            final(self).volume() == crate::clamped(p),
            cmd == crate::clamped(p),
    {
        let cmd = crate::clamp_percent(p);
        self.vol.write(cmd);
        cmd
    }

    /// The last committed volume, without consulting the tool.
    pub fn get_volume(&self) -> (r: u32)
        ensures
            r == self.volume(),
    {
        self.vol.read()
    }

    /// The monitor's write path into the cache; the tool can report more
    /// than 100 percent, the cached state never does.
    pub fn store_volume(&mut self, v: u32)
        ensures
            final(self).volume() == crate::clamped(v),
    {
        self.vol.write(crate::clamp_percent(v));
    }
}

/// Keeps the volume cache synchronized with the re-read sink volume and
/// emits one change event per observed transition.
pub struct VolumeMonitor {
    cache: DomainCache<u32>,
}

impl VolumeMonitor {
    /// The cached volume, for contracts.
    pub closed spec fn value(self) -> u32 {
        self.cache.spec_value()
    }

    /// A monitor whose cache starts at zero.
    pub fn new() -> (r: Self)
        ensures
            r.value() == 0,
    {
        VolumeMonitor { cache: DomainCache::new(0) }
    }

    /// The startup seed: one best-effort read is committed without any
    /// event being emitted.
    pub fn seed(&mut self, v: u32)
        ensures
            final(self).value() == v,
    {
        self.cache.write(v);
    }

    /// The last committed volume.
    pub fn read(&self) -> (r: u32)
        ensures
            r == self.value(),
    {
        self.cache.read()
    }

    /// One monitor cycle: diff the fresh sample against the cache; on a
    /// difference commit it and emit exactly one change event carrying it.
    pub fn step(&mut self, sample: u32) -> (emit: Option<u32>)
        ensures
            final(self).value() == sample,
            emit == (if sample == old(self).value() {
                None::<u32>
            } else {
                Some(sample)
            }),
            monitor_outputs(old(self).value(), seq![sample]) == (match emit {
                None => Seq::<u32>::empty(),
                Some(e) => seq![e],
            }),
    {
        proof {
            let init = old(self).value();
            assert(seq![sample].skip(1) =~= Seq::<u32>::empty());
            assert(monitor_outputs(init, Seq::<u32>::empty()) =~= Seq::<u32>::empty());
            assert(monitor_outputs(sample, Seq::<u32>::empty()) =~= Seq::<u32>::empty());
            if sample == init {
                assert(monitor_outputs(init, seq![sample]) =~= Seq::<u32>::empty());
            } else {
                assert(monitor_outputs(init, seq![sample]) =~= seq![sample]);
            }
        }
        let cur = self.cache.read();
        if sample == cur {
            None
        } else {
            self.cache.write(sample);
            Some(sample)
        }
    }

    /// Feeds a whole sequence of samples: the emitted events are exactly
    /// the value transitions, in order.
    pub fn feed(&mut self, samples: &Vec<u32>) -> (events: Vec<u32>)
        ensures
            events@ == monitor_outputs(old(self).value(), samples@),
            final(self).value() == current_value(old(self).value(), samples@),
    {
        let ghost init = self.value();
        let mut events: Vec<u32> = Vec::new();
        let mut i: usize = 0;
        proof {
            assert(samples@.take(0) =~= Seq::<u32>::empty());
            assert(events@ =~= monitor_outputs(init, samples@.take(0)));
        }
        while i < samples.len()
            invariant
                i <= samples@.len(),
                events@ == monitor_outputs(init, samples@.take(i as int)),
                self.value() == current_value(init, samples@.take(i as int)),
            decreases samples@.len() - i,
        {
            proof {
                crate::monitor::lemma_monitor_outputs_push(
                    init,
                    samples@.take(i as int),
                    samples@[i as int],
                );
                assert(samples@.take(i as int).push(samples@[i as int]) =~= samples@.take(i + 1));
            }
            let e = self.step(samples[i]);
            match e {
                Some(v) => {
                    events.push(v);
                },
                None => {},
            }
            i = i + 1;
        }
        proof {
            assert(samples@.take(samples@.len() as int) =~= samples@);
        }
        events
    }
}

} // verus!
