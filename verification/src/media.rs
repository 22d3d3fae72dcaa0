//! Media subsystem: metadata parsing and the push-mode playback monitor.
//!
//! Nothing is cached between client queries: the last known values are
//! re-derived from the player each poll. The monitor consumes the player's
//! continuous formatted stream, one line per change of its metadata.

use vstd::prelude::*;
use vstd::string::StringExecFns;
use crate::monitor::current_value;
use crate::monitor::monitor_outputs;
use crate::text::split_seq;
use crate::text::split_str;
use crate::text::trim_seq;
use crate::text::trim_str;
use crate::types::PlayStatus;
use crate::types::PlaybackState;
use crate::types::PlaybackView;

verus! {

/// The transport status named by the player's status word; anything
/// unrecognized counts as stopped.
pub open spec fn play_status_of(s: Seq<char>) -> PlayStatus {
    if s == "Playing"@ {
        PlayStatus::Playing
    } else if s == "Paused"@ {
        PlayStatus::Paused
    } else {
        PlayStatus::Stopped
    }
}

/// Maps the player's status word to the transport status.
pub fn parse_play_status(s: &String) -> (r: PlayStatus)
    ensures
        r == play_status_of(s@),
{
    if *s == String::from_str("Playing") {
        PlayStatus::Playing
    } else if *s == String::from_str("Paused") {
        PlayStatus::Paused
    } else {
        PlayStatus::Stopped
    }
}

/// The playback state in one line of the player's formatted output:
/// status, title and artist separated by pipes; absent when the line has
/// fewer than three fields.
pub open spec fn playback_of_line(line: Seq<char>) -> Option<PlaybackView> {
    let p = split_seq(trim_seq(line), '|');
    if p.len() >= 3 {
        Some(PlaybackView { status: play_status_of(p[0]), title: p[1], artist: p[2] })
    } else {
        None
    }
}

/// Parses one line of the player's formatted stream.
pub fn parse_metadata_line(line: &str) -> (r: Option<PlaybackState>)
    ensures
        match r {
            Some(s) => playback_of_line(line@) == Some(s@),
            None => playback_of_line(line@) is None,
        },
{
    let t = trim_str(line);
    let mut p = split_str(t.as_str(), '|');
    if p.len() >= 3 {
        let f0 = p.remove(0);
        let f1 = p.remove(0);
        let f2 = p.remove(0);
        let status = parse_play_status(&f0);
        Some(PlaybackState { status, title: f1, artist: f2 })
    } else {
        None
    }
}

/// The playback state answered to a point-in-time query: the parsed line,
/// or the stopped placeholder when the output is not a full line.
pub open spec fn playback_of_output(out: Seq<char>) -> PlaybackView {
    match playback_of_line(out) {
        Some(v) => v,
        None => PlaybackView { status: PlayStatus::Stopped, title: "No Media"@, artist: ""@ },
    }
}

/// Parses the player's formatted output, substituting the stopped
/// placeholder when the player gave no full line.
pub fn parse_metadata(out: &str) -> (r: PlaybackState)
    ensures
        r@ == playback_of_output(out@),
{
    match parse_metadata_line(out) {
        Some(s) => s,
        None => PlaybackState {
            status: PlayStatus::Stopped,
            title: String::from_str("No Media"),
            artist: String::from_str(""),
        },
    }
}

/// The media subsystem's bus face; every operation is an external player
/// invocation around the parsing above.
pub struct MediaService;

/// Diffs each freshly parsed playback state against the last one emitted
/// and emits one change event per observed transition.
pub struct PlaybackMonitor {
    last: PlaybackState,
}

impl PlaybackMonitor {
    /// The last committed playback state, for contracts.
    pub closed spec fn value(self) -> PlaybackView {
        self.last@
    }

    /// A monitor seeded with the stopped placeholder.
    pub fn new() -> (r: Self)
        ensures
            r.value() == (PlaybackView {
                status: PlayStatus::Stopped,
                title: "No Media"@,
                artist: ""@,
            }),
    {
        PlaybackMonitor {
            last: PlaybackState {
                status: PlayStatus::Stopped,
                title: String::from_str("No Media"),
                artist: String::from_str(""),
            },
        }
    }

    /// The last committed playback state.
    pub fn read(&self) -> (r: PlaybackState)
        ensures
            r@ == self.value(),
    {
        self.last.clone()
    }

    /// One stream event: diff the fresh state against the last one; on a
    /// difference commit it and emit exactly one change event carrying it.
    pub fn step(&mut self, sample: PlaybackState) -> (emit: Option<PlaybackState>)
        ensures
            final(self).value() == sample@,
            match emit {
                None => sample@ == old(self).value(),
                Some(e) => sample@ != old(self).value() && e@ == sample@,
            },
            monitor_outputs(old(self).value(), seq![sample@]) == (match emit {
                None => Seq::<PlaybackView>::empty(),
                Some(e) => seq![e@],
            }),
    {
        proof {
            let init = old(self).value();
            assert(seq![sample@].skip(1) =~= Seq::<PlaybackView>::empty());
            assert(monitor_outputs(init, Seq::<PlaybackView>::empty()) =~= Seq::<
                PlaybackView,
            >::empty());
            assert(monitor_outputs(sample@, Seq::<PlaybackView>::empty()) =~= Seq::<
                PlaybackView,
            >::empty());
            if sample@ == init {
                assert(monitor_outputs(init, seq![sample@]) =~= Seq::<PlaybackView>::empty());
            } else {
                assert(monitor_outputs(init, seq![sample@]) =~= seq![sample@]);
            }
        }
        let same = sample.status == self.last.status && sample.title == self.last.title
            && sample.artist == self.last.artist;
        if same {
            proof {
                assert(sample@ =~= old(self).value());
            }
            self.last = sample;
            None
        } else {
            proof {
                assert(sample@ != old(self).value());
            }
            let out = sample.clone();
            self.last = sample;
            Some(out)
        }
    }

    /// Feeds a whole sequence of parsed states: the emitted events are
    /// exactly the transitions, in order.
    pub fn feed(&mut self, samples: Vec<PlaybackState>) -> (events: Vec<PlaybackState>)
        ensures
            events@.map_values(|e: PlaybackState| e@) == monitor_outputs(
                old(self).value(),
                samples@.map_values(|s: PlaybackState| s@),
            ),
            final(self).value() == current_value(
                old(self).value(),
                samples@.map_values(|s: PlaybackState| s@),
            ),
    {
        let ghost init = self.value();
        let ghost sviews = samples@.map_values(|s: PlaybackState| s@);
        let mut events: Vec<PlaybackState> = Vec::new();
        let mut rest = samples;
        let mut i: usize = 0;
        proof {
            assert(sviews.take(0) =~= Seq::<PlaybackView>::empty());
            assert(events@.map_values(|e: PlaybackState| e@) =~= monitor_outputs(
                init,
                sviews.take(0),
            ));
        }
        while i < rest.len()
            invariant
                i <= rest@.len(),
                sviews == rest@.map_values(|s: PlaybackState| s@),
                events@.map_values(|e: PlaybackState| e@) == monitor_outputs(
                    init,
                    sviews.take(i as int),
                ),
                self.value() == current_value(init, sviews.take(i as int)),
            decreases rest@.len() - i,
        {
            proof {
                crate::monitor::lemma_monitor_outputs_push(
                    init,
                    sviews.take(i as int),
                    sviews[i as int],
                );
                assert(sviews.take(i as int).push(sviews[i as int]) =~= sviews.take(i + 1));
            }
            let s = rest[i].clone();
            let e = self.step(s);
            match e {
                Some(v) => {
                    proof {
                        assert((events@.push(v)).map_values(|e: PlaybackState| e@)
                            =~= events@.map_values(|e: PlaybackState| e@).push(v@));
                    }
                    events.push(v);
                },
                None => {},
            }
            i = i + 1;
        }
        proof {
            assert(sviews.take(sviews.len() as int) =~= sviews);
        }
        events
    }
}

} // verus!
