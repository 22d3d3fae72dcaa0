//! The monitor step, as one mathematical model shared by every subsystem
//! monitor.
//!
//! A monitor repeatedly obtains a fresh sample of externally-owned state,
//! diffs it against its domain cache, and on a difference writes the cache
//! and emits exactly one change event carrying the new value. Equal samples
//! emit nothing, even when the external source reported that "an event
//! happened". The exec step functions of the individual monitors tie their
//! contracts to `monitor_outputs`, so the counting law below speaks for all
//! of them.

use vstd::prelude::*;

verus! {

/// The sequence of change events a monitor emits when fed `samples`,
/// starting from a cache holding `init`.
pub open spec fn monitor_outputs<T>(init: T, samples: Seq<T>) -> Seq<T>
    decreases samples.len(),
{
    if samples.len() == 0 {
        Seq::empty()
    } else if samples[0] == init {
        monitor_outputs(init, samples.skip(1))
    } else {
        seq![samples[0]] + monitor_outputs(samples[0], samples.skip(1))
    }
}

/// The number of value transitions in `samples` (adjacent-distinct count,
/// with `init` in front).
pub open spec fn transition_count<T>(init: T, samples: Seq<T>) -> nat
    decreases samples.len(),
{
    if samples.len() == 0 {
        0
    } else if samples[0] == init {
        transition_count(init, samples.skip(1))
    } else {
        1 + transition_count(samples[0], samples.skip(1))
    }
}

/// The cache contents after feeding `samples`: the last sample, or the seed
/// when none arrived.
pub open spec fn current_value<T>(init: T, samples: Seq<T>) -> T {
    if samples.len() == 0 {
        init
    } else {
        samples.last()
    }
}

/// Law: for every sequence of sampled values fed to a monitor, the number of
/// emitted change events equals the number of value transitions, never more.
pub proof fn lemma_monitor_output_count<T>(init: T, samples: Seq<T>)
    ensures
        monitor_outputs(init, samples).len() == transition_count(init, samples),
    decreases samples.len(),
{
    if samples.len() == 0 {
    } else if samples[0] == init {
        lemma_monitor_output_count(init, samples.skip(1));
    } else {
        lemma_monitor_output_count(samples[0], samples.skip(1));
    }
}

/// Feeding one more sample appends its event (or nothing) to the output of
/// the samples before it.
pub proof fn lemma_monitor_outputs_push<T>(init: T, samples: Seq<T>, x: T)
    ensures
        monitor_outputs(init, samples.push(x)) == monitor_outputs(init, samples) + (
        if x == current_value(init, samples) {
            Seq::<T>::empty()
        } else {
            seq![x]
        }),
    decreases samples.len(),
{
    if samples.len() == 0 {
        let one = samples.push(x);
        assert(one[0] == x);
        assert(one.skip(1) =~= Seq::<T>::empty());
        assert(monitor_outputs(init, Seq::<T>::empty()) =~= Seq::<T>::empty());
        assert(monitor_outputs(x, Seq::<T>::empty()) =~= Seq::<T>::empty());
        assert(samples =~= Seq::<T>::empty());
        if x == init {
            assert(monitor_outputs(init, one) =~= monitor_outputs(init, samples)
                + Seq::<T>::empty());
        } else {
            assert(monitor_outputs(init, one) =~= monitor_outputs(init, samples) + seq![x]);
        }
    } else {
        assert(samples.push(x).skip(1) =~= samples.skip(1).push(x));
        assert(samples.push(x)[0] == samples[0]);
        assert(current_value(init, samples) == current_value(samples[0], samples.skip(1)));
        if samples[0] == init {
            lemma_monitor_outputs_push(init, samples.skip(1), x);
        } else {
            lemma_monitor_outputs_push(samples[0], samples.skip(1), x);
            assert(monitor_outputs(init, samples.push(x)) == seq![samples[0]]
                + monitor_outputs(samples[0], samples.skip(1).push(x)));
            if x == current_value(samples[0], samples.skip(1)) {
                assert(monitor_outputs(init, samples.push(x)) =~= monitor_outputs(init, samples)
                    + Seq::<T>::empty());
            } else {
                assert(monitor_outputs(init, samples.push(x)) =~= monitor_outputs(init, samples)
                    + seq![x]);
            }
        }
    }
}

} // verus!
