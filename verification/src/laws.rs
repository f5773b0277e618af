//! What holds of the library as a whole.

use crate::cache_laws::{law_one_instrument_for_all, life, Inquiry};
use crate::fallback::{key_of, with_instrument, FallbackKey};
use crate::float::Float;
use crate::journal::{Call, Event};
use crate::metrics::{
    change_calls, count_calls, level_calls, otel_unit, recording, sample_calls, valued,
    CachedInstrument, FloatInstruments, InstrumentBuilder, InstrumentKind,
};
use crate::observation::{counts, deltas, kept, samples, Observation, Sample};
use crate::outside::{key_value, tag_type};
use crate::plan::{
    declared, first_kind, joined, tagged_kind, tags_tell_kinds_apart, untagged, Declaration,
    FieldModel,
};
use crate::translator::{replay, OtelEntryWriter, PendingMetric};
use metrique_writer_core::unit::Unit;
use opentelemetry::KeyValue;
use std::any::TypeId;
use vstd::prelude::*;

verus! {

/// A counter adds nothing for a number below zero, nor for what is not a
/// number, whether it was observed once or is the sum of many.
pub proof fn law_counter_never_decreases(v: Float, occurrences: u64)
    requires
        v.is_negative() || v.is_nan(),
    ensures
        Observation::Floating(v).count_spec() == Some(0u64),
        (Observation::Repeated { total: v, occurrences }).count_spec() == Some(0u64),
{
    if !v.is_nan() && !v.is_infinite() {
        if v.scale() < 0 {
            let d = vstd::arithmetic::power2::pow2((-v.scale()) as nat) as int;
            vstd::arithmetic::power2::lemma_pow2_pos((-v.scale()) as nat);
            vstd::arithmetic::div_mod::lemma_div_pos_is_pos(v.significand(), d);
        } else {
            let m = vstd::arithmetic::power2::pow2(v.scale() as nat) as int;
            vstd::arithmetic::mul::lemma_mul_nonnegative(v.significand(), m);
        }
    }
}

/// How often a sum was observed does not matter to the counters; of no
/// occurrences a histogram and a gauge record nothing.
pub proof fn law_occurrences(total: Float, a: u64, b: u64)
    ensures
        (Observation::Repeated { total, occurrences: a }).count_spec() == (
        Observation::Repeated { total, occurrences: b }).count_spec(),
        (Observation::Repeated { total, occurrences: a }).delta_spec() == (
        Observation::Repeated { total, occurrences: b }).delta_spec(),
        (Observation::Repeated { total, occurrences: 0 }).sample_spec() is None,
{
}

/// No mean is taken over no occurrences.
pub proof fn law_means_are_defined(observations: Seq<Observation>)
    ensures
        forall|i: int|
            0 <= i < samples(observations).len() ==> match #[trigger] samples(observations)[i] {
                Sample::Mean { total, occurrences } => occurrences > 0,
                _ => true,
            },
    decreases observations.len(),
{
    if observations.len() > 0 {
        law_means_are_defined(observations.drop_last());
    }
}

/// Counters leave out only what has no number at all.
pub proof fn law_counters_count_everything(observations: Seq<Observation>)
    requires
        forall|i: int| 0 <= i < observations.len() ==> !(#[trigger] observations[i] is Unknown),
    ensures
        counts(observations).len() == observations.len(),
        deltas(observations).len() == observations.len(),
    decreases observations.len(),
{
    if observations.len() > 0 {
        assert(!(observations.last() is Unknown));
        let rest = observations.drop_last();
        assert forall|i: int| 0 <= i < rest.len() implies !(#[trigger] rest[i] is Unknown) by {
            assert(rest[i] == observations[i]);
        }
        law_counters_count_everything(rest);
    }
}

/// `results` are what `f` makes of the items at `sources`, which are, in order,
/// the items for which it has a result.
pub open spec fn drawn_from<A, B>(
    items: Seq<A>,
    f: spec_fn(A) -> Option<B>,
    results: Seq<B>,
    sources: Seq<int>,
) -> bool {
    &&& sources.len() == results.len()
    &&& forall|i: int|
        0 <= i < sources.len() ==> 0 <= #[trigger] sources[i] < items.len() && f(items[sources[i]])
            == Some(results[i])
    &&& forall|i: int, j: int| 0 <= i < j < sources.len() ==> sources[i] < sources[j]
    &&& forall|k: int|
        0 <= k < items.len() && f(#[trigger] items[k]) is Some ==> sources.contains(k)
}

pub(crate) proof fn lemma_kept_sources<A, B>(items: Seq<A>, f: spec_fn(A) -> Option<B>) -> (sources: Seq<int>)
    ensures
        drawn_from(items, f, kept(items, f), sources),
    decreases items.len(),
{
    if items.len() == 0 {
        Seq::empty()
    } else {
        let rest = items.drop_last();
        let last = items.len() - 1;
        let before = lemma_kept_sources(rest, f);
        assert forall|i: int| 0 <= i < before.len() implies 0 <= #[trigger] before[i] < last && f(
            items[before[i]],
        ) == Some(kept(rest, f)[i]) by {
            assert(rest[before[i]] == items[before[i]]);
        }
        let sources = if f(items.last()) is Some {
            before.push(last)
        } else {
            before
        };
        assert forall|k: int|
            0 <= k < items.len() && f(#[trigger] items[k]) is Some implies sources.contains(k) by {
            if k < last {
                assert(rest[k] == items[k]);
                let i = before.index_of(k);
                assert(sources[i] == k);
            } else {
                assert(sources[sources.len() - 1] == k);
            }
        }
        sources
    }
}

/// The instrument is given a number for the observation.
pub open spec fn has_number<V>(instrument: &CachedInstrument<V>, observation: Observation) -> bool {
    match instrument {
        CachedInstrument::Counter(_) => observation.count_spec() is Some,
        CachedInstrument::UpDownCounter(_) => observation.delta_spec() is Some,
        CachedInstrument::Histogram(_) => observation.sample_spec() is Some,
        CachedInstrument::Gauge(_) => observation.sample_spec() is Some,
    }
}

/// `call` hands the number for `observation` to `instrument`.
pub open spec fn call_for<B: FloatInstruments>(
    floats: &B,
    instrument: &CachedInstrument<B::Value>,
    observation: Observation,
    attributes: Seq<KeyValue>,
    call: Call<B::Value>,
) -> bool {
    match (instrument, call) {
        (CachedInstrument::Counter(c), Call::Count(target, value, with)) => {
            &&& target == c.target()
            &&& observation.count_spec() == Some(value)
            &&& with == attributes
        },
        (CachedInstrument::UpDownCounter(c), Call::Change(target, value, with)) => {
            &&& target == c.target()
            &&& observation.delta_spec() == Some(value)
            &&& with == attributes
        },
        (CachedInstrument::Histogram(h), Call::Sample(target, value, with)) => {
            &&& target == h.target()
            &&& observation.sample_spec() is Some
            &&& call_ensures(B::value, (floats, observation.sample_spec()->0), value)
            &&& with == attributes
        },
        (CachedInstrument::Gauge(g), Call::Level(target, value, with)) => {
            &&& target == g.target()
            &&& observation.sample_spec() is Some
            &&& call_ensures(B::value, (floats, observation.sample_spec()->0), value)
            &&& with == attributes
        },
        _ => false,
    }
}

/// Call `i` of `made` is for the observation at `sources[i]`, and every
/// observation that the instrument has a number for has its place there, in
/// order.
pub open spec fn one_call_each<B: FloatInstruments>(
    floats: &B,
    instrument: &CachedInstrument<B::Value>,
    observations: Seq<Observation>,
    attributes: Seq<KeyValue>,
    made: Seq<Call<B::Value>>,
    sources: Seq<int>,
) -> bool {
    &&& sources.len() == made.len()
    &&& forall|i: int|
        0 <= i < made.len() ==> 0 <= #[trigger] sources[i] < observations.len() && call_for(
            floats,
            instrument,
            observations[sources[i]],
            attributes,
            made[i],
        )
    &&& forall|i: int, j: int| 0 <= i < j < sources.len() ==> sources[i] < sources[j]
    &&& forall|k: int|
        0 <= k < observations.len() && has_number(instrument, #[trigger] observations[k])
            ==> sources.contains(k)
}

/// Recording makes one call for each observation that the instrument has a
/// number for, in the order of the observations, and no call for the others.
pub proof fn law_one_measurement_each<B: FloatInstruments>(
    floats: &B,
    instrument: &CachedInstrument<B::Value>,
    observations: Seq<Observation>,
    attributes: Seq<KeyValue>,
    made: Seq<Call<B::Value>>,
)
    requires
        recording(floats, instrument, observations, attributes, made),
    ensures
        exists|sources: Seq<int>| #[trigger]
            one_call_each(floats, instrument, observations, attributes, made, sources),
{
    let sources = match instrument {
        CachedInstrument::Counter(_) => lemma_kept_sources(
            observations,
            |o: Observation| o.count_spec(),
        ),
        CachedInstrument::UpDownCounter(_) => lemma_kept_sources(
            observations,
            |o: Observation| o.delta_spec(),
        ),
        _ => lemma_kept_sources(observations, |o: Observation| o.sample_spec()),
    };
    assert(one_call_each(floats, instrument, observations, attributes, made, sources));
}

proof fn lemma_kept_concat<A, B>(a: Seq<A>, b: Seq<A>, f: spec_fn(A) -> Option<B>)
    ensures
        kept(a + b, f) == kept(a, f) + kept(b, f),
    decreases b.len(),
{
    if b.len() == 0 {
        assert(a + b == a);
    } else {
        assert((a + b).drop_last() == a + b.drop_last());
        assert((a + b).last() == b.last());
        lemma_kept_concat(a, b.drop_last(), f);
    }
}

/// What is handed to an instrument does not depend on how the observations are
/// grouped.
proof fn lemma_parts<B: FloatInstruments>(
    floats: &B,
    first: Seq<Sample>,
    second: Seq<Sample>,
    values: Seq<B::Value>,
)
    ensures
        valued(floats, first + second, values) ==> {
            &&& valued(floats, first, values.take(first.len() as int))
            &&& valued(floats, second, values.skip(first.len() as int))
        },
{
    if valued(floats, first + second, values) {
        let n = first.len() as int;
        assert forall|i: int| 0 <= i < first.len() implies call_ensures(
            B::value,
            (floats, first[i]),
            #[trigger] values.take(n)[i],
        ) by {
            assert((first + second)[i] == first[i]);
            assert(values[i] == values.take(n)[i]);
        }
        assert forall|i: int| 0 <= i < second.len() implies call_ensures(
            B::value,
            (floats, second[i]),
            #[trigger] values.skip(n)[i],
        ) by {
            assert((first + second)[n + i] == second[i]);
            assert(values[n + i] == values.skip(n)[i]);
        }
    }
}

/// Recording observations in two goes makes calls of recording them in one, and
/// for counters no others may be made in one; nor for histograms and gauges,
/// where a sample always gives the same number.
pub proof fn law_recording_in_parts<B: FloatInstruments>(
    floats: &B,
    instrument: &CachedInstrument<B::Value>,
    first: Seq<Observation>,
    second: Seq<Observation>,
    attributes: Seq<KeyValue>,
    made_first: Seq<Call<B::Value>>,
    made_second: Seq<Call<B::Value>>,
)
    requires
        recording(floats, instrument, first, attributes, made_first),
        recording(floats, instrument, second, attributes, made_second),
    ensures
        recording(floats, instrument, first + second, attributes, made_first + made_second),
        forall|whole: Seq<Call<B::Value>>|
            {
                &&& #[trigger] recording(floats, instrument, first + second, attributes, whole)
                &&& instrument is Histogram || instrument is Gauge ==> values_are_fixed(floats)
            } ==> whole == made_first + made_second,
{
    let made = made_first + made_second;
    lemma_kept_concat(first, second, |o: Observation| o.count_spec());
    lemma_kept_concat(first, second, |o: Observation| o.delta_spec());
    lemma_kept_concat(first, second, |o: Observation| o.sample_spec());
    match instrument {
        CachedInstrument::Counter(c) => {
            assert(made =~= count_calls(c.target(), counts(first + second), attributes));
        },
        CachedInstrument::UpDownCounter(c) => {
            assert(made =~= change_calls(c.target(), deltas(first + second), attributes));
        },
        CachedInstrument::Histogram(h) => {
            let x = choose|values: Seq<B::Value>| #[trigger]
                valued(floats, samples(first), values) && made_first == sample_calls(
                    h.target(),
                    values,
                    attributes,
                );
            let y = choose|values: Seq<B::Value>| #[trigger]
                valued(floats, samples(second), values) && made_second == sample_calls(
                    h.target(),
                    values,
                    attributes,
                );
            assert(made =~= sample_calls(h.target(), x + y, attributes));
            assert(valued(floats, samples(first + second), x + y));
        },
        CachedInstrument::Gauge(g) => {
            let x = choose|values: Seq<B::Value>| #[trigger]
                valued(floats, samples(first), values) && made_first == level_calls(
                    g.target(),
                    values,
                    attributes,
                );
            let y = choose|values: Seq<B::Value>| #[trigger]
                valued(floats, samples(second), values) && made_second == level_calls(
                    g.target(),
                    values,
                    attributes,
                );
            assert(made =~= level_calls(g.target(), x + y, attributes));
            assert(valued(floats, samples(first + second), x + y));
        },
    }
    assert forall|whole: Seq<Call<B::Value>>|
        {
            &&& #[trigger] recording(floats, instrument, first + second, attributes, whole)
            &&& instrument is Histogram || instrument is Gauge ==> values_are_fixed(floats)
        } implies whole == made by {
        law_same_calls(floats, instrument, instrument, first + second, attributes, whole, made);
    }
}

/// The calls of recording observations in one go are, for some place to cut
/// them, those of recording the first observations and then the rest.
pub proof fn law_recording_at_once<B: FloatInstruments>(
    floats: &B,
    instrument: &CachedInstrument<B::Value>,
    first: Seq<Observation>,
    second: Seq<Observation>,
    attributes: Seq<KeyValue>,
    made: Seq<Call<B::Value>>,
) -> (n: int)
    requires
        recording(floats, instrument, first + second, attributes, made),
    ensures
        0 <= n <= made.len(),
        recording(floats, instrument, first, attributes, made.take(n)),
        recording(floats, instrument, second, attributes, made.skip(n)),
{
    lemma_kept_concat(first, second, |o: Observation| o.count_spec());
    lemma_kept_concat(first, second, |o: Observation| o.delta_spec());
    lemma_kept_concat(first, second, |o: Observation| o.sample_spec());
    match instrument {
        CachedInstrument::Counter(c) => {
            let n = counts(first).len() as int;
            assert(made.take(n) =~= count_calls(c.target(), counts(first), attributes));
            assert(made.skip(n) =~= count_calls(c.target(), counts(second), attributes));
            n
        },
        CachedInstrument::UpDownCounter(c) => {
            let n = deltas(first).len() as int;
            assert(made.take(n) =~= change_calls(c.target(), deltas(first), attributes));
            assert(made.skip(n) =~= change_calls(c.target(), deltas(second), attributes));
            n
        },
        CachedInstrument::Histogram(h) => {
            let n = samples(first).len() as int;
            let x = choose|values: Seq<B::Value>| #[trigger]
                valued(floats, samples(first + second), values) && made == sample_calls(
                    h.target(),
                    values,
                    attributes,
                );
            lemma_parts(floats, samples(first), samples(second), x);
            assert(made.take(n) =~= sample_calls(h.target(), x.take(n), attributes));
            assert(made.skip(n) =~= sample_calls(h.target(), x.skip(n), attributes));
            n
        },
        CachedInstrument::Gauge(g) => {
            let n = samples(first).len() as int;
            let x = choose|values: Seq<B::Value>| #[trigger]
                valued(floats, samples(first + second), values) && made == level_calls(
                    g.target(),
                    values,
                    attributes,
                );
            lemma_parts(floats, samples(first), samples(second), x);
            assert(made.take(n) =~= level_calls(g.target(), x.take(n), attributes));
            assert(made.skip(n) =~= level_calls(g.target(), x.skip(n), attributes));
            n
        },
    }
}

/// Where nothing was observed, no call is made.
pub proof fn law_nothing_observed<B: FloatInstruments>(
    floats: &B,
    instrument: &CachedInstrument<B::Value>,
    attributes: Seq<KeyValue>,
    made: Seq<Call<B::Value>>,
)
    requires
        recording(floats, instrument, Seq::empty(), attributes, made),
    ensures
        made.len() == 0,
{
}

/// `call` was made to `instrument`.
pub open spec fn goes_to<V>(call: Call<V>, instrument: &CachedInstrument<V>) -> bool {
    match (instrument, call) {
        (CachedInstrument::Counter(c), Call::Count(target, _, _)) => target == c.target(),
        (CachedInstrument::UpDownCounter(c), Call::Change(target, _, _)) => target == c.target(),
        (CachedInstrument::Histogram(h), Call::Sample(target, _, _)) => target == h.target(),
        (CachedInstrument::Gauge(g), Call::Level(target, _, _)) => target == g.target(),
        _ => false,
    }
}

/// The only calls that recording makes are on the instrument that it is given,
/// and each carries exactly the attributes that it is given: the same ones, in
/// the same order, as often.
pub proof fn law_attributes_of_measurements<B: FloatInstruments>(
    floats: &B,
    instrument: &CachedInstrument<B::Value>,
    observations: Seq<Observation>,
    attributes: Seq<KeyValue>,
    made: Seq<Call<B::Value>>,
)
    requires
        recording(floats, instrument, observations, attributes, made),
    ensures
        forall|i: int|
            0 <= i < made.len() ==> goes_to(#[trigger] made[i], instrument)
                && made[i].attributes() == attributes,
{
}

/// What a histogram or a gauge was told to record.
pub open spec fn measured<V>(call: Call<V>) -> Option<(V, Seq<KeyValue>)> {
    match call {
        Call::Sample(_, value, attributes) => Some((value, attributes)),
        Call::Level(_, value, attributes) => Some((value, attributes)),
        _ => None,
    }
}

/// The calls record the same numbers with the same attributes.
pub open spec fn measure_alike<V>(a: Seq<Call<V>>, b: Seq<Call<V>>) -> bool {
    &&& a.len() == b.len()
    &&& forall|i: int|
        0 <= i < a.len() ==> measured(#[trigger] a[i]) is Some && measured(a[i]) == measured(b[i])
}

/// A sample always gives the same number.
pub open spec fn values_are_fixed<B: FloatInstruments>(floats: &B) -> bool {
    forall|sample: Sample, a: B::Value, b: B::Value|
        #![trigger call_ensures(B::value, (floats, sample), a), call_ensures(
            B::value,
            (floats, sample),
            b,
        )]
        call_ensures(B::value, (floats, sample), a) && call_ensures(B::value, (floats, sample), b)
            ==> a == b
}

/// A histogram and a gauge are given the same numbers, with the same
/// attributes, for the same observations: what is recorded with the one may be
/// recorded with the other, and where a sample always gives the same number,
/// nothing else may be.
pub proof fn law_histograms_and_gauges_measure_alike<B: FloatInstruments>(
    floats: &B,
    histogram: &CachedInstrument<B::Value>,
    gauge: &CachedInstrument<B::Value>,
    observations: Seq<Observation>,
    attributes: Seq<KeyValue>,
    sampled: Seq<Call<B::Value>>,
    levels: Seq<Call<B::Value>>,
)
    requires
        histogram is Histogram,
        gauge is Gauge,
        recording(floats, histogram, observations, attributes, sampled),
        recording(floats, gauge, observations, attributes, levels),
    ensures
        exists|calls: Seq<Call<B::Value>>| #[trigger]
            recording(floats, gauge, observations, attributes, calls) && measure_alike(
                sampled,
                calls,
            ),
        exists|calls: Seq<Call<B::Value>>| #[trigger]
            recording(floats, histogram, observations, attributes, calls) && measure_alike(
                levels,
                calls,
            ),
        values_are_fixed(floats) ==> measure_alike(sampled, levels),
{
    if let (CachedInstrument::Histogram(h), CachedInstrument::Gauge(g)) = (histogram, gauge) {
        let x = choose|values: Seq<B::Value>| #[trigger]
            valued(floats, samples(observations), values) && sampled == sample_calls(
                h.target(),
                values,
                attributes,
            );
        let y = choose|values: Seq<B::Value>| #[trigger]
            valued(floats, samples(observations), values) && levels == level_calls(
                g.target(),
                values,
                attributes,
            );
        assert(recording(
            floats,
            gauge,
            observations,
            attributes,
            level_calls(g.target(), x, attributes),
        ));
        assert(recording(
            floats,
            histogram,
            observations,
            attributes,
            sample_calls(h.target(), y, attributes),
        ));
        if values_are_fixed(floats) {
            lemma_values_are_fixed(floats, samples(observations), x, y);
        }
    }
}

proof fn lemma_values_are_fixed<B: FloatInstruments>(
    floats: &B,
    samples: Seq<Sample>,
    x: Seq<B::Value>,
    y: Seq<B::Value>,
)
    requires
        values_are_fixed(floats),
        valued(floats, samples, x),
        valued(floats, samples, y),
    ensures
        x == y,
{
    assert forall|i: int| 0 <= i < x.len() implies x[i] == y[i] by {
        assert(call_ensures(B::value, (floats, samples[i]), x[i]));
        assert(call_ensures(B::value, (floats, samples[i]), y[i]));
    }
    assert(x =~= y);
}

/// Two handles to one instrument are given the same calls for the same
/// observations. Histograms and gauges are so where a sample always gives the
/// same number.
pub proof fn law_same_calls<B: FloatInstruments>(
    floats: &B,
    x: &CachedInstrument<B::Value>,
    y: &CachedInstrument<B::Value>,
    observations: Seq<Observation>,
    attributes: Seq<KeyValue>,
    a: Seq<Call<B::Value>>,
    b: Seq<Call<B::Value>>,
)
    requires
        x is Histogram || x is Gauge ==> values_are_fixed(floats),
        x.same_instrument(y),
        recording(floats, x, observations, attributes, a),
        recording(floats, y, observations, attributes, b),
    ensures
        a == b,
{
    match (x, y) {
        (CachedInstrument::Histogram(h), CachedInstrument::Histogram(_)) => {
            let v = choose|values: Seq<B::Value>| #[trigger]
                valued(floats, samples(observations), values) && a == sample_calls(
                    h.target(),
                    values,
                    attributes,
                );
            let w = choose|values: Seq<B::Value>| #[trigger]
                valued(floats, samples(observations), values) && b == sample_calls(
                    h.target(),
                    values,
                    attributes,
                );
            lemma_values_are_fixed(floats, samples(observations), v, w);
        },
        (CachedInstrument::Gauge(g), CachedInstrument::Gauge(_)) => {
            let v = choose|values: Seq<B::Value>| #[trigger]
                valued(floats, samples(observations), values) && a == level_calls(
                    g.target(),
                    values,
                    attributes,
                );
            let w = choose|values: Seq<B::Value>| #[trigger]
                valued(floats, samples(observations), values) && b == level_calls(
                    g.target(),
                    values,
                    attributes,
                );
            lemma_values_are_fixed(floats, samples(observations), v, w);
        },
        _ => {},
    }
}

/// A string that has been written by the time an entry is finished is an
/// attribute of every measurement of a metric of that entry, behind the
/// metric's own dimensions; the dimensions of other metrics are not.
pub proof fn law_strings_reach_every_metric<B: FloatInstruments>(
    writer: &OtelEntryWriter<'_, '_, B>,
    parts: Seq<Seq<Call<B::Value>>>,
    i: int,
    j: int,
    name: Seq<char>,
    value: Seq<char>,
)
    requires
        replay(&writer.floats(), writer.pending(), writer.attributes(), parts),
        writer.attributes().contains(key_value(name, value)),
        0 <= i < parts.len(),
        0 <= j < parts[i].len(),
    ensures
        ({
            let dimensions = writer.pending()[i].per_metric_dimensions@;
            let attributes = parts[i][j].attributes();
            &&& attributes.contains(key_value(name, value))
            &&& attributes.len() == dimensions.len() + writer.attributes().len()
            &&& attributes.take(dimensions.len() as int) == dimensions
            &&& attributes.skip(dimensions.len() as int) == writer.attributes()
        }),
{
    let metric = writer.pending()[i];
    let dimensions = metric.per_metric_dimensions@;
    let attributes = dimensions + writer.attributes();
    law_attributes_of_measurements(
        &writer.floats(),
        &metric.instrument,
        metric.observations@,
        attributes,
        parts[i],
    );
    let k = writer.attributes().index_of(key_value(name, value));
    assert(attributes[dimensions.len() + k] == key_value(name, value));
    assert(attributes.take(dimensions.len() as int) =~= dimensions);
    assert(attributes.skip(dimensions.len() as int) =~= writer.attributes());
}

/// A metric as it is written.
pub ghost struct MetricWrite {
    pub name: Seq<char>,
    pub observations: Seq<Observation>,
    pub unit: Unit,
    pub dimensions: Seq<KeyValue>,
    pub distribution: bool,
}

/// One value that an entry writes: a string under a name, or a metric.
pub ghost enum Write {
    Text(Seq<char>, Seq<char>),
    Metric(MetricWrite),
}

/// `after` is `before` with one more value written, and `events` is all that
/// was done meanwhile.
pub open spec fn writes_one<'s, 'p, B: FloatInstruments>(
    before: &OtelEntryWriter<'s, 'p, B>,
    write: Write,
    events: Seq<Event<B>>,
    after: &OtelEntryWriter<'s, 'p, B>,
) -> bool {
    match write {
        Write::Text(name, value) => before.adds_string(name, value, after) && events.len() == 0,
        Write::Metric(m) => before.adds_metric(
            m.name,
            m.observations,
            m.unit,
            m.dimensions,
            m.distribution,
            events,
            after,
        ),
    }
}

/// `states` are those of a writer to which `writes` are written, one after
/// another, and `events` is what was done for each.
pub open spec fn writes_all<'s, 'p, B: FloatInstruments>(
    states: Seq<OtelEntryWriter<'s, 'p, B>>,
    writes: Seq<Write>,
    events: Seq<Seq<Event<B>>>,
) -> bool {
    &&& states.len() == writes.len() + 1
    &&& events.len() == writes.len()
    &&& forall|i: int|
        0 <= i < writes.len() ==> writes_one(
            &states[i],
            #[trigger] writes[i],
            events[i],
            &states[i + 1],
        )
}

/// The request to the cache that a write leads to.
pub open spec fn inquiry_of<'s, 'p, B: FloatInstruments>(
    write: Write,
    events: Seq<Event<B>>,
    after: &OtelEntryWriter<'s, 'p, B>,
) -> Option<Inquiry<B>> {
    match write {
        Write::Metric(m) => if m.distribution && !after.plan().fields@.contains_key(m.name) {
            Some(
                Inquiry {
                    key: after.cache_key(m.name),
                    unit: m.unit,
                    answer: after.pending().last().instrument,
                    events,
                },
            )
        } else {
            None
        },
        Write::Text(_, _) => None,
    }
}

/// `inquiries` has the requests to the cache that a run of writes leads to.
pub open spec fn knows_inquiries<'s, 'p, B: FloatInstruments>(
    inquiries: Seq<Inquiry<B>>,
    states: Seq<OtelEntryWriter<'s, 'p, B>>,
    writes: Seq<Write>,
    events: Seq<Seq<Event<B>>>,
) -> bool {
    forall|i: int|
        0 <= i < writes.len() ==> match inquiry_of(
            #[trigger] writes[i],
            events[i],
            &states[i + 1],
        ) {
            Some(q) => inquiries.contains(q),
            None => true,
        }
}

/// The strings among `writes`, as attributes, in order.
pub open spec fn strings(writes: Seq<Write>) -> Seq<KeyValue> {
    kept(
        writes,
        |write: Write|
            match write {
                Write::Text(name, value) => Some(key_value(name, value)),
                Write::Metric(_) => None,
            },
    )
}

/// The metrics among `writes`, in order.
pub open spec fn metrics(writes: Seq<Write>) -> Seq<MetricWrite> {
    kept(
        writes,
        |write: Write|
            match write {
                Write::Text(_, _) => None,
                Write::Metric(metric) => Some(metric),
            },
    )
}

/// Those of `metrics` that the writer keeps.
pub open spec fn recorded<'s, 'p, B: FloatInstruments>(
    writer: &OtelEntryWriter<'s, 'p, B>,
    metrics: Seq<MetricWrite>,
) -> Seq<MetricWrite> {
    kept(
        metrics,
        |m: MetricWrite|
            if writer.is_classified(m.name, m.distribution) {
                Some(m)
            } else {
                None
            },
    )
}

/// The names of those of `metrics` that the writer drops.
pub open spec fn dropped<'s, 'p, B: FloatInstruments>(
    writer: &OtelEntryWriter<'s, 'p, B>,
    metrics: Seq<MetricWrite>,
) -> Seq<Seq<char>> {
    kept(
        metrics,
        |m: MetricWrite|
            if writer.is_classified(m.name, m.distribution) {
                None
            } else {
                Some(m.name)
            },
    )
}

/// `pending` is `metric`, kept to be recorded. Its instrument is the plan's or,
/// where the plan has none, what one of `inquiries` was answered.
pub open spec fn keeps<'s, 'p, B: FloatInstruments>(
    writer: &OtelEntryWriter<'s, 'p, B>,
    inquiries: Seq<Inquiry<B>>,
    metric: MetricWrite,
    pending: PendingMetric<B::Value>,
) -> bool {
    &&& pending.observations@ == metric.observations
    &&& pending.per_metric_dimensions@ == metric.dimensions
    &&& if writer.plan().fields@.contains_key(metric.name) {
        pending.instrument.same_instrument(&writer.plan().fields@[metric.name].instrument)
    } else {
        exists|c: int|
            {
                &&& 0 <= c < inquiries.len()
                &&& (#[trigger] inquiries[c]).key == writer.cache_key(metric.name)
                &&& inquiries[c].unit == metric.unit
                &&& inquiries[c].answer == pending.instrument
            }
    }
}

/// After `writes`, a writer has collected the strings and the metrics among
/// them, whatever lies between them.
pub proof fn law_what_is_collected<'s, 'p, B: FloatInstruments>(
    states: Seq<OtelEntryWriter<'s, 'p, B>>,
    writes: Seq<Write>,
    events: Seq<Seq<Event<B>>>,
    inquiries: Seq<Inquiry<B>>,
)
    requires
        writes_all(states, writes, events),
        knows_inquiries(inquiries, states, writes, events),
    ensures
        ({
            let start = states[0];
            let end = states.last();
            let taken = recorded(&start, metrics(writes));
            &&& end.plan() == start.plan()
            &&& end.cache() == start.cache()
            &&& end.attributes() == start.attributes() + strings(writes)
            &&& end.unclassified() == start.unclassified() + dropped(&start, metrics(writes))
            &&& end.pending().len() == start.pending().len() + taken.len()
            &&& end.pending().take(start.pending().len() as int) == start.pending()
            &&& forall|i: int|
                0 <= i < taken.len() ==> keeps(
                    &start,
                    inquiries,
                    #[trigger] taken[i],
                    end.pending()[start.pending().len() + i],
                )
        }),
    decreases writes.len(),
{
    let start = states[0];
    let end = states.last();
    if writes.len() == 0 {
        assert(end.attributes() =~= start.attributes() + strings(writes));
        assert(end.unclassified() =~= start.unclassified() + dropped(&start, metrics(writes)));
        assert(end.pending().take(start.pending().len() as int) =~= start.pending());
    } else {
        let earlier = states.drop_last();
        let rest = writes.drop_last();
        let before_last = events.drop_last();
        assert forall|i: int| 0 <= i < rest.len() implies writes_one(
            &earlier[i],
            #[trigger] rest[i],
            before_last[i],
            &earlier[i + 1],
        ) by {
            assert(rest[i] == writes[i]);
        }
        assert forall|i: int| 0 <= i < rest.len() implies match inquiry_of(
            #[trigger] rest[i],
            before_last[i],
            &earlier[i + 1],
        ) {
            Some(q) => inquiries.contains(q),
            None => true,
        } by {
            assert(rest[i] == writes[i]);
        }
        law_what_is_collected(earlier, rest, before_last, inquiries);
        let before = earlier.last();
        let n = start.pending().len() as int;
        let last = writes.len() - 1;
        assert(writes_one(&states[last], writes[last], events[last], &states[last + 1]));
        let taken_before = recorded(&start, metrics(rest));
        let taken = recorded(&start, metrics(writes));
        match writes.last() {
            Write::Text(name, value) => {
                assert(end.attributes() =~= start.attributes() + strings(writes));
            },
            Write::Metric(m) => {
                assert(metrics(writes).drop_last() =~= metrics(rest));
                assert(end.unclassified() =~= start.unclassified() + dropped(
                    &start,
                    metrics(writes),
                ));
                if start.is_classified(m.name, m.distribution) {
                    assert(taken == taken_before.push(m));
                    assert(end.pending().drop_last() == before.pending());
                    assert(end.pending().take(n) =~= before.pending().take(n));
                    assert forall|i: int| 0 <= i < taken.len() implies keeps(
                        &start,
                        inquiries,
                        #[trigger] taken[i],
                        end.pending()[n + i],
                    ) by {
                        if i < taken_before.len() {
                            let pending = before.pending()[n + i];
                            assert(keeps(&start, inquiries, taken_before[i], pending));
                            assert(end.pending().drop_last()[n + i] == before.pending()[n + i]);
                        } else {
                            let pending = end.pending().last();
                            if !start.plan().fields@.contains_key(m.name) {
                                let q = inquiry_of(writes[last], events[last], &end)->0;
                                let c = inquiries.index_of(q);
                                assert(inquiries[c].key == start.cache_key(m.name));
                            }
                            assert(keeps(&start, inquiries, m, pending));
                        }
                    }
                }
            },
        }
    }
}

/// Two writers of one plan and one cache to which the same strings and the same
/// metrics are written make the same calls when they are finished: where the
/// strings stand between the metrics makes no difference. Neither does it to
/// what counts as unclassified. A sample has to give the same number each time.
pub proof fn law_order_of_writes<'s, 'p, B: FloatInstruments>(
    a_states: Seq<OtelEntryWriter<'s, 'p, B>>,
    a_writes: Seq<Write>,
    a_events: Seq<Seq<Event<B>>>,
    a_parts: Seq<Seq<Call<B::Value>>>,
    b_states: Seq<OtelEntryWriter<'s, 'p, B>>,
    b_writes: Seq<Write>,
    b_events: Seq<Seq<Event<B>>>,
    b_parts: Seq<Seq<Call<B::Value>>>,
    first: Map<FallbackKey, CachedInstrument<B::Value>>,
    inquiries: Seq<Inquiry<B>>,
    trace: Seq<Event<B>>,
)
    requires
        writes_all(a_states, a_writes, a_events),
        writes_all(b_states, b_writes, b_events),
        a_states[0].plan() == b_states[0].plan(),
        a_states[0].cache() == b_states[0].cache(),
        a_states[0].attributes() == b_states[0].attributes(),
        a_states[0].pending() == b_states[0].pending(),
        a_states[0].unclassified() == b_states[0].unclassified(),
        strings(a_writes) == strings(b_writes),
        metrics(a_writes) == metrics(b_writes),
        life(&a_states[0].cache(), first, inquiries, trace),
        knows_inquiries(inquiries, a_states, a_writes, a_events),
        knows_inquiries(inquiries, b_states, b_writes, b_events),
        values_are_fixed(&a_states[0].floats()),
        replay(
            &a_states.last().floats(),
            a_states.last().pending(),
            a_states.last().attributes(),
            a_parts,
        ),
        replay(
            &b_states.last().floats(),
            b_states.last().pending(),
            b_states.last().attributes(),
            b_parts,
        ),
    ensures
        joined(a_parts) == joined(b_parts),
        a_states.last().unclassified() == b_states.last().unclassified(),
{
    law_what_is_collected(a_states, a_writes, a_events, inquiries);
    law_what_is_collected(b_states, b_writes, b_events, inquiries);
    let start = a_states[0];
    let a = a_states.last();
    let b = b_states.last();
    let n = start.pending().len() as int;
    let taken = recorded(&start, metrics(a_writes));
    lemma_same_choice(&start, &b_states[0], metrics(a_writes));
    assert forall|i: int| 0 <= i < a_parts.len() implies a_parts[i] == b_parts[i] by {
        let x = a.pending()[i];
        let y = b.pending()[i];
        if i < n {
            assert(x == a.pending().take(n)[i]);
            assert(y == b.pending().take(n)[i]);
        } else {
            let m = taken[i - n];
            assert(keeps(&start, inquiries, m, x));
            assert(keeps(&b_states[0], inquiries, m, y));
            lemma_one_resolution(&start, &b_states[0], first, inquiries, trace, m, x, y);
        }
        law_same_calls(
            &start.floats(),
            &x.instrument,
            &y.instrument,
            x.observations@,
            x.per_metric_dimensions@ + a.attributes(),
            a_parts[i],
            b_parts[i],
        );
    }
    assert(a_parts =~= b_parts);
}

proof fn lemma_same_choice<'s, 'p, B: FloatInstruments>(
    a: &OtelEntryWriter<'s, 'p, B>,
    b: &OtelEntryWriter<'s, 'p, B>,
    metrics: Seq<MetricWrite>,
)
    requires
        a.plan() == b.plan(),
    ensures
        recorded(a, metrics) == recorded(b, metrics),
        dropped(a, metrics) == dropped(b, metrics),
    decreases metrics.len(),
{
    if metrics.len() > 0 {
        lemma_same_choice(a, b, metrics.drop_last());
    }
}

proof fn lemma_one_resolution<'s, 'p, B: FloatInstruments>(
    a: &OtelEntryWriter<'s, 'p, B>,
    b: &OtelEntryWriter<'s, 'p, B>,
    first: Map<FallbackKey, CachedInstrument<B::Value>>,
    inquiries: Seq<Inquiry<B>>,
    trace: Seq<Event<B>>,
    metric: MetricWrite,
    x: PendingMetric<B::Value>,
    y: PendingMetric<B::Value>,
)
    requires
        a.plan() == b.plan(),
        life(&a.cache(), first, inquiries, trace),
        keeps(a, inquiries, metric, x),
        keeps(b, inquiries, metric, y),
    ensures
        x.instrument.same_instrument(&y.instrument),
{
    if !a.plan().fields@.contains_key(metric.name) {
        let c = choose|c: int|
            {
                &&& 0 <= c < inquiries.len()
                &&& (#[trigger] inquiries[c]).key == a.cache_key(metric.name)
                &&& inquiries[c].unit == metric.unit
                &&& inquiries[c].answer == x.instrument
            };
        let d = choose|c: int|
            {
                &&& 0 <= c < inquiries.len()
                &&& (#[trigger] inquiries[c]).key == b.cache_key(metric.name)
                &&& inquiries[c].unit == metric.unit
                &&& inquiries[c].answer == y.instrument
            };
        law_one_instrument_for_all(&a.cache(), first, inquiries, trace, c, d);
    }
}

/// The unit that a field declares counts, whatever unit its values are written
/// with; so does the kind of its tag. Neither the cache nor the meter provider
/// is asked for anything.
pub proof fn law_declared_unit_counts<'s, 'p, B: FloatInstruments>(
    builder: &InstrumentBuilder<B>,
    scope: Seq<char>,
    fields: Seq<FieldModel>,
    before: &OtelEntryWriter<'s, 'p, B>,
    name: Seq<char>,
    observations: Seq<Observation>,
    unit: Unit,
    dimensions: Seq<KeyValue>,
    distribution: bool,
    events: Seq<Event<B>>,
    after: &OtelEntryWriter<'s, 'p, B>,
)
    requires
        before.plan().realizes(builder, scope, fields),
        declared(fields).contains_key(name),
        before.adds_metric(name, observations, unit, dimensions, distribution, events, after),
    ensures
        ({
            let instrument = after.pending().last().instrument;
            &&& after.pending().len() == before.pending().len() + 1
            &&& instrument.kind() == declared(fields)[name].kind
            &&& instrument.unit() == declared(fields)[name].unit
            &&& instrument.scope() == scope
            &&& instrument.name() == name
            &&& events.len() == 0
        }),
{
    assert(before.plan().fields@.dom().contains(name));
    assert(before.plan().fields@.contains_key(name));
}

/// Of an entry whose plan resolves no field only distributions are recorded,
/// with histograms of the plan's scope.
pub proof fn law_without_descriptors<'s, 'p, B: FloatInstruments>(
    before: &OtelEntryWriter<'s, 'p, B>,
    name: Seq<char>,
    observations: Seq<Observation>,
    unit: Unit,
    dimensions: Seq<KeyValue>,
    distribution: bool,
    events: Seq<Event<B>>,
    after: &OtelEntryWriter<'s, 'p, B>,
)
    requires
        before.plan().fields@.dom() == Set::<Seq<char>>::empty(),
        before.adds_metric(name, observations, unit, dimensions, distribution, events, after),
    ensures
        !distribution ==> {
            &&& after.pending() == before.pending()
            &&& after.unclassified() == before.unclassified().push(name)
            &&& events.len() == 0
        },
        distribution ==> {
            let instrument = after.pending().last().instrument;
            &&& after.pending().len() == before.pending().len() + 1
            &&& instrument.kind() == InstrumentKind::Histogram
            &&& instrument.scope() == before.plan().scope@
            &&& instrument.name() == name
        },
{
    assert(!before.plan().fields@.contains_key(name));
}

/// The first instrument made for a key stays: one that is made for it later,
/// whatever its unit, leaves the table as it is.
pub proof fn law_first_instrument_stays<V>(
    table: Map<FallbackKey, CachedInstrument<V>>,
    first: CachedInstrument<V>,
    second: CachedInstrument<V>,
)
    requires
        key_of(&first) == key_of(&second),
    ensures
        with_instrument(with_instrument(table, first), second) == with_instrument(table, first),
        table.contains_key(key_of(&first)) ==> with_instrument(table, first) == table,
        !table.contains_key(key_of(&first)) ==> with_instrument(table, first)[key_of(&first)]
            == first,
{
}

/// Adding an instrument takes none away and changes none.
pub proof fn law_table_only_grows<V>(
    table: Map<FallbackKey, CachedInstrument<V>>,
    instrument: CachedInstrument<V>,
    key: FallbackKey,
)
    requires
        table.contains_key(key),
    ensures
        with_instrument(table, instrument).contains_key(key),
        with_instrument(table, instrument)[key] == table[key],
{
}

/// A field has its place: with a tag its name has an instrument in the plan,
/// without one it is among the unclassified.
pub proof fn law_every_field_is_placed(fields: Seq<FieldModel>, i: int)
    requires
        0 <= i < fields.len(),
    ensures
        fields[i].kind() is Some ==> declared(fields).contains_key(fields[i].name),
        fields[i].kind() is None ==> untagged(fields).contains(fields[i].name),
    decreases fields.len(),
{
    let rest = fields.drop_last();
    if i < fields.len() - 1 {
        law_every_field_is_placed(rest, i);
        if fields[i].kind() is None {
            let j = untagged(rest).index_of(fields[i].name);
            assert(untagged(fields)[j] == fields[i].name);
        }
    } else if fields[i].kind() is None {
        assert(untagged(fields).last() == fields[i].name);
    }
}

/// The plan has nothing that no field asks for.
pub proof fn law_nothing_is_made_up(fields: Seq<FieldModel>, name: Seq<char>)
    ensures
        declared(fields).contains_key(name) ==> exists|i: int|
            0 <= i < fields.len() && fields[i].kind() is Some && #[trigger] fields[i].name == name,
        untagged(fields).contains(name) ==> exists|i: int|
            0 <= i < fields.len() && fields[i].kind() is None && #[trigger] fields[i].name == name,
    decreases fields.len(),
{
    if fields.len() > 0 {
        let rest = fields.drop_last();
        let last = fields.len() - 1;
        law_nothing_is_made_up(rest, name);
        if declared(fields).contains_key(name) {
            if declared(rest).contains_key(name) {
                let i = choose|i: int|
                    0 <= i < rest.len() && rest[i].kind() is Some && #[trigger] rest[i].name
                        == name;
                assert(fields[i].name == name);
            } else {
                assert(fields[last].name == name);
            }
        }
        if untagged(fields).contains(name) {
            if untagged(rest).contains(name) {
                let i = choose|i: int|
                    0 <= i < rest.len() && rest[i].kind() is None && #[trigger] rest[i].name
                        == name;
                assert(fields[i].name == name);
            } else {
                let j = untagged(fields).index_of(name);
                if fields.last().kind() is None {
                    if j < untagged(rest).len() {
                        assert(untagged(rest)[j] == name);
                    }
                    assert(fields[last].name == name);
                }
            }
        }
    }
}

/// Of tagged fields of one name the last decides the kind and the unit.
pub proof fn law_last_declaration_counts(fields: Seq<FieldModel>, i: int)
    requires
        0 <= i < fields.len(),
        fields[i].kind() is Some,
        forall|j: int|
            i < j < fields.len() && #[trigger] fields[j].name == fields[i].name
                ==> fields[j].kind() is None,
    ensures
        declared(fields).contains_key(fields[i].name),
        declared(fields)[fields[i].name] == (Declaration {
            kind: fields[i].kind()->0,
            unit: fields[i].otel_unit(),
        }),
    decreases fields.len(),
{
    let rest = fields.drop_last();
    if i < fields.len() - 1 {
        assert forall|j: int|
            i < j < rest.len() && #[trigger] rest[j].name == rest[i].name implies rest[j].kind() is None by {
            assert(fields[j].name == fields[i].name);
        }
        law_last_declaration_counts(rest, i);
        assert(fields[fields.len() - 1] == fields.last());
    }
}

/// A field whose first flag is the tag of a kind is recorded with an instrument
/// of that kind.
pub proof fn law_tag_gives_its_kind(tags: Seq<TypeId>, kind: InstrumentKind)
    requires
        tags_tell_kinds_apart(),
        tags.len() > 0,
        tags[0] == tag_type(kind),
    ensures
        first_kind(tags) == Some(kind),
{
}

/// Of several tags on a field the first decides.
pub proof fn law_first_tag_decides(first: Seq<TypeId>, more: Seq<TypeId>)
    ensures
        first_kind(first + more) == (if first_kind(first) is Some {
            first_kind(first)
        } else {
            first_kind(more)
        }),
    decreases first.len(),
{
    if first.len() == 0 {
        assert(first + more == more);
    } else {
        assert((first + more)[0] == first[0]);
        assert((first + more).skip(1) == first.skip(1) + more);
        if tagged_kind(first[0]) is None {
            law_first_tag_decides(first.skip(1), more);
        }
    }
}

/// What has no unit, and what counts, is dimensionless; a unit of the caller's
/// own goes on the wire as it is.
pub proof fn law_units(name: &'static str, field: FieldModel)
    ensures
        otel_unit(Unit::None) == "1"@,
        otel_unit(Unit::Count) == "1"@,
        otel_unit(Unit::Custom(name)) == name@,
        field.unit is None ==> field.otel_unit() == "1"@,
{
}

} // verus!
