//! OpenTelemetry instruments: what there is, how one is made, and what is
//! recorded with it.

use crate::journal::instrument::{Instrument, Target};
use crate::journal::meters::Meters;
use crate::journal::{called, Call, Event, Journal, Request};
use crate::observation::{counts, deltas, samples, Observation, Sample};
use metrique_writer_core::unit::{NegativeScale, PositiveScale, Unit};
use opentelemetry::metrics::{Counter, Gauge, Histogram, UpDownCounter};
use opentelemetry::KeyValue;
use opentelemetry_sdk::metrics::SdkMeterProvider;
use vstd::prelude::*;

verus! {

/// The kinds of instrument that a metric field can be recorded with.
#[derive(Clone, Copy, Debug, PartialEq, Eq, Hash, Structural)]
#[non_exhaustive]
pub enum InstrumentKind {
    Counter,
    UpDownCounter,
    Histogram,
    Gauge,
}

/// The floating-point side of the instruments: histograms and gauges measure
/// floating-point numbers, which stay with the implementor.
pub trait FloatInstruments {
    /// The numbers that histograms and gauges measure.
    type Value: Copy;

    /// A histogram of the meter that `provider` has for `scope`.
    fn histogram(
        &self,
        provider: &SdkMeterProvider,
        scope: &'static str,
        name: &str,
        unit: &'static str,
    ) -> Histogram<Self::Value>;

    /// A gauge of the meter that `provider` has for `scope`.
    fn gauge(
        &self,
        provider: &SdkMeterProvider,
        scope: &'static str,
        name: &str,
        unit: &'static str,
    ) -> Gauge<Self::Value>;

    /// The number that `sample` describes.
    fn value(&self, sample: Sample) -> Self::Value;
}

/// An instrument resolved for a scope, a name, a kind and a unit. Recording is
/// synchronised inside the SDK, so no lock is needed around it.
#[verifier::reject_recursive_types(V)]
pub enum CachedInstrument<V> {
    Counter(Instrument<Counter<u64>>),
    UpDownCounter(Instrument<UpDownCounter<i64>>),
    Histogram(Instrument<Histogram<V>>),
    Gauge(Instrument<Gauge<V>>),
}

impl<V> CachedInstrument<V> {
    pub open spec fn kind(&self) -> InstrumentKind {
        match self {
            CachedInstrument::Counter(_) => InstrumentKind::Counter,
            CachedInstrument::UpDownCounter(_) => InstrumentKind::UpDownCounter,
            CachedInstrument::Histogram(_) => InstrumentKind::Histogram,
            CachedInstrument::Gauge(_) => InstrumentKind::Gauge,
        }
    }

    pub open spec fn scope(&self) -> Seq<char> {
        match self {
            CachedInstrument::Counter(c) => c.scope(),
            CachedInstrument::UpDownCounter(c) => c.scope(),
            CachedInstrument::Histogram(h) => h.scope(),
            CachedInstrument::Gauge(g) => g.scope(),
        }
    }

    pub open spec fn name(&self) -> Seq<char> {
        match self {
            CachedInstrument::Counter(c) => c.name(),
            CachedInstrument::UpDownCounter(c) => c.name(),
            CachedInstrument::Histogram(h) => h.name(),
            CachedInstrument::Gauge(g) => g.name(),
        }
    }

    pub open spec fn unit(&self) -> Seq<char> {
        match self {
            CachedInstrument::Counter(c) => c.unit(),
            CachedInstrument::UpDownCounter(c) => c.unit(),
            CachedInstrument::Histogram(h) => h.unit(),
            CachedInstrument::Gauge(g) => g.unit(),
        }
    }

    /// Both are handles to one instrument.
    pub open spec fn same_instrument(&self, other: &Self) -> bool {
        match (self, other) {
            (CachedInstrument::Counter(a), CachedInstrument::Counter(b)) => a.same_instrument(b),
            (
                CachedInstrument::UpDownCounter(a),
                CachedInstrument::UpDownCounter(b),
            ) => a.same_instrument(b),
            (CachedInstrument::Histogram(a), CachedInstrument::Histogram(b)) => a.same_instrument(
                b,
            ),
            (CachedInstrument::Gauge(a), CachedInstrument::Gauge(b)) => a.same_instrument(b),
            _ => false,
        }
    }

    pub fn instrument_kind(&self) -> (r: InstrumentKind)
        ensures
            r == self.kind(),
    {
        match self {
            CachedInstrument::Counter(_) => InstrumentKind::Counter,
            CachedInstrument::UpDownCounter(_) => InstrumentKind::UpDownCounter,
            CachedInstrument::Histogram(_) => InstrumentKind::Histogram,
            CachedInstrument::Gauge(_) => InstrumentKind::Gauge,
        }
    }

    pub fn scope_name(&self) -> (r: &'static str)
        ensures
            r@ == self.scope(),
    {
        match self {
            CachedInstrument::Counter(c) => c.scope_name(),
            CachedInstrument::UpDownCounter(c) => c.scope_name(),
            CachedInstrument::Histogram(h) => h.scope_name(),
            CachedInstrument::Gauge(g) => g.scope_name(),
        }
    }

    pub fn instrument_name(&self) -> (r: &str)
        ensures
            r@ == self.name(),
    {
        match self {
            CachedInstrument::Counter(c) => c.instrument_name(),
            CachedInstrument::UpDownCounter(c) => c.instrument_name(),
            CachedInstrument::Histogram(h) => h.instrument_name(),
            CachedInstrument::Gauge(g) => g.instrument_name(),
        }
    }

    pub fn unit_name(&self) -> (r: &'static str)
        ensures
            r@ == self.unit(),
    {
        match self {
            CachedInstrument::Counter(c) => c.unit_name(),
            CachedInstrument::UpDownCounter(c) => c.unit_name(),
            CachedInstrument::Histogram(h) => h.unit_name(),
            CachedInstrument::Gauge(g) => g.unit_name(),
        }
    }
}

impl<V: Copy> Clone for CachedInstrument<V> {
    /// Another handle to the instrument.
    fn clone(&self) -> (r: Self)
        ensures
            r.same_instrument(self),
    {
        match self {
            CachedInstrument::Counter(c) => CachedInstrument::Counter(c.another()),
            CachedInstrument::UpDownCounter(c) => CachedInstrument::UpDownCounter(c.another()),
            CachedInstrument::Histogram(h) => CachedInstrument::Histogram(h.another()),
            CachedInstrument::Gauge(g) => CachedInstrument::Gauge(g.another()),
        }
    }
}

/// Makes instruments from a meter provider. It keeps none: the plans and the
/// cache that ask for one hold it.
pub struct InstrumentBuilder<B> {
    meters: Meters<B>,
}

impl<B: FloatInstruments> InstrumentBuilder<B> {
    pub closed spec fn meters(&self) -> Meters<B> {
        self.meters
    }

    pub open spec fn meter_provider(&self) -> SdkMeterProvider {
        self.meters().provider()
    }

    pub open spec fn float_instruments(&self) -> B {
        self.meters().float_instruments()
    }

    /// The handle of `instrument` is what the meter provider gave when it was
    /// asked for the instrument's kind with its scope, its name and its unit.
    pub open spec fn made(&self, instrument: &CachedInstrument<B::Value>) -> bool {
        self.meters().made(instrument)
    }

    pub fn new(meter_provider: SdkMeterProvider, floats: B) -> (r: Self)
        ensures
            r.meter_provider() == meter_provider,
            r.float_instruments() == floats,
    {
        InstrumentBuilder { meters: Meters::new(meter_provider, floats) }
    }

    pub fn floats(&self) -> (r: &B)
        ensures
            *r == self.float_instruments(),
    {
        self.meters.floats()
    }

    /// The meters that the instruments come from.
    pub(crate) fn shared_meters(&self) -> (r: &Meters<B>)
        ensures
            *r == self.meters(),
    {
        &self.meters
    }

    /// Makes an instrument: asks the meter provider for it, and for no other.
    pub fn build(
        &self,
        scope: &'static str,
        name: &str,
        kind: InstrumentKind,
        unit: Unit,
        journal: &mut Journal<B>,
    ) -> (r: CachedInstrument<B::Value>)
        ensures
            r.kind() == kind,
            r.scope() == scope@,
            r.name() == name@,
            r.unit() == otel_unit(unit),
            self.made(&r),
            final(journal).extends(
                old(journal),
                seq![
                    Event::Asked(
                        self.meter_provider(),
                        Request { scope: scope@, name: name@, kind, unit: otel_unit(unit) },
                    ),
                ],
            ),
    {
        let unit_str = unit_to_otel(unit);
        match kind {
            InstrumentKind::Counter => CachedInstrument::Counter(
                self.meters.counter(scope, name, unit_str, journal),
            ),
            InstrumentKind::UpDownCounter => CachedInstrument::UpDownCounter(
                self.meters.up_down_counter(scope, name, unit_str, journal),
            ),
            InstrumentKind::Histogram => CachedInstrument::Histogram(
                self.meters.histogram(scope, name, unit_str, journal),
            ),
            InstrumentKind::Gauge => CachedInstrument::Gauge(
                self.meters.gauge(scope, name, unit_str, journal),
            ),
        }
    }
}

impl<B: FloatInstruments + Clone> Clone for InstrumentBuilder<B> {
    fn clone(&self) -> (r: Self)
        ensures
            r.meter_provider() == self.meter_provider(),
            cloned(self.float_instruments(), r.float_instruments()),
    {
        InstrumentBuilder { meters: self.meters.clone() }
    }
}

/// The UCUM-flavoured name of a unit, as the OpenTelemetry conventions have it
/// on the wire. What has no dimension is measured in `1`.
pub open spec fn otel_unit(unit: Unit) -> Seq<char> {
    match unit {
        Unit::Percent => "%"@,
        Unit::Second(NegativeScale::Micro) => "us"@,
        Unit::Second(NegativeScale::Milli) => "ms"@,
        Unit::Second(NegativeScale::One) => "s"@,
        Unit::Byte(PositiveScale::Kilo) => "KBy"@,
        Unit::Byte(PositiveScale::Mega) => "MBy"@,
        Unit::Byte(PositiveScale::Giga) => "GBy"@,
        Unit::Byte(PositiveScale::Tera) => "TBy"@,
        Unit::Byte(_) => "By"@,
        Unit::BytePerSecond(PositiveScale::Kilo) => "KBy/s"@,
        Unit::BytePerSecond(PositiveScale::Mega) => "MBy/s"@,
        Unit::BytePerSecond(PositiveScale::Giga) => "GBy/s"@,
        Unit::BytePerSecond(PositiveScale::Tera) => "TBy/s"@,
        Unit::BytePerSecond(_) => "By/s"@,
        Unit::Bit(PositiveScale::Kilo) => "Kbit"@,
        Unit::Bit(PositiveScale::Mega) => "Mbit"@,
        Unit::Bit(PositiveScale::Giga) => "Gbit"@,
        Unit::Bit(PositiveScale::Tera) => "Tbit"@,
        Unit::Bit(_) => "bit"@,
        Unit::BitPerSecond(PositiveScale::Kilo) => "Kbit/s"@,
        Unit::BitPerSecond(PositiveScale::Mega) => "Mbit/s"@,
        Unit::BitPerSecond(PositiveScale::Giga) => "Gbit/s"@,
        Unit::BitPerSecond(PositiveScale::Tera) => "Tbit/s"@,
        Unit::BitPerSecond(_) => "bit/s"@,
        Unit::Custom(name) => name@,
        _ => "1"@,
    }
}

/// The name of a unit on the wire. A unit or a scale without a name here has
/// that of the unscaled unit, or of none.
pub fn unit_to_otel(unit: Unit) -> (r: &'static str)
    ensures
        r@ == otel_unit(unit),
{
    match unit {
        Unit::None | Unit::Count => "1",
        Unit::Percent => "%",
        Unit::Second(NegativeScale::Micro) => "us",
        Unit::Second(NegativeScale::Milli) => "ms",
        Unit::Second(NegativeScale::One) => "s",
        Unit::Byte(scale) => match scale {
            PositiveScale::One => "By",
            PositiveScale::Kilo => "KBy",
            PositiveScale::Mega => "MBy",
            PositiveScale::Giga => "GBy",
            PositiveScale::Tera => "TBy",
            _ => "By",
        },
        Unit::BytePerSecond(scale) => match scale {
            PositiveScale::One => "By/s",
            PositiveScale::Kilo => "KBy/s",
            PositiveScale::Mega => "MBy/s",
            PositiveScale::Giga => "GBy/s",
            PositiveScale::Tera => "TBy/s",
            _ => "By/s",
        },
        Unit::Bit(scale) => match scale {
            PositiveScale::One => "bit",
            PositiveScale::Kilo => "Kbit",
            PositiveScale::Mega => "Mbit",
            PositiveScale::Giga => "Gbit",
            PositiveScale::Tera => "Tbit",
            _ => "bit",
        },
        Unit::BitPerSecond(scale) => match scale {
            PositiveScale::One => "bit/s",
            PositiveScale::Kilo => "Kbit/s",
            PositiveScale::Mega => "Mbit/s",
            PositiveScale::Giga => "Gbit/s",
            PositiveScale::Tera => "Tbit/s",
            _ => "bit/s",
        },
        Unit::Custom(name) => name,
        _ => "1",
    }
}

/// `values` are what `floats` makes of `samples`, one for one.
pub open spec fn valued<B: FloatInstruments>(
    floats: &B,
    samples: Seq<Sample>,
    values: Seq<B::Value>,
) -> bool {
    &&& values.len() == samples.len()
    &&& forall|i: int|
        0 <= i < samples.len() ==> call_ensures(B::value, (floats, samples[i]), #[trigger] values[i])
}

/// A counter is told to add each of `values`.
pub open spec fn count_calls<V>(
    counter: Target<Counter<u64>>,
    values: Seq<u64>,
    attributes: Seq<KeyValue>,
) -> Seq<Call<V>> {
    values.map_values(|value: u64| Call::Count(counter, value, attributes))
}

/// An up-down counter is told to add each of `values`.
pub open spec fn change_calls<V>(
    counter: Target<UpDownCounter<i64>>,
    values: Seq<i64>,
    attributes: Seq<KeyValue>,
) -> Seq<Call<V>> {
    values.map_values(|value: i64| Call::Change(counter, value, attributes))
}

/// A histogram is told to record each of `values`.
pub open spec fn sample_calls<V>(
    histogram: Target<Histogram<V>>,
    values: Seq<V>,
    attributes: Seq<KeyValue>,
) -> Seq<Call<V>> {
    values.map_values(|value: V| Call::Sample(histogram, value, attributes))
}

/// A gauge is told to record each of `values`.
pub open spec fn level_calls<V>(
    gauge: Target<Gauge<V>>,
    values: Seq<V>,
    attributes: Seq<KeyValue>,
) -> Seq<Call<V>> {
    values.map_values(|value: V| Call::Level(gauge, value, attributes))
}

/// `made` are the calls that hand the numbers of `observations` to
/// `instrument`, in order, each with `attributes`.
pub open spec fn recording<B: FloatInstruments>(
    floats: &B,
    instrument: &CachedInstrument<B::Value>,
    observations: Seq<Observation>,
    attributes: Seq<KeyValue>,
    made: Seq<Call<B::Value>>,
) -> bool {
    match instrument {
        CachedInstrument::Counter(c) => made == count_calls::<B::Value>(
            c.target(),
            counts(observations),
            attributes,
        ),
        CachedInstrument::UpDownCounter(c) => made == change_calls::<B::Value>(
            c.target(),
            deltas(observations),
            attributes,
        ),
        CachedInstrument::Histogram(h) => exists|values: Seq<B::Value>| #[trigger]
            valued(floats, samples(observations), values) && made == sample_calls(
                h.target(),
                values,
                attributes,
            ),
        CachedInstrument::Gauge(g) => exists|values: Seq<B::Value>| #[trigger]
            valued(floats, samples(observations), values) && made == level_calls(
                g.target(),
                values,
                attributes,
            ),
    }
}

/// Records the numbers of `observations` with `instrument`, each with
/// `attributes`. An observation that has no number for the instrument is left
/// out. No other call is made.
pub fn record_observations<B: FloatInstruments>(
    instrument: &CachedInstrument<B::Value>,
    observations: &Vec<Observation>,
    attributes: &[KeyValue],
    floats: &B,
    journal: &mut Journal<B>,
)
    ensures
        exists|made: Seq<Call<B::Value>>| #[trigger]
            recording(floats, instrument, observations@, attributes@, made) && final(journal).makes(
                old(journal),
                made,
            ),
{
    match instrument {
        CachedInstrument::Counter(c) => {
            add_counts(c, observations, attributes, journal);
            assert(recording(
                floats,
                instrument,
                observations@,
                attributes@,
                count_calls(c.target(), counts(observations@), attributes@),
            ));
        },
        CachedInstrument::UpDownCounter(c) => {
            add_deltas(c, observations, attributes, journal);
            assert(recording(
                floats,
                instrument,
                observations@,
                attributes@,
                change_calls(c.target(), deltas(observations@), attributes@),
            ));
        },
        CachedInstrument::Histogram(h) => {
            let values = record_distribution(h, observations, attributes, floats, journal);
            assert(recording(
                floats,
                instrument,
                observations@,
                attributes@,
                sample_calls(h.target(), values@, attributes@),
            ));
        },
        CachedInstrument::Gauge(g) => {
            let values = record_levels(g, observations, attributes, floats, journal);
            assert(recording(
                floats,
                instrument,
                observations@,
                attributes@,
                level_calls(g.target(), values@, attributes@),
            ));
        },
    }
}

fn add_counts<B: FloatInstruments>(
    counter: &Instrument<Counter<u64>>,
    observations: &Vec<Observation>,
    attributes: &[KeyValue],
    journal: &mut Journal<B>,
)
    ensures
        final(journal).makes(
            old(journal),
            count_calls(counter.target(), counts(observations@), attributes@),
        ),
{
    let ghost before = *journal;
    for i in 0..observations.len()
        invariant
            journal.makes(
                &before,
                count_calls(counter.target(), counts(observations@.take(i as int)), attributes@),
            ),
    {
        assert(observations@.take(i + 1).drop_last() == observations@.take(i as int));
        let ghost so_far = counts(observations@.take(i as int));
        if let Some(value) = observations[i].count() {
            counter.add(value, attributes, journal);
            assert(journal.events() == before.events() + called(
                count_calls(counter.target(), so_far.push(value), attributes@),
            ));
        }
    }
    assert(observations@.take(observations@.len() as int) == observations@);
}

fn add_deltas<B: FloatInstruments>(
    counter: &Instrument<UpDownCounter<i64>>,
    observations: &Vec<Observation>,
    attributes: &[KeyValue],
    journal: &mut Journal<B>,
)
    ensures
        final(journal).makes(
            old(journal),
            change_calls(counter.target(), deltas(observations@), attributes@),
        ),
{
    let ghost before = *journal;
    for i in 0..observations.len()
        invariant
            journal.makes(
                &before,
                change_calls(counter.target(), deltas(observations@.take(i as int)), attributes@),
            ),
    {
        assert(observations@.take(i + 1).drop_last() == observations@.take(i as int));
        let ghost so_far = deltas(observations@.take(i as int));
        if let Some(value) = observations[i].delta() {
            counter.add(value, attributes, journal);
            assert(journal.events() == before.events() + called(
                change_calls(counter.target(), so_far.push(value), attributes@),
            ));
        }
    }
    assert(observations@.take(observations@.len() as int) == observations@);
}

fn record_distribution<B: FloatInstruments>(
    histogram: &Instrument<Histogram<B::Value>>,
    observations: &Vec<Observation>,
    attributes: &[KeyValue],
    floats: &B,
    journal: &mut Journal<B>,
) -> (values: Ghost<Seq<B::Value>>)
    ensures
        valued(floats, samples(observations@), values@),
        final(journal).makes(old(journal), sample_calls(histogram.target(), values@, attributes@)),
{
    let ghost before = *journal;
    let mut values: Ghost<Seq<B::Value>> = Ghost(Seq::empty());
    for i in 0..observations.len()
        invariant
            valued(floats, samples(observations@.take(i as int)), values@),
            journal.makes(&before, sample_calls(histogram.target(), values@, attributes@)),
    {
        assert(observations@.take(i + 1).drop_last() == observations@.take(i as int));
        let ghost so_far = values@;
        if let Some(sample) = observations[i].sample() {
            let value = floats.value(sample);
            histogram.record(value, attributes, journal);
            values = Ghost(so_far.push(value));
            assert(journal.events() == before.events() + called(
                sample_calls(histogram.target(), so_far.push(value), attributes@),
            ));
        }
    }
    assert(observations@.take(observations@.len() as int) == observations@);
    values
}

fn record_levels<B: FloatInstruments>(
    gauge: &Instrument<Gauge<B::Value>>,
    observations: &Vec<Observation>,
    attributes: &[KeyValue],
    floats: &B,
    journal: &mut Journal<B>,
) -> (values: Ghost<Seq<B::Value>>)
    ensures
        valued(floats, samples(observations@), values@),
        final(journal).makes(old(journal), level_calls(gauge.target(), values@, attributes@)),
{
    let ghost before = *journal;
    let mut values: Ghost<Seq<B::Value>> = Ghost(Seq::empty());
    for i in 0..observations.len()
        invariant
            valued(floats, samples(observations@.take(i as int)), values@),
            journal.makes(&before, level_calls(gauge.target(), values@, attributes@)),
    {
        assert(observations@.take(i + 1).drop_last() == observations@.take(i as int));
        let ghost so_far = values@;
        if let Some(sample) = observations[i].sample() {
            let value = floats.value(sample);
            gauge.record(value, attributes, journal);
            values = Ghost(so_far.push(value));
            assert(journal.events() == before.events() + called(
                level_calls(gauge.target(), so_far.push(value), attributes@),
            ));
        }
    }
    assert(observations@.take(observations@.len() as int) == observations@);
    values
}

} // verus!
