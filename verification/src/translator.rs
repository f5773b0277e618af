//! Turns the values that an entry writes into measurements.

use crate::fallback::{FallbackCache, FallbackKey};
use crate::journal::{called, Call, Event, Journal};
use crate::metrics::{
    record_observations, recording, CachedInstrument, FloatInstruments, InstrumentKind,
};
use crate::observation::Observation;
use crate::outside::{has_distribution, is_distribution, key_value, new_key_value};
use crate::plan::{joined, EntryPlan};
use metrique_writer_core::unit::Unit;
use metrique_writer_core::value::MetricFlags;
use opentelemetry::KeyValue;
use vstd::prelude::*;

verus! {

/// The attributes of pairs of a key and a value.
pub open spec fn attributes_of(pairs: Seq<(String, String)>) -> Seq<KeyValue> {
    pairs.map_values(|pair: (String, String)| key_value(pair.0@, pair.1@))
}

/// The observations of one metric field, kept until the attributes of the whole
/// entry are known: a string that is written after the field still becomes an
/// attribute of it.
#[verifier::reject_recursive_types(V)]
pub struct PendingMetric<V> {
    pub instrument: CachedInstrument<V>,
    pub observations: Vec<Observation>,
    pub per_metric_dimensions: Vec<KeyValue>,
}

/// `parts` are the calls that record `metrics`: for each metric those that hand
/// its observations to its instrument, with its own dimensions and, behind
/// them, `attributes`.
pub open spec fn replay<B: FloatInstruments>(
    floats: &B,
    metrics: Seq<PendingMetric<B::Value>>,
    attributes: Seq<KeyValue>,
    parts: Seq<Seq<Call<B::Value>>>,
) -> bool {
    &&& parts.len() == metrics.len()
    &&& forall|i: int|
        0 <= i < metrics.len() ==> recording(
            floats,
            &metrics[i].instrument,
            metrics[i].observations@,
            metrics[i].per_metric_dimensions@ + attributes,
            #[trigger] parts[i],
        )
}

/// Collects what one entry writes.
#[verifier::reject_recursive_types(B)]
pub struct OtelEntryWriter<'sink, 'plan, B: FloatInstruments> {
    plan: &'plan EntryPlan<B::Value>,
    fallback_cache: &'sink FallbackCache<B>,
    entry_attributes: Vec<KeyValue>,
    pending: Vec<PendingMetric<B::Value>>,
    unclassified: Vec<String>,
}

impl<'sink, 'plan, B: FloatInstruments> OtelEntryWriter<'sink, 'plan, B> {
    pub closed spec fn plan(&self) -> EntryPlan<B::Value> {
        *self.plan
    }

    pub closed spec fn cache(&self) -> FallbackCache<B> {
        *self.fallback_cache
    }

    /// The attributes of the entry, from the strings written so far.
    pub closed spec fn attributes(&self) -> Seq<KeyValue> {
        self.entry_attributes@
    }

    /// The metrics written so far.
    pub closed spec fn pending(&self) -> Seq<PendingMetric<B::Value>> {
        self.pending@
    }

    /// The names of the metrics that were written but dropped, in order.
    pub closed spec fn unclassified(&self) -> Seq<Seq<char>> {
        self.unclassified@.map_values(|name: String| name@)
    }

    /// The floating-point side of the instruments that the entry is recorded
    /// with.
    pub open spec fn floats(&self) -> B {
        self.cache().instrument_builder().float_instruments()
    }

    /// A metric of this name is recorded: the plan has an instrument for it, or
    /// it is a distribution.
    pub open spec fn is_classified(&self, name: Seq<char>, distribution: bool) -> bool {
        self.plan().fields@.contains_key(name) || distribution
    }

    /// What the cache is asked for where the plan has no instrument.
    pub open spec fn cache_key(&self, name: Seq<char>) -> FallbackKey {
        FallbackKey { scope: self.plan().scope@, name, kind: InstrumentKind::Histogram }
    }

    /// `instrument` is one to record a metric of this name and unit with, and
    /// `events` is what was done to get it: that of the plan, for which nothing
    /// is done, or, where the plan has none, the cache's answer to one request
    /// for a histogram.
    pub open spec fn resolves_to(
        &self,
        name: Seq<char>,
        unit: Unit,
        instrument: &CachedInstrument<B::Value>,
        events: Seq<Event<B>>,
    ) -> bool {
        if self.plan().fields@.contains_key(name) {
            &&& instrument.same_instrument(&self.plan().fields@[name].instrument)
            &&& events.len() == 0
        } else {
            self.cache().answered(self.cache_key(name), unit, instrument, events)
        }
    }

    /// `after` is `self`, to which nothing but a string was written.
    pub open spec fn adds_string(&self, name: Seq<char>, value: Seq<char>, after: &Self) -> bool {
        &&& after.plan() == self.plan()
        &&& after.cache() == self.cache()
        &&& after.attributes() == self.attributes().push(key_value(name, value))
        &&& after.pending() == self.pending()
        &&& after.unclassified() == self.unclassified()
    }

    /// `after` is `self`, to which nothing but a metric was written. A metric
    /// that is not recorded counts as unclassified. `events` is all that was
    /// done meanwhile.
    pub open spec fn adds_metric(
        &self,
        name: Seq<char>,
        observations: Seq<Observation>,
        unit: Unit,
        dimensions: Seq<KeyValue>,
        distribution: bool,
        events: Seq<Event<B>>,
        after: &Self,
    ) -> bool {
        &&& after.plan() == self.plan()
        &&& after.cache() == self.cache()
        &&& after.attributes() == self.attributes()
        &&& if self.is_classified(name, distribution) {
            &&& after.pending().len() == self.pending().len() + 1
            &&& after.pending().drop_last() == self.pending()
            &&& after.pending().last().observations@ == observations
            &&& after.pending().last().per_metric_dimensions@ == dimensions
            &&& self.resolves_to(name, unit, &after.pending().last().instrument, events)
            &&& after.unclassified() == self.unclassified()
        } else {
            &&& after.pending() == self.pending()
            &&& after.unclassified() == self.unclassified().push(name)
            &&& events.len() == 0
        }
    }

    pub fn new(plan: &'plan EntryPlan<B::Value>, fallback_cache: &'sink FallbackCache<B>) -> (r:
        Self)
        ensures
            r.plan() == *plan,
            r.cache() == *fallback_cache,
            r.attributes() == Seq::<KeyValue>::empty(),
            r.pending() == Seq::<PendingMetric<B::Value>>::empty(),
            r.unclassified() == Seq::<Seq<char>>::empty(),
    {
        OtelEntryWriter {
            plan,
            fallback_cache,
            entry_attributes: Vec::new(),
            pending: Vec::new(),
            unclassified: Vec::new(),
        }
    }

    /// The names of the metrics that were written but dropped, in order. There
    /// are as many as metrics that count as unclassified.
    pub fn unclassified_metrics(&self) -> (r: &Vec<String>)
        ensures
            r@.map_values(|name: String| name@) == self.unclassified(),
    {
        &self.unclassified
    }

    /// A writer for the value of the field `name`.
    pub fn value(&mut self, name: String) -> (r: OtelValueWriter<'_, 'sink, 'plan, B>)
        ensures
            r.field() == name@,
            *r.parent == *old(self),
            *final(self) == *final(r.parent),
    {
        OtelValueWriter { parent: self, name }
    }

    /// The instrument for a metric of this name and unit, with what was done to
    /// get it; `None` for a metric that is not recorded, for which nothing is
    /// done.
    fn resolve(
        &self,
        name: &str,
        unit: Unit,
        is_distribution: bool,
        journal: &mut Journal<B>,
    ) -> (r: (Option<CachedInstrument<B::Value>>, Ghost<Seq<Event<B>>>))
        ensures
            r.0 is Some <==> self.is_classified(name@, is_distribution),
            match r.0 {
                Some(instrument) => self.resolves_to(name@, unit, &instrument, r.1@),
                None => r.1@.len() == 0,
            },
            final(journal).extends(old(journal), r.1@),
    {
        let ghost start = *journal;
        let ghost nothing: Seq<Event<B>> = Seq::empty();
        assert(journal.events() == start.events() + nothing);
        match self.plan.fields.get(name) {
            Some(field) => (Some(field.instrument.clone()), Ghost(nothing)),
            None => {
                if !is_distribution {
                    return (None, Ghost(nothing));
                }
                let instrument = self.fallback_cache.get_or_build(
                    self.plan.scope,
                    name,
                    InstrumentKind::Histogram,
                    unit,
                    journal,
                );
                let ghost events = choose|events: Seq<Event<B>>|
                    {
                        &&& #[trigger] self.cache().answered(
                            self.cache_key(name@),
                            unit,
                            &instrument,
                            events,
                        )
                        &&& journal.extends(&start, events)
                    };
                (Some(instrument), Ghost(events))
            },
        }
    }

    /// Records every metric that was written, in the order of writing, once.
    /// The attributes of a measurement are the metric's own, then those of the
    /// entry; where a key is among both, both stay. No other call is made.
    pub fn finish(self, journal: &mut Journal<B>)
        ensures
            exists|parts: Seq<Seq<Call<B::Value>>>| #[trigger]
                replay(&self.floats(), self.pending(), self.attributes(), parts)
                    && final(journal).makes(old(journal), joined(parts)),
    {
        let floats = self.fallback_cache.builder().floats();
        let ghost before = *journal;
        let ghost mut parts: Seq<Seq<Call<B::Value>>> = Seq::empty();
        assert(journal.events() == before.events() + called(joined(parts)));
        for metric in metrics: self.pending
            invariant
                metrics.seq() == self.pending@,
                *floats == self.floats(),
                replay(
                    floats,
                    self.pending@.take(metrics.index()),
                    self.entry_attributes@,
                    parts,
                ),
                journal.makes(&before, joined(parts)),
        {
            let PendingMetric { instrument, observations, per_metric_dimensions } = metric;
            let mut attributes = per_metric_dimensions;
            append_attributes(&mut attributes, &self.entry_attributes);
            let ghost between = *journal;
            record_observations(
                &instrument,
                &observations,
                attributes.as_slice(),
                floats,
                journal,
            );
            proof {
                let made = choose|made: Seq<Call<B::Value>>| #[trigger]
                    recording(floats, &instrument, observations@, attributes@, made)
                        && journal.makes(&between, made);
                let longer = parts.push(made);
                assert(longer.drop_last() == parts);
                assert(journal.events() == before.events() + called(joined(longer)));
                parts = longer;
            }
        }
        assert(self.pending@.take(self.pending@.len() as int) == self.pending@);
        assert(replay(&self.floats(), self.pending(), self.attributes(), parts));
    }
}

/// Adds `more` behind `attributes`.
fn append_attributes(attributes: &mut Vec<KeyValue>, more: &Vec<KeyValue>)
    ensures
        final(attributes)@ == old(attributes)@ + more@,
{
    let ghost before = attributes@;
    for i in 0..more.len()
        invariant
            attributes@ == before + more@.take(i as int),
    {
        attributes.push(more[i].clone());
        assert(more@.take(i + 1) == more@.take(i as int).push(more@[i as int]));
    }
    assert(more@.take(more@.len() as int) == more@);
}

/// Makes attributes of pairs of a key and a value.
fn to_attributes(pairs: Vec<(String, String)>) -> (r: Vec<KeyValue>)
    ensures
        r@ == attributes_of(pairs@),
{
    let mut attributes: Vec<KeyValue> = Vec::new();
    for pair in iter: pairs
        invariant
            iter.seq() == pairs@,
            attributes@ == attributes_of(pairs@.take(iter.index())),
    {
        let (key, value) = pair;
        attributes.push(new_key_value(key, value));
    }
    assert(pairs@.take(pairs@.len() as int) == pairs@);
    attributes
}

/// Collects the value of one field.
#[verifier::reject_recursive_types(B)]
pub struct OtelValueWriter<'a, 'sink, 'plan, B: FloatInstruments> {
    pub parent: &'a mut OtelEntryWriter<'sink, 'plan, B>,
    pub name: String,
}

impl<'a, 'sink, 'plan, B: FloatInstruments> OtelValueWriter<'a, 'sink, 'plan, B> {
    pub open spec fn field(&self) -> Seq<char> {
        self.name@
    }

    /// A string becomes an attribute of every metric of the entry. Nothing else
    /// is done.
    pub fn string(self, value: &str)
        ensures
            old(self.parent).adds_string(self.field(), value@, final(self.parent)),
    {
        let attribute = new_key_value(self.name, value.to_owned());
        self.parent.entry_attributes.push(attribute);
    }

    /// A metric is kept until the entry is finished, where there is an
    /// instrument for it; otherwise it is dropped and counts as unclassified.
    pub fn metric(
        self,
        distribution: Vec<Observation>,
        unit: Unit,
        dimensions: Vec<(String, String)>,
        flags: MetricFlags<'_>,
        journal: &mut Journal<B>,
    )
        ensures
            exists|events: Seq<Event<B>>|
                {
                    &&& #[trigger] old(self.parent).adds_metric(
                        self.field(),
                        distribution@,
                        unit,
                        attributes_of(dimensions@),
                        is_distribution(flags),
                        events,
                        final(self.parent),
                    )
                    &&& final(journal).extends(old(journal), events)
                },
    {
        let is_distribution = has_distribution(&flags);
        self.classified_metric(distribution, unit, dimensions, is_distribution, journal)
    }

    /// [`metric`](Self::metric), where it is known whether the flags are those
    /// of a distribution.
    pub fn classified_metric(
        self,
        distribution: Vec<Observation>,
        unit: Unit,
        dimensions: Vec<(String, String)>,
        is_distribution: bool,
        journal: &mut Journal<B>,
    )
        ensures
            exists|events: Seq<Event<B>>|
                {
                    &&& #[trigger] old(self.parent).adds_metric(
                        self.field(),
                        distribution@,
                        unit,
                        attributes_of(dimensions@),
                        is_distribution,
                        events,
                        final(self.parent),
                    )
                    &&& final(journal).extends(old(journal), events)
                },
    {
        let OtelValueWriter { parent, name } = self;
        let (resolved, events) = parent.resolve(name.as_str(), unit, is_distribution, journal);
        match resolved {
            Some(instrument) => {
                let ghost before = parent.pending@;
                let metric = PendingMetric {
                    instrument,
                    observations: distribution,
                    per_metric_dimensions: to_attributes(dimensions),
                };
                parent.pending.push(metric);
                assert(parent.pending@.drop_last() == before);
            },
            None => {
                let ghost names = parent.unclassified@;
                let ghost field = name@;
                parent.unclassified.push(name);
                assert(parent.unclassified@.map_values(|name: String| name@) == names.map_values(
                    |name: String| name@,
                ).push(field));
            },
        }
        assert(old(self.parent).adds_metric(
            self.field(),
            distribution@,
            unit,
            attributes_of(dimensions@),
            is_distribution,
            events@,
            final(self.parent),
        ));
    }
}

} // verus!
