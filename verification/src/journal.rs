//! The journal of what the library does to the world around it.
//!
//! Three things have an effect beyond the values that a function returns: a
//! meter provider is asked for an instrument ([`meters`]), an instrument is
//! called ([`instrument`]), and a shared table of instruments is read or added
//! to ([`table`]). Each takes a journal and adds one event to it.

pub mod instrument;
pub mod meters;
pub mod table;

use crate::fallback::FallbackKey;
use crate::journal::instrument::Target;
use crate::journal::table::SharedTable;
use crate::metrics::{CachedInstrument, FloatInstruments, InstrumentKind};
use opentelemetry::metrics::{Counter, Gauge, Histogram, UpDownCounter};
use opentelemetry::KeyValue;
use opentelemetry_sdk::metrics::SdkMeterProvider;
use vstd::prelude::*;

verus! {

/// What a meter provider is asked for.
pub ghost struct Request {
    pub scope: Seq<char>,
    pub name: Seq<char>,
    pub kind: InstrumentKind,
    pub unit: Seq<char>,
}

/// One call to an instrument: the instrument, the number that it was handed and
/// the attributes that came with it. Histograms and gauges measure numbers of
/// type `V`.
#[verifier::reject_recursive_types(V)]
pub ghost enum Call<V> {
    /// A counter was told to add.
    Count(Target<Counter<u64>>, u64, Seq<KeyValue>),
    /// An up-down counter was told to add.
    Change(Target<UpDownCounter<i64>>, i64, Seq<KeyValue>),
    /// A histogram was told to record.
    Sample(Target<Histogram<V>>, V, Seq<KeyValue>),
    /// A gauge was told to record.
    Level(Target<Gauge<V>>, V, Seq<KeyValue>),
}

impl<V> Call<V> {
    pub open spec fn attributes(self) -> Seq<KeyValue> {
        match self {
            Call::Count(_, _, attributes) => attributes,
            Call::Change(_, _, attributes) => attributes,
            Call::Sample(_, _, attributes) => attributes,
            Call::Level(_, _, attributes) => attributes,
        }
    }
}

/// One effect.
#[verifier::reject_recursive_types(B)]
pub ghost enum Event<B: FloatInstruments> {
    /// A meter provider was asked for an instrument.
    Asked(SdkMeterProvider, Request),
    /// An instrument was called.
    Called(Call<B::Value>),
    /// A shared table was read; this is what it held.
    Looked(SharedTable<B>, Map<FallbackKey, CachedInstrument<B::Value>>),
    /// A shared table was taken out of its lock and another was put back; these
    /// are the two.
    Replaced(
        SharedTable<B>,
        Map<FallbackKey, CachedInstrument<B::Value>>,
        Map<FallbackKey, CachedInstrument<B::Value>>,
    ),
}

/// The events of calls.
pub open spec fn called<B: FloatInstruments>(calls: Seq<Call<B::Value>>) -> Seq<Event<B>> {
    calls.map_values(|call: Call<B::Value>| Event::Called(call))
}

/// The events of requests to a meter provider.
pub open spec fn asked<B: FloatInstruments>(
    provider: SdkMeterProvider,
    requests: Seq<Request>,
) -> Seq<Event<B>> {
    requests.map_values(|request: Request| Event::Asked(provider, request))
}

/// Who opens a journal: the program around the library. Nothing in the library
/// is one, so the library opens no journal of its own, and a function has no
/// effects but those that it adds to the journal that it is given.
pub trait JournalKeeper {}

/// The effects so far, in order.
#[verifier::reject_recursive_types(B)]
pub struct Journal<B: FloatInstruments> {
    events: Ghost<Seq<Event<B>>>,
}

impl<B: FloatInstruments> Journal<B> {
    pub closed spec fn events(&self) -> Seq<Event<B>> {
        self.events@
    }

    /// `self` is `before`, to which `events` were added.
    pub open spec fn extends(&self, before: &Self, events: Seq<Event<B>>) -> bool {
        self.events() == before.events() + events
    }

    /// `self` is `before`, to which `calls` were added and nothing else.
    pub open spec fn makes(&self, before: &Self, calls: Seq<Call<B::Value>>) -> bool {
        self.extends(before, called(calls))
    }

    /// A journal without events.
    pub fn new<K: JournalKeeper>(keeper: &K) -> (r: Self)
        ensures
            r.events() == Seq::<Event<B>>::empty(),
    {
        Journal { events: Ghost(Seq::empty()) }
    }
}

} // verus!
