//! Handles to OpenTelemetry instruments, with what they were made for.

use crate::journal::{Call, Event, Journal};
use crate::metrics::FloatInstruments;
use opentelemetry::metrics::{Counter, Gauge, Histogram, UpDownCounter};
use opentelemetry::KeyValue;
use vstd::prelude::*;

verus! {

/// What identifies the instrument behind a handle of type `H`.
pub ghost struct Target<H> {
    pub scope: Seq<char>,
    pub name: Seq<char>,
    pub unit: Seq<char>,
    pub handle: H,
}

/// A handle of type `H` to the instrument that the meter of `scope` has under
/// `name`, for measurements in `unit`.
pub struct Instrument<H> {
    scope: &'static str,
    name: String,
    unit: &'static str,
    handle: H,
}

impl<H> Instrument<H> {
    pub closed spec fn scope(&self) -> Seq<char> {
        self.scope@
    }

    pub closed spec fn name(&self) -> Seq<char> {
        self.name@
    }

    pub closed spec fn unit(&self) -> Seq<char> {
        self.unit@
    }

    pub closed spec fn handle(&self) -> H {
        self.handle
    }

    pub open spec fn target(&self) -> Target<H> {
        Target {
            scope: self.scope(),
            name: self.name(),
            unit: self.unit(),
            handle: self.handle(),
        }
    }

    /// Both are handles to one instrument.
    pub open spec fn same_instrument(&self, other: &Self) -> bool {
        self.target() == other.target()
    }

    pub(crate) fn new(scope: &'static str, name: &str, unit: &'static str, handle: H) -> (r: Self)
        ensures
            r.scope() == scope@,
            r.name() == name@,
            r.unit() == unit@,
            r.handle() == handle,
    {
        Instrument { scope, name: name.to_owned(), unit, handle }
    }

    pub fn scope_name(&self) -> (r: &'static str)
        ensures
            r@ == self.scope(),
    {
        self.scope
    }

    pub fn instrument_name(&self) -> (r: &str)
        ensures
            r@ == self.name(),
    {
        self.name.as_str()
    }

    pub fn unit_name(&self) -> (r: &'static str)
        ensures
            r@ == self.unit(),
    {
        self.unit
    }
}

impl Instrument<Counter<u64>> {
    /// Another handle to the counter.
    pub(crate) fn another(&self) -> (r: Self)
        ensures
            r.same_instrument(self),
    {
        Instrument::new(self.scope, self.name.as_str(), self.unit, self.handle.clone())
    }

    /// Adds `value` to the counter.
    pub(crate) fn add<B: FloatInstruments>(
        &self,
        value: u64,
        attributes: &[KeyValue],
        journal: &mut Journal<B>,
    )
        ensures
            final(journal).extends(
                old(journal),
                seq![Event::Called(Call::Count(self.target(), value, attributes@))],
            ),
            call_ensures(Counter::<u64>::add, (&self.handle(), value, attributes), ()),
    {
        self.handle.add(value, attributes);
        journal.events = Ghost(
            journal.events@ + seq![Event::Called(Call::Count(self.target(), value, attributes@))],
        );
    }
}

impl Instrument<UpDownCounter<i64>> {
    /// Another handle to the counter.
    pub(crate) fn another(&self) -> (r: Self)
        ensures
            r.same_instrument(self),
    {
        Instrument::new(self.scope, self.name.as_str(), self.unit, self.handle.clone())
    }

    /// Adds `value`, which may be negative, to the counter.
    pub(crate) fn add<B: FloatInstruments>(
        &self,
        value: i64,
        attributes: &[KeyValue],
        journal: &mut Journal<B>,
    )
        ensures
            final(journal).extends(
                old(journal),
                seq![Event::Called(Call::Change(self.target(), value, attributes@))],
            ),
            call_ensures(UpDownCounter::<i64>::add, (&self.handle(), value, attributes), ()),
    {
        self.handle.add(value, attributes);
        journal.events = Ghost(
            journal.events@ + seq![Event::Called(Call::Change(self.target(), value, attributes@))],
        );
    }
}

impl<V: Copy> Instrument<Histogram<V>> {
    /// Another handle to the histogram.
    pub(crate) fn another(&self) -> (r: Self)
        ensures
            r.same_instrument(self),
    {
        Instrument::new(self.scope, self.name.as_str(), self.unit, self.handle.clone())
    }

    /// Adds `value` to the distribution.
    pub(crate) fn record<B: FloatInstruments<Value = V>>(
        &self,
        value: V,
        attributes: &[KeyValue],
        journal: &mut Journal<B>,
    )
        ensures
            final(journal).extends(
                old(journal),
                seq![Event::Called(Call::Sample(self.target(), value, attributes@))],
            ),
            call_ensures(Histogram::<V>::record, (&self.handle(), value, attributes), ()),
    {
        self.handle.record(value, attributes);
        journal.events = Ghost(
            journal.events@ + seq![Event::Called(Call::Sample(self.target(), value, attributes@))],
        );
    }
}

impl<V: Copy> Instrument<Gauge<V>> {
    /// Another handle to the gauge.
    pub(crate) fn another(&self) -> (r: Self)
        ensures
            r.same_instrument(self),
    {
        Instrument::new(self.scope, self.name.as_str(), self.unit, self.handle.clone())
    }

    /// Sets the gauge to `value`.
    pub(crate) fn record<B: FloatInstruments<Value = V>>(
        &self,
        value: V,
        attributes: &[KeyValue],
        journal: &mut Journal<B>,
    )
        ensures
            final(journal).extends(
                old(journal),
                seq![Event::Called(Call::Level(self.target(), value, attributes@))],
            ),
            call_ensures(Gauge::<V>::record, (&self.handle(), value, attributes), ()),
    {
        self.handle.record(value, attributes);
        journal.events = Ghost(
            journal.events@ + seq![Event::Called(Call::Level(self.target(), value, attributes@))],
        );
    }
}

} // verus!
