//! Asking a meter provider for instruments.

use crate::journal::instrument::Instrument;
use crate::journal::{Event, Journal, Request};
use crate::metrics::{CachedInstrument, FloatInstruments, InstrumentKind};
use crate::outside::{i64_up_down_counter, u64_counter};
use opentelemetry::metrics::{Counter, Gauge, Histogram, UpDownCounter};
use opentelemetry_sdk::metrics::SdkMeterProvider;
use vstd::prelude::*;

verus! {

/// A meter provider, together with the floating-point side of its instruments.
pub struct Meters<B> {
    provider: SdkMeterProvider,
    floats: B,
}

impl<B: FloatInstruments> Meters<B> {
    pub closed spec fn provider(&self) -> SdkMeterProvider {
        self.provider
    }

    pub closed spec fn float_instruments(&self) -> B {
        self.floats
    }

    /// The handle of `instrument` is what the meter provider gave when it was
    /// asked for the instrument's kind with its scope, its name and its unit.
    pub closed spec fn made(&self, instrument: &CachedInstrument<B::Value>) -> bool {
        exists|scope: &'static str, name: &str, unit: &'static str|
            {
                &&& scope@ == instrument.scope()
                &&& name@ == instrument.name()
                &&& unit@ == instrument.unit()
                &&& #[trigger] self.gave(scope, name, unit, instrument)
            }
    }

    closed spec fn gave(
        &self,
        scope: &'static str,
        name: &str,
        unit: &'static str,
        instrument: &CachedInstrument<B::Value>,
    ) -> bool {
        match instrument {
            CachedInstrument::Counter(c) => call_ensures(
                u64_counter,
                (&self.provider, scope, name, unit),
                c.handle(),
            ),
            CachedInstrument::UpDownCounter(c) => call_ensures(
                i64_up_down_counter,
                (&self.provider, scope, name, unit),
                c.handle(),
            ),
            CachedInstrument::Histogram(h) => call_ensures(
                B::histogram,
                (&self.floats, &self.provider, scope, name, unit),
                h.handle(),
            ),
            CachedInstrument::Gauge(g) => call_ensures(
                B::gauge,
                (&self.floats, &self.provider, scope, name, unit),
                g.handle(),
            ),
        }
    }

    /// What is known of how an instrument was made holds of each handle to it.
    pub proof fn lemma_made(&self, a: &CachedInstrument<B::Value>, b: &CachedInstrument<B::Value>)
        requires
            self.made(a),
            b.same_instrument(a),
        ensures
            self.made(b),
    {
        let (scope, name, unit): (&'static str, &str, &'static str) = choose|
            scope: &'static str,
            name: &str,
            unit: &'static str,
        |
            {
                &&& scope@ == a.scope()
                &&& name@ == a.name()
                &&& unit@ == a.unit()
                &&& #[trigger] self.gave(scope, name, unit, a)
            };
        assert(self.gave(scope, name, unit, b));
    }

    /// An instrument that was made by these meters has the handle that their
    /// provider gave for its scope, its name and its unit.
    pub(crate) proof fn law_made(&self, instrument: &CachedInstrument<B::Value>)
        requires
            self.made(instrument),
        ensures
            instrument is Counter ==> exists|scope: &'static str, name: &str, unit: &'static str|
                {
                    &&& scope@ == instrument.scope()
                    &&& name@ == instrument.name()
                    &&& unit@ == instrument.unit()
                    &&& #[trigger] call_ensures(
                        u64_counter,
                        (&self.provider(), scope, name, unit),
                        instrument->Counter_0.handle(),
                    )
                },
            instrument is UpDownCounter ==> exists|
                scope: &'static str,
                name: &str,
                unit: &'static str,
            |
                {
                    &&& scope@ == instrument.scope()
                    &&& name@ == instrument.name()
                    &&& unit@ == instrument.unit()
                    &&& #[trigger] call_ensures(
                        i64_up_down_counter,
                        (&self.provider(), scope, name, unit),
                        instrument->UpDownCounter_0.handle(),
                    )
                },
            instrument is Histogram ==> exists|scope: &'static str, name: &str, unit: &'static str|
                {
                    &&& scope@ == instrument.scope()
                    &&& name@ == instrument.name()
                    &&& unit@ == instrument.unit()
                    &&& #[trigger] call_ensures(
                        B::histogram,
                        (&self.float_instruments(), &self.provider(), scope, name, unit),
                        instrument->Histogram_0.handle(),
                    )
                },
            instrument is Gauge ==> exists|scope: &'static str, name: &str, unit: &'static str|
                {
                    &&& scope@ == instrument.scope()
                    &&& name@ == instrument.name()
                    &&& unit@ == instrument.unit()
                    &&& #[trigger] call_ensures(
                        B::gauge,
                        (&self.float_instruments(), &self.provider(), scope, name, unit),
                        instrument->Gauge_0.handle(),
                    )
                },
    {
        let (scope, name, unit): (&'static str, &str, &'static str) = choose|
            scope: &'static str,
            name: &str,
            unit: &'static str,
        |
            {
                &&& scope@ == instrument.scope()
                &&& name@ == instrument.name()
                &&& unit@ == instrument.unit()
                &&& #[trigger] self.gave(scope, name, unit, instrument)
            };
        assert(self.gave(scope, name, unit, instrument));
        match instrument {
            CachedInstrument::Counter(i) => {
                assert(call_ensures(
                    u64_counter,
                    (&self.provider(), scope, name, unit),
                    i.handle(),
                ));
            },
            CachedInstrument::UpDownCounter(i) => {
                assert(call_ensures(
                    i64_up_down_counter,
                    (&self.provider(), scope, name, unit),
                    i.handle(),
                ));
            },
            CachedInstrument::Histogram(i) => {
                assert(call_ensures(
                    B::histogram,
                    (&self.float_instruments(), &self.provider(), scope, name, unit),
                    i.handle(),
                ));
            },
            CachedInstrument::Gauge(i) => {
                assert(call_ensures(
                    B::gauge,
                    (&self.float_instruments(), &self.provider(), scope, name, unit),
                    i.handle(),
                ));
            },
        }
    }

    pub(crate) fn new(provider: SdkMeterProvider, floats: B) -> (r: Self)
        ensures
            r.provider() == provider,
            r.float_instruments() == floats,
    {
        Meters { provider, floats }
    }

    pub(crate) fn floats(&self) -> (r: &B)
        ensures
            *r == self.float_instruments(),
    {
        &self.floats
    }

    /// Asks the meter of `scope` for a counter.
    pub(crate) fn counter(
        &self,
        scope: &'static str,
        name: &str,
        unit: &'static str,
        journal: &mut Journal<B>,
    ) -> (r: Instrument<Counter<u64>>)
        ensures
            r.scope() == scope@,
            r.name() == name@,
            r.unit() == unit@,
            self.made(&CachedInstrument::Counter(r)),
            call_ensures(u64_counter, (&self.provider(), scope, name, unit), r.handle()),
            final(journal).extends(
                old(journal),
                seq![
                    Event::Asked(
                        self.provider(),
                        Request {
                            scope: scope@,
                            name: name@,
                            kind: InstrumentKind::Counter,
                            unit: unit@,
                        },
                    ),
                ],
            ),
    {
        let handle = u64_counter(&self.provider, scope, name, unit);
        let r = Instrument::new(scope, name, unit, handle);
        assert(self.gave(scope, name, unit, &CachedInstrument::Counter(r)));
        let ghost request = Request {
            scope: scope@,
            name: name@,
            kind: InstrumentKind::Counter,
            unit: unit@,
        };
        journal.events = Ghost(journal.events@ + seq![Event::Asked(self.provider, request)]);
        r
    }

    /// Asks the meter of `scope` for an up-down counter.
    pub(crate) fn up_down_counter(
        &self,
        scope: &'static str,
        name: &str,
        unit: &'static str,
        journal: &mut Journal<B>,
    ) -> (r: Instrument<UpDownCounter<i64>>)
        ensures
            r.scope() == scope@,
            r.name() == name@,
            r.unit() == unit@,
            self.made(&CachedInstrument::UpDownCounter(r)),
            call_ensures(i64_up_down_counter, (&self.provider(), scope, name, unit), r.handle()),
            final(journal).extends(
                old(journal),
                seq![
                    Event::Asked(
                        self.provider(),
                        Request {
                            scope: scope@,
                            name: name@,
                            kind: InstrumentKind::UpDownCounter,
                            unit: unit@,
                        },
                    ),
                ],
            ),
    {
        let handle = i64_up_down_counter(&self.provider, scope, name, unit);
        let r = Instrument::new(scope, name, unit, handle);
        assert(self.gave(scope, name, unit, &CachedInstrument::UpDownCounter(r)));
        let ghost request = Request {
            scope: scope@,
            name: name@,
            kind: InstrumentKind::UpDownCounter,
            unit: unit@,
        };
        journal.events = Ghost(journal.events@ + seq![Event::Asked(self.provider, request)]);
        r
    }

    /// Asks the meter of `scope` for a histogram.
    pub(crate) fn histogram(
        &self,
        scope: &'static str,
        name: &str,
        unit: &'static str,
        journal: &mut Journal<B>,
    ) -> (r: Instrument<Histogram<B::Value>>)
        ensures
            r.scope() == scope@,
            r.name() == name@,
            r.unit() == unit@,
            self.made(&CachedInstrument::Histogram(r)),
            call_ensures(
                B::histogram,
                (&self.float_instruments(), &self.provider(), scope, name, unit),
                r.handle(),
            ),
            final(journal).extends(
                old(journal),
                seq![
                    Event::Asked(
                        self.provider(),
                        Request {
                            scope: scope@,
                            name: name@,
                            kind: InstrumentKind::Histogram,
                            unit: unit@,
                        },
                    ),
                ],
            ),
    {
        let handle = self.floats.histogram(&self.provider, scope, name, unit);
        let r = Instrument::new(scope, name, unit, handle);
        assert(self.gave(scope, name, unit, &CachedInstrument::Histogram(r)));
        let ghost request = Request {
            scope: scope@,
            name: name@,
            kind: InstrumentKind::Histogram,
            unit: unit@,
        };
        journal.events = Ghost(journal.events@ + seq![Event::Asked(self.provider, request)]);
        r
    }

    /// Asks the meter of `scope` for a gauge.
    pub(crate) fn gauge(
        &self,
        scope: &'static str,
        name: &str,
        unit: &'static str,
        journal: &mut Journal<B>,
    ) -> (r: Instrument<Gauge<B::Value>>)
        ensures
            r.scope() == scope@,
            r.name() == name@,
            r.unit() == unit@,
            self.made(&CachedInstrument::Gauge(r)),
            call_ensures(
                B::gauge,
                (&self.float_instruments(), &self.provider(), scope, name, unit),
                r.handle(),
            ),
            final(journal).extends(
                old(journal),
                seq![
                    Event::Asked(
                        self.provider(),
                        Request {
                            scope: scope@,
                            name: name@,
                            kind: InstrumentKind::Gauge,
                            unit: unit@,
                        },
                    ),
                ],
            ),
    {
        let handle = self.floats.gauge(&self.provider, scope, name, unit);
        let r = Instrument::new(scope, name, unit, handle);
        assert(self.gave(scope, name, unit, &CachedInstrument::Gauge(r)));
        let ghost request = Request {
            scope: scope@,
            name: name@,
            kind: InstrumentKind::Gauge,
            unit: unit@,
        };
        journal.events = Ghost(journal.events@ + seq![Event::Asked(self.provider, request)]);
        r
    }
}

impl<B: FloatInstruments + Clone> Clone for Meters<B> {
    fn clone(&self) -> (r: Self)
        ensures
            r.provider() == self.provider(),
            cloned(self.float_instruments(), r.float_instruments()),
    {
        Meters { provider: self.provider.clone(), floats: self.floats.clone() }
    }
}

} // verus!
