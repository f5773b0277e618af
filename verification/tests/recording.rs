//! Plans, the cache and the writers, with the real SDK behind them.

use metrique_otel::fallback::{FallbackCache, FallbackTable};
use metrique_otel::float::Float;
use metrique_otel::journal::{Journal, JournalKeeper};
use metrique_otel::metrics::{
    record_observations, CachedInstrument, FloatInstruments, InstrumentBuilder, InstrumentKind,
};
use metrique_otel::observation::{Observation, Sample};
use metrique_otel::outside::NAME_STYLES;
use metrique_otel::plan::{
    describe, describe_fields, full_name, kind_of_tags, resolve_kind, EntryPlan, FieldDescription,
};
use metrique_otel::tags::{CounterTag, GaugeTag, HistogramTag, UpDownCounterTag};
use metrique_otel::translator::OtelEntryWriter;
use metrique_writer_core::descriptor::{
    DescriptorRef, EntryDescriptor, FieldDescriptor, FieldFlag, Styles,
};
use metrique_writer_core::unit::{NegativeScale, PositiveScale};
use metrique_writer_core::value::{Distribution, FlagConstructor, MetricFlags};
use metrique_writer_core::Unit;
use opentelemetry::metrics::{Gauge, Histogram, MeterProvider};
use opentelemetry::KeyValue;
use opentelemetry_sdk::metrics::data::{AggregatedMetrics, MetricData};
use opentelemetry_sdk::metrics::{InMemoryMetricExporter, SdkMeterProvider};
use std::any::TypeId;

#[derive(Clone, Copy)]
struct Doubles;

impl FloatInstruments for Doubles {
    type Value = f64;

    fn histogram(
        &self,
        provider: &SdkMeterProvider,
        scope: &'static str,
        name: &str,
        unit: &'static str,
    ) -> Histogram<f64> {
        provider.meter(scope).f64_histogram(name.to_owned()).with_unit(unit).build()
    }

    fn gauge(
        &self,
        provider: &SdkMeterProvider,
        scope: &'static str,
        name: &str,
        unit: &'static str,
    ) -> Gauge<f64> {
        provider.meter(scope).f64_gauge(name.to_owned()).with_unit(unit).build()
    }

    fn value(&self, sample: Sample) -> f64 {
        match sample {
            Sample::Whole(v) => v as f64,
            Sample::Exact(v) => f64::from_bits(v.bits),
            Sample::Mean { total, occurrences } => f64::from_bits(total.bits) / occurrences as f64,
        }
    }
}

struct Keeper;

impl JournalKeeper for Keeper {}

fn journal() -> Journal<Doubles> {
    Journal::new(&Keeper)
}

struct Sdk {
    provider: SdkMeterProvider,
    exporter: InMemoryMetricExporter,
}

impl Sdk {
    fn new() -> Self {
        let exporter = InMemoryMetricExporter::default();
        let provider = SdkMeterProvider::builder()
            .with_periodic_exporter(exporter.clone())
            .build();
        Sdk { provider, exporter }
    }

    fn builder(&self) -> InstrumentBuilder<Doubles> {
        InstrumentBuilder::new(self.provider.clone(), Doubles)
    }

    fn record(
        &self,
        instrument: &CachedInstrument<f64>,
        observations: &Vec<Observation>,
        attributes: &[KeyValue],
    ) {
        let builder = self.builder();
        record_observations(
            instrument,
            observations,
            attributes,
            builder.floats(),
            &mut journal(),
        );
    }

    /// One line for each data point: scope, name, unit, number, attributes.
    fn lines(&self) -> Vec<String> {
        self.provider.force_flush().unwrap();
        let mut lines = Vec::new();
        for resource in self.exporter.get_finished_metrics().unwrap() {
            for scope in resource.scope_metrics() {
                for metric in scope.metrics() {
                    let head = format!(
                        "{} {} [{}]",
                        scope.scope().name(),
                        metric.name(),
                        metric.unit()
                    );
                    match metric.data() {
                        AggregatedMetrics::U64(MetricData::Sum(sum)) => {
                            for p in sum.data_points() {
                                lines.push(format!(
                                    "{head} sum {} {}",
                                    p.value(),
                                    text(p.attributes())
                                ));
                            }
                        }
                        AggregatedMetrics::I64(MetricData::Sum(sum)) => {
                            for p in sum.data_points() {
                                lines.push(format!(
                                    "{head} delta {} {}",
                                    p.value(),
                                    text(p.attributes())
                                ));
                            }
                        }
                        AggregatedMetrics::F64(MetricData::Histogram(h)) => {
                            for p in h.data_points() {
                                lines.push(format!(
                                    "{head} histogram {} of {} {}",
                                    p.sum(),
                                    p.count(),
                                    text(p.attributes())
                                ));
                            }
                        }
                        AggregatedMetrics::F64(MetricData::Gauge(g)) => {
                            for p in g.data_points() {
                                lines.push(format!(
                                    "{head} gauge {} {}",
                                    p.value(),
                                    text(p.attributes())
                                ));
                            }
                        }
                        _ => panic!("unexpected data"),
                    }
                }
            }
        }
        lines.sort();
        lines
    }
}

fn text<'a>(attributes: impl Iterator<Item = &'a KeyValue>) -> String {
    let mut pairs: Vec<String> = attributes
        .map(|a| format!("{}={}", a.key.as_str(), a.value.as_str()))
        .collect();
    pairs.sort();
    pairs.join(",")
}

fn float(v: f64) -> Float {
    Float { bits: v.to_bits() }
}

fn mixed() -> Vec<Observation> {
    vec![
        Observation::Unsigned(3),
        Observation::Floating(float(2.75)),
        Observation::Floating(float(-1.5)),
        Observation::Repeated { total: float(10.0), occurrences: 4 },
        Observation::Repeated { total: float(5.0), occurrences: 0 },
        Observation::Unknown,
    ]
}

fn entry(name: &'static str, fields: Vec<FieldDescriptor>) -> &'static EntryDescriptor {
    let fields: &'static [FieldDescriptor] = Box::leak(fields.into_boxed_slice());
    Box::leak(Box::new(EntryDescriptor::builder(name, fields).build()))
}

fn descriptor(name: &'static str, fields: Vec<FieldDescriptor>) -> DescriptorRef<'static> {
    DescriptorRef::from_static(entry(name, fields), 0)
}

fn flags(flags: Vec<FieldFlag>) -> &'static [FieldFlag] {
    Box::leak(flags.into_boxed_slice())
}

fn field(name: &str, tags: Vec<TypeId>, unit: Option<Unit>) -> FieldDescription {
    FieldDescription { name: name.to_owned(), tags, unit }
}

#[test]
fn each_kind_records_its_own_numbers() {
    let sdk = Sdk::new();
    let builder = sdk.builder();
    let attributes = [KeyValue::new("k", "v")];
    let kinds = [
        (InstrumentKind::Counter, "c"),
        (InstrumentKind::UpDownCounter, "u"),
        (InstrumentKind::Histogram, "h"),
        (InstrumentKind::Gauge, "g"),
    ];
    for (kind, name) in kinds {
        let unit = Unit::Byte(PositiveScale::Kilo);
        let instrument = builder.build("scope", name, kind, unit, &mut journal());
        assert_eq!(instrument.instrument_kind(), kind);
        assert_eq!(instrument.scope_name(), "scope");
        assert_eq!(instrument.instrument_name(), name);
        assert_eq!(instrument.unit_name(), "KBy");
        sdk.record(&instrument, &mixed(), &attributes);
    }
    assert_eq!(
        sdk.lines(),
        vec![
            "scope c [KBy] sum 20 k=v",
            "scope g [KBy] gauge 2.5 k=v",
            "scope h [KBy] histogram 6.75 of 4 k=v",
            "scope u [KBy] delta 19 k=v",
        ]
    );
}

#[test]
fn recording_in_parts_is_recording_at_once() {
    let sdk = Sdk::new();
    let builder = sdk.builder();
    let kinds = [
        InstrumentKind::Counter,
        InstrumentKind::UpDownCounter,
        InstrumentKind::Histogram,
        InstrumentKind::Gauge,
    ];
    for kind in kinds {
        let whole = builder.build("whole", "m", kind, Unit::None, &mut journal());
        sdk.record(&whole, &mixed(), &[]);
        let parts = builder.build("parts", "m", kind, Unit::None, &mut journal());
        let observations = mixed();
        sdk.record(&parts, &observations[..2].to_vec(), &[]);
        sdk.record(&parts, &observations[2..].to_vec(), &[]);
    }
    let lines = sdk.lines();
    let of = |scope: &str| -> Vec<String> {
        lines
            .iter()
            .filter(|line| line.starts_with(scope))
            .map(|line| line[scope.len()..].to_owned())
            .collect()
    };
    assert_eq!(of("whole").len(), 4);
    assert_eq!(of("whole"), of("parts"));
}

#[test]
fn nothing_observed_is_nothing_recorded() {
    let sdk = Sdk::new();
    let builder = sdk.builder();
    let gauge = builder.build("s", "g", InstrumentKind::Gauge, Unit::None, &mut journal());
    let none = vec![
        Observation::Repeated { total: float(1.0), occurrences: 0 },
        Observation::Unknown,
    ];
    sdk.record(&gauge, &none, &[]);
    sdk.record(&gauge, &Vec::new(), &[]);
    assert_eq!(sdk.lines(), Vec::<String>::new());
}

#[test]
fn equal_requests_give_handles_to_one_instrument() {
    let sdk = Sdk::new();
    let builder = sdk.builder();
    for _ in 0..2 {
        let counter = builder.build("s", "c", InstrumentKind::Counter, Unit::Count, &mut journal());
        sdk.record(&counter, &vec![Observation::Unsigned(2)], &[]);
    }
    let kind = InstrumentKind::Counter;
    let again = builder.clone().build("s", "c", kind, Unit::Count, &mut journal());
    let copy = again.clone();
    sdk.record(&copy, &vec![Observation::Unsigned(3)], &[]);
    assert_eq!(sdk.lines(), vec!["s c [1] sum 7 "]);
}

#[test]
fn tags_decide_the_kind() {
    let counter = TypeId::of::<CounterTag>();
    let up_down = TypeId::of::<UpDownCounterTag>();
    let histogram = TypeId::of::<HistogramTag>();
    let gauge = TypeId::of::<GaugeTag>();
    let other = TypeId::of::<String>();
    assert_eq!(kind_of_tags(&vec![]), None);
    assert_eq!(kind_of_tags(&vec![other]), None);
    assert_eq!(kind_of_tags(&vec![counter]), Some(InstrumentKind::Counter));
    assert_eq!(kind_of_tags(&vec![up_down]), Some(InstrumentKind::UpDownCounter));
    assert_eq!(kind_of_tags(&vec![histogram]), Some(InstrumentKind::Histogram));
    assert_eq!(kind_of_tags(&vec![other, gauge]), Some(InstrumentKind::Gauge));
    assert_eq!(kind_of_tags(&vec![gauge, counter]), Some(InstrumentKind::Gauge));
    assert_eq!(kind_of_tags(&vec![other, histogram, counter]), Some(InstrumentKind::Histogram));
}

#[test]
fn tags_have_no_run_time_flags() {
    assert!(CounterTag::construct().downcast::<Distribution>().is_none());
    assert!(UpDownCounterTag::construct().downcast::<Distribution>().is_none());
    assert!(HistogramTag::construct().downcast::<Distribution>().is_none());
    assert!(GaugeTag::construct().downcast::<Distribution>().is_none());
}

#[test]
fn field_names_are_joined() {
    let parts: Vec<String> = ["Http", "Api", "Latency"].iter().map(|p| p.to_string()).collect();
    assert_eq!(full_name(&parts), "HttpApiLatency");
    assert_eq!(full_name(&Vec::new()), "");
}

#[test]
fn descriptors_are_read_with_their_modifiers() {
    let fields = vec![FieldDescriptor::builder("Latency")
        .flags(flags(vec![FieldFlag::new::<GaugeTag>()]))
        .skipped_flags(flags(vec![FieldFlag::new::<CounterTag>()]))
        .unit(Unit::Second(NegativeScale::Milli))
        .build()];
    let segment = descriptor("E", fields)
        .with_prefix("Api")
        .with_prefix("Http")
        .with_extra_flags(flags(vec![
            FieldFlag::new::<CounterTag>(),
            FieldFlag::new::<HistogramTag>(),
        ]));
    let view = segment.fields().next().unwrap();
    let read = describe(&view);
    assert_eq!(read.name, "HttpApiLatency");
    assert_eq!(read.tags, vec![TypeId::of::<GaugeTag>(), TypeId::of::<HistogramTag>()]);
    assert_eq!(read.unit, Some(Unit::Second(NegativeScale::Milli)));
    assert_eq!(resolve_kind(&view), Some(InstrumentKind::Gauge));
    let all = describe_fields(&segment);
    assert_eq!(all.len(), 1);
    assert_eq!(all[0].name, "HttpApiLatency");
}

#[test]
fn skipped_tags_do_not_count() {
    let fields = vec![FieldDescriptor::builder("F")
        .skipped_flags(flags(vec![FieldFlag::new::<CounterTag>()]))
        .build()];
    let segment =
        descriptor("E", fields).with_extra_flags(flags(vec![FieldFlag::new::<CounterTag>()]));
    assert_eq!(resolve_kind(&segment.fields().next().unwrap()), None);
}

#[test]
fn plans_follow_the_descriptors() {
    let sdk = Sdk::new();
    let builder = sdk.builder();
    let first = descriptor(
        "Request",
        vec![
            FieldDescriptor::builder("Calls")
                .flags(flags(vec![FieldFlag::new::<CounterTag>()]))
                .build(),
            FieldDescriptor::builder("Note").build(),
            FieldDescriptor::builder("Latency")
                .flags(flags(vec![FieldFlag::new::<HistogramTag>()]))
                .unit(Unit::Second(NegativeScale::Milli))
                .build(),
        ],
    );
    let second = descriptor(
        "Inner",
        vec![
            FieldDescriptor::builder("Depth")
                .flags(flags(vec![FieldFlag::new::<GaugeTag>()]))
                .build(),
            FieldDescriptor::builder("Other").build(),
        ],
    )
    .with_prefix("Queue");
    let plan = EntryPlan::from_descriptors(&[first, second], &builder, &mut journal());
    assert_eq!(plan.scope, "metrique/Request");
    assert_eq!(plan.unclassified, vec!["Note", "QueueOther"]);
    assert_eq!(plan.fields.len(), 3);
    let calls = &plan.fields.get("Calls").unwrap().instrument;
    assert_eq!(calls.instrument_kind(), InstrumentKind::Counter);
    assert_eq!(calls.unit_name(), "1");
    assert_eq!(calls.scope_name(), "metrique/Request");
    let latency = &plan.fields.get("Latency").unwrap().instrument;
    assert_eq!(latency.instrument_kind(), InstrumentKind::Histogram);
    assert_eq!(latency.unit_name(), "ms");
    let depth = &plan.fields.get("QueueDepth").unwrap().instrument;
    assert_eq!(depth.instrument_kind(), InstrumentKind::Gauge);
    assert_eq!(depth.instrument_name(), "QueueDepth");
    assert_eq!(depth.scope_name(), "metrique/Request");
    assert!(plan.fields.get("Depth").is_none());
}

#[test]
fn every_name_style_has_names() {
    let sdk = Sdk::new();
    let builder = sdk.builder();
    assert_eq!(NAME_STYLES as usize, Styles::COUNT);
    let fields = || {
        vec![FieldDescriptor::builder("apiCalls")
            .pascal("ApiCalls")
            .snake("api_calls")
            .kebab("api-calls")
            .screaming_snake("API_CALLS")
            .flags(flags(vec![FieldFlag::new::<CounterTag>()]))
            .build()]
    };
    let names = ["apiCalls", "ApiCalls", "api_calls", "api-calls", "API_CALLS"];
    for (style, name) in names.iter().enumerate() {
        let descriptors = vec![(entry("E", fields()), style as u8)];
        let plan = EntryPlan::from_static(&descriptors, &builder, &mut journal()).unwrap();
        assert_eq!(plan.scope, "metrique/E");
        assert_eq!(plan.fields.len(), 1);
        let calls = &plan.fields.get(name).unwrap().instrument;
        assert_eq!(calls.instrument_kind(), InstrumentKind::Counter);
    }
    let good = entry("Good", fields());
    let bad = entry("Bad", fields());
    assert!(EntryPlan::from_static(&vec![(good, 4), (bad, 5)], &builder, &mut journal()).is_none());
    assert!(EntryPlan::from_static(&vec![(bad, 255)], &builder, &mut journal()).is_none());
}

#[test]
fn descriptors_without_fields_need_no_name_style() {
    let sdk = Sdk::new();
    let empty = DescriptorRef::from_static(entry("Empty", vec![]), 5);
    let plan = EntryPlan::from_descriptors(&[empty], &sdk.builder(), &mut journal());
    assert_eq!(plan.scope, "metrique/Empty");
    assert!(plan.fields.is_empty());
}

#[test]
fn plans_without_segments_have_the_fallback_scope() {
    let sdk = Sdk::new();
    let plan = EntryPlan::from_descriptors(&[], &sdk.builder(), &mut journal());
    assert_eq!(plan.scope, "metrique-otel");
    assert!(plan.fields.is_empty());
    assert!(plan.unclassified.is_empty());
    let fallback: EntryPlan<f64> = EntryPlan::fallback();
    assert_eq!(fallback.scope, "metrique-otel");
    assert!(fallback.fields.is_empty());
    assert!(fallback.unclassified.is_empty());
}

#[test]
fn the_last_declaration_of_a_name_counts() {
    let sdk = Sdk::new();
    let counter = TypeId::of::<CounterTag>();
    let gauge = TypeId::of::<GaugeTag>();
    let fields = vec![
        field("A", vec![counter], Some(Unit::Percent)),
        field("B", vec![], None),
        field("A", vec![gauge], None),
        field("A", vec![], Some(Unit::Percent)),
        field("B", vec![], None),
    ];
    let plan = EntryPlan::from_fields("scope", &fields, &sdk.builder(), &mut journal());
    assert_eq!(plan.fields.len(), 1);
    let a = &plan.fields.get("A").unwrap().instrument;
    assert_eq!(a.instrument_kind(), InstrumentKind::Gauge);
    assert_eq!(a.unit_name(), "1");
    assert_eq!(plan.unclassified, vec!["B", "A", "B"]);
}

#[test]
fn the_table_keeps_the_first_instrument_of_a_key() {
    let sdk = Sdk::new();
    let builder = sdk.builder();
    let mut table = FallbackTable::new();
    let histogram = InstrumentKind::Histogram;
    assert!(table.lookup("s", "n", histogram).is_none());
    let first = builder.build("s", "n", histogram, Unit::Percent, &mut journal());
    assert_eq!(table.get_or_insert(first).unit_name(), "%");
    let second = builder.build("s", "n", histogram, Unit::Count, &mut journal());
    assert_eq!(table.get_or_insert(second).unit_name(), "%");
    let found = table.lookup("s", "n", histogram).unwrap();
    assert_eq!(found.unit_name(), "%");
    assert!(table.lookup("t", "n", histogram).is_none());
    assert!(table.lookup("s", "m", histogram).is_none());
    assert!(table.lookup("s", "n", InstrumentKind::Gauge).is_none());
    let other_scope = builder.build("t", "n", histogram, Unit::Count, &mut journal());
    assert_eq!(table.get_or_insert(other_scope).scope_name(), "t");
    let other_kind = builder.build("s", "n", InstrumentKind::Gauge, Unit::Count, &mut journal());
    assert_eq!(table.get_or_insert(other_kind).instrument_kind(), InstrumentKind::Gauge);
    let other_name = builder.build("s", "m", histogram, Unit::Count, &mut journal());
    assert_eq!(table.get_or_insert(other_name).instrument_name(), "m");
    assert_eq!(table.lookup("s", "n", histogram).unwrap().unit_name(), "%");
    assert_eq!(table.lookup("t", "n", histogram).unwrap().unit_name(), "1");
}

#[test]
fn the_cache_builds_once_for_each_key() {
    let sdk = Sdk::new();
    let cache = FallbackCache::new(sdk.builder());
    let histogram = InstrumentKind::Histogram;
    let seconds = Unit::Second(NegativeScale::One);
    let first = cache.get_or_build("s", "n", histogram, seconds, &mut journal());
    assert_eq!(first.unit_name(), "s");
    assert_eq!(first.instrument_kind(), histogram);
    let second = cache.get_or_build("s", "n", histogram, Unit::Percent, &mut journal());
    assert_eq!(second.unit_name(), "s");
    let third = cache.get_or_build("s", "other", histogram, Unit::Percent, &mut journal());
    assert_eq!(third.unit_name(), "%");
    assert_eq!(third.instrument_name(), "other");
    let counter = InstrumentKind::Counter;
    let fourth = cache.get_or_build("s", "n", counter, Unit::Percent, &mut journal());
    assert_eq!(fourth.unit_name(), "%");
    assert_eq!(fourth.instrument_kind(), counter);
    let fifth = cache.get_or_build("s", "n", histogram, Unit::Count, &mut journal());
    assert_eq!(fifth.unit_name(), "s");
}

#[test]
fn the_cache_can_be_shared_between_threads() {
    fn shareable<T: Send + Sync>(_: &T) {}
    let sdk = Sdk::new();
    shareable(&FallbackCache::new(sdk.builder()));
    shareable(&EntryPlan::<f64>::fallback());
}

#[test]
fn strings_become_attributes_of_every_metric() {
    let sdk = Sdk::new();
    let cache = FallbackCache::new(sdk.builder());
    let fields = vec![
        field("Calls", vec![TypeId::of::<CounterTag>()], None),
        field("Load", vec![TypeId::of::<GaugeTag>()], Some(Unit::Percent)),
    ];
    let plan = EntryPlan::from_fields("scope", &fields, cache.builder(), &mut journal());
    let mut writer = OtelEntryWriter::new(&plan, &cache);
    writer.value("Before".to_owned()).string("b");
    writer.value("Calls".to_owned()).metric(
        vec![Observation::Unsigned(2), Observation::Unsigned(3)],
        Unit::None,
        vec![("dim".to_owned(), "d".to_owned())],
        MetricFlags::empty(),
        &mut journal(),
    );
    writer.value("Load".to_owned()).metric(
        vec![Observation::Floating(float(0.5))],
        Unit::None,
        vec![],
        MetricFlags::upcast(&Distribution),
        &mut journal(),
    );
    writer.value("After".to_owned()).string("a");
    assert!(writer.unclassified_metrics().is_empty());
    writer.finish(&mut journal());
    assert_eq!(
        sdk.lines(),
        vec![
            "scope Calls [1] sum 5 After=a,Before=b,dim=d",
            "scope Load [%] gauge 0.5 After=a,Before=b",
        ]
    );
}

#[test]
fn metrics_are_recorded_once_in_the_order_written() {
    let sdk = Sdk::new();
    let cache = FallbackCache::new(sdk.builder());
    let fields = vec![
        field("Level", vec![TypeId::of::<GaugeTag>()], None),
        field("Calls", vec![TypeId::of::<CounterTag>()], None),
    ];
    let plan = EntryPlan::from_fields("scope", &fields, cache.builder(), &mut journal());
    let mut writer = OtelEntryWriter::new(&plan, &cache);
    for level in [7, 3, 5] {
        writer.value("Level".to_owned()).metric(
            vec![Observation::Unsigned(level)],
            Unit::None,
            vec![],
            MetricFlags::empty(),
            &mut journal(),
        );
        writer.value("Calls".to_owned()).metric(
            vec![Observation::Unsigned(1)],
            Unit::None,
            vec![],
            MetricFlags::empty(),
            &mut journal(),
        );
    }
    writer.finish(&mut journal());
    assert_eq!(sdk.lines(), vec!["scope Calls [1] sum 3 ", "scope Level [1] gauge 5 "]);
}

#[test]
fn histograms_and_gauges_are_given_the_same_numbers() {
    for observation in mixed() {
        let sdk = Sdk::new();
        let builder = sdk.builder();
        let mut lines = Vec::new();
        for kind in [InstrumentKind::Histogram, InstrumentKind::Gauge] {
            let instrument = builder.build("s", "m", kind, Unit::None, &mut journal());
            sdk.record(&instrument, &vec![observation], &[]);
        }
        for line in sdk.lines() {
            lines.push(line.replace("histogram", "gauge").replace(" of 1", ""));
        }
        assert!(lines.is_empty() || lines.len() == 2 && lines[0] == lines[1]);
        assert_eq!(lines.is_empty(), observation.sample().is_none());
    }
}

#[test]
fn dimensions_stay_with_their_metric() {
    let sdk = Sdk::new();
    let cache = FallbackCache::new(sdk.builder());
    let plan = EntryPlan::fallback();
    let mut writer = OtelEntryWriter::new(&plan, &cache);
    for (name, dimension) in [("A", "x"), ("B", "y")] {
        writer.value(name.to_owned()).classified_metric(
            vec![Observation::Unsigned(1)],
            Unit::None,
            vec![("d".to_owned(), dimension.to_owned())],
            true,
            &mut journal(),
        );
    }
    writer.finish(&mut journal());
    assert_eq!(
        sdk.lines(),
        vec![
            "metrique-otel A [1] histogram 1 of 1 d=x",
            "metrique-otel B [1] histogram 1 of 1 d=y",
        ]
    );
}

#[test]
fn metrics_without_an_instrument_are_dropped() {
    let sdk = Sdk::new();
    let cache = FallbackCache::new(sdk.builder());
    let plan = EntryPlan::fallback();
    let mut writer = OtelEntryWriter::new(&plan, &cache);
    writer.value("Dropped".to_owned()).metric(
        vec![Observation::Unsigned(2)],
        Unit::None,
        vec![],
        MetricFlags::empty(),
        &mut journal(),
    );
    writer.value("Kept".to_owned()).metric(
        vec![Observation::Unsigned(2), Observation::Unsigned(4)],
        Unit::Second(NegativeScale::Micro),
        vec![],
        MetricFlags::upcast(&Distribution),
        &mut journal(),
    );
    writer.value("AlsoDropped".to_owned()).classified_metric(
        vec![Observation::Unsigned(2)],
        Unit::None,
        vec![],
        false,
        &mut journal(),
    );
    assert_eq!(*writer.unclassified_metrics(), vec!["Dropped", "AlsoDropped"]);
    writer.finish(&mut journal());
    assert_eq!(sdk.lines(), vec!["metrique-otel Kept [us] histogram 6 of 2 "]);
}

#[test]
fn the_order_of_strings_and_metrics_does_not_matter() {
    let sdk = Sdk::new();
    let cache = FallbackCache::new(sdk.builder());
    let plan = EntryPlan::fallback();
    let metric = |writer: &mut OtelEntryWriter<'_, '_, Doubles>| {
        writer.value("M".to_owned()).classified_metric(
            vec![Observation::Unsigned(1)],
            Unit::None,
            vec![],
            true,
            &mut journal(),
        )
    };
    let mut string_first = OtelEntryWriter::new(&plan, &cache);
    string_first.value("S".to_owned()).string("v");
    metric(&mut string_first);
    string_first.finish(&mut journal());
    let mut metric_first = OtelEntryWriter::new(&plan, &cache);
    metric(&mut metric_first);
    metric_first.value("S".to_owned()).string("v");
    metric_first.finish(&mut journal());
    assert_eq!(sdk.lines(), vec!["metrique-otel M [1] histogram 2 of 2 S=v"]);
}

#[test]
fn any_interleaving_of_strings_and_metrics_records_the_same() {
    let run = |order: &str| -> (Vec<String>, Vec<String>) {
        let sdk = Sdk::new();
        let cache = FallbackCache::new(sdk.builder());
        let fields = vec![field("G", vec![TypeId::of::<GaugeTag>()], None)];
        let plan = EntryPlan::from_fields("scope", &fields, cache.builder(), &mut journal());
        let mut writer = OtelEntryWriter::new(&plan, &cache);
        let mut strings = ["one", "two"].iter();
        let mut metrics = [("G", 1), ("H", 2), ("G", 3), ("Dropped", 4)].iter();
        for c in order.chars() {
            if c == 's' {
                let key = strings.next().unwrap();
                writer.value(key.to_string()).string("v");
            } else {
                let (name, number) = metrics.next().unwrap();
                writer.value(name.to_string()).classified_metric(
                    vec![Observation::Unsigned(*number)],
                    Unit::None,
                    vec![],
                    *name == "H",
                    &mut journal(),
                );
            }
        }
        let unclassified = writer.unclassified_metrics().clone();
        writer.finish(&mut journal());
        (sdk.lines(), unclassified)
    };
    let expected = run("ssmmmm");
    assert_eq!(
        expected.0,
        vec!["scope G [1] gauge 3 one=v,two=v", "scope H [1] histogram 2 of 1 one=v,two=v"]
    );
    assert_eq!(expected.1, vec!["Dropped"]);
    for order in ["mmmmss", "msmsmm", "smmmms", "mssmmm", "mmsmms"] {
        assert_eq!(run(order), expected);
    }
}
