//! What the library takes on trust: the types and functions of
//! `metrique_writer_core`, `opentelemetry`, `opentelemetry_sdk` and `std` that
//! it uses, with what is claimed of each.

use crate::metrics::InstrumentKind;
use crate::tags;
use metrique_writer_core::descriptor::{DescriptorRef, EntryDescriptor, FieldView};
use metrique_writer_core::unit::{NegativeScale, PositiveScale, Unit};
use metrique_writer_core::value::{Distribution, MetricFlags};
use opentelemetry::metrics::{Counter, MeterProvider, UpDownCounter};
use opentelemetry::KeyValue;
use opentelemetry_sdk::metrics::SdkMeterProvider;
use std::any::TypeId;
use vstd::prelude::*;

verus! {

/// `metrique_writer_core::unit::NegativeScale`, with its variants.
#[verifier::external_type_specification]
pub struct ExNegativeScale(NegativeScale);

/// `metrique_writer_core::unit::PositiveScale`, with its variants.
#[verifier::external_type_specification]
pub struct ExPositiveScale(PositiveScale);

/// `metrique_writer_core::unit::Unit`, with its variants.
#[verifier::external_type_specification]
pub struct ExUnit(Unit);

/// `metrique_writer_core::descriptor::EntryDescriptor`, opaque.
#[verifier::external_type_specification]
#[verifier::external_body]
pub struct ExEntryDescriptor(EntryDescriptor);

/// `metrique_writer_core::descriptor::DescriptorRef`, opaque.
#[verifier::external_type_specification]
#[verifier::external_body]
pub struct ExDescriptorRef<'a>(DescriptorRef<'a>);

/// `metrique_writer_core::descriptor::FieldView`, opaque.
#[verifier::external_type_specification]
#[verifier::external_body]
pub struct ExFieldView<'a>(FieldView<'a>);

/// `metrique_writer_core::value::MetricFlags`, opaque.
#[verifier::external_type_specification]
#[verifier::external_body]
pub struct ExMetricFlags<'a>(MetricFlags<'a>);

/// `opentelemetry_sdk::metrics::SdkMeterProvider`, opaque.
#[verifier::external_type_specification]
#[verifier::external_body]
pub struct ExSdkMeterProvider(SdkMeterProvider);

/// `opentelemetry::metrics::Counter`, opaque.
#[verifier::external_type_specification]
#[verifier::external_body]
#[verifier::reject_recursive_types(T)]
pub struct ExCounter<T>(opentelemetry::metrics::Counter<T>);

/// `opentelemetry::metrics::UpDownCounter`, opaque.
#[verifier::external_type_specification]
#[verifier::external_body]
#[verifier::reject_recursive_types(T)]
pub struct ExUpDownCounter<T>(opentelemetry::metrics::UpDownCounter<T>);

/// `opentelemetry::metrics::Histogram`, opaque.
#[verifier::external_type_specification]
#[verifier::external_body]
#[verifier::reject_recursive_types(T)]
pub struct ExHistogram<T>(opentelemetry::metrics::Histogram<T>);

/// `opentelemetry::metrics::Gauge`, opaque.
#[verifier::external_type_specification]
#[verifier::external_body]
#[verifier::reject_recursive_types(T)]
pub struct ExGauge<T>(opentelemetry::metrics::Gauge<T>);

/// `opentelemetry::KeyValue`, opaque.
#[verifier::external_type_specification]
#[verifier::external_body]
pub struct ExKeyValue(KeyValue);

/// `std::any::TypeId`, opaque.
#[verifier::external_type_specification]
#[verifier::external_body]
pub struct ExTypeId(TypeId);

/// `SdkMeterProvider::clone`: the clone is another reference to the same
/// provider.
pub assume_specification[ <opentelemetry_sdk::metrics::SdkMeterProvider as Clone>::clone ](
    provider: &opentelemetry_sdk::metrics::SdkMeterProvider,
) -> (r: opentelemetry_sdk::metrics::SdkMeterProvider)
    ensures
        r == *provider,
;

/// `Counter::clone`: the clone is another handle to the same instrument, so
/// nothing tells the two apart.
pub assume_specification<T: Clone>[ <opentelemetry::metrics::Counter<T> as Clone>::clone ](
    handle: &opentelemetry::metrics::Counter<T>,
) -> (r: opentelemetry::metrics::Counter<T>)
    ensures
        r == *handle,
;

/// `UpDownCounter::clone`: the clone is another handle to the same instrument.
pub assume_specification<T: Clone>[ <opentelemetry::metrics::UpDownCounter<T> as Clone>::clone ](
    handle: &opentelemetry::metrics::UpDownCounter<T>,
) -> (r: opentelemetry::metrics::UpDownCounter<T>)
    ensures
        r == *handle,
;

/// `Histogram::clone`: the clone is another handle to the same instrument.
pub assume_specification<T: Clone>[ <opentelemetry::metrics::Histogram<T> as Clone>::clone ](
    handle: &opentelemetry::metrics::Histogram<T>,
) -> (r: opentelemetry::metrics::Histogram<T>)
    ensures
        r == *handle,
;

/// `Gauge::clone`: the clone is another handle to the same instrument.
pub assume_specification<T: Clone>[ <opentelemetry::metrics::Gauge<T> as Clone>::clone ](
    handle: &opentelemetry::metrics::Gauge<T>,
) -> (r: opentelemetry::metrics::Gauge<T>)
    ensures
        r == *handle,
;

/// `KeyValue::clone`: the clone has the same key and value.
pub assume_specification[ <opentelemetry::KeyValue as Clone>::clone ](
    attribute: &opentelemetry::KeyValue,
) -> (r: opentelemetry::KeyValue)
    ensures
        r == *attribute,
;

/// `Counter::add` hands one increment to the instrument. It returns nothing,
/// and nothing is claimed of what the instrument makes of it.
pub assume_specification<T>[ opentelemetry::metrics::Counter::<T>::add ](
    handle: &opentelemetry::metrics::Counter<T>,
    value: T,
    attributes: &[opentelemetry::KeyValue],
)
;

/// `UpDownCounter::add` hands one change to the instrument. It returns
/// nothing, and nothing is claimed of what the instrument makes of it.
pub assume_specification<T>[ opentelemetry::metrics::UpDownCounter::<T>::add ](
    handle: &opentelemetry::metrics::UpDownCounter<T>,
    value: T,
    attributes: &[opentelemetry::KeyValue],
)
;

/// `Histogram::record` hands one value to the instrument. It returns nothing,
/// and nothing is claimed of what the instrument makes of it.
pub assume_specification<T>[ opentelemetry::metrics::Histogram::<T>::record ](
    handle: &opentelemetry::metrics::Histogram<T>,
    value: T,
    attributes: &[opentelemetry::KeyValue],
)
;

/// `Gauge::record` hands one value to the instrument. It returns nothing, and
/// nothing is claimed of what the instrument makes of it.
pub assume_specification<T>[ opentelemetry::metrics::Gauge::<T>::record ](
    handle: &opentelemetry::metrics::Gauge<T>,
    value: T,
    attributes: &[opentelemetry::KeyValue],
)
;

/// The attribute that `KeyValue::new` makes of a key and a string value.
pub uninterp spec fn key_value(key: Seq<char>, value: Seq<char>) -> KeyValue;

/// `KeyValue::new` on two strings: the attribute depends on them alone.
#[verifier::external_body]
pub(crate) fn new_key_value(key: String, value: String) -> (r: KeyValue)
    ensures
        r == key_value(key@, value@),
{
    KeyValue::new(key, value)
}

/// A counter of the meter that `SdkMeterProvider::meter` has for `scope`, by
/// `Meter::u64_counter`. Which instrument stands behind the handle is up to the
/// provider, so nothing is claimed of it; what was asked for, callers state.
#[verifier::external_body]
pub(crate) fn u64_counter(
    provider: &SdkMeterProvider,
    scope: &'static str,
    name: &str,
    unit: &'static str,
) -> (r: Counter<u64>) {
    provider.meter(scope).u64_counter(name.to_owned()).with_unit(unit).build()
}

/// An up-down counter of the meter that `SdkMeterProvider::meter` has for
/// `scope`, by `Meter::i64_up_down_counter`. Which instrument stands behind the
/// handle is up to the provider, so nothing is claimed of it; what was asked
/// for, callers state.
#[verifier::external_body]
pub(crate) fn i64_up_down_counter(
    provider: &SdkMeterProvider,
    scope: &'static str,
    name: &str,
    unit: &'static str,
) -> (r: UpDownCounter<i64>) {
    provider.meter(scope).i64_up_down_counter(name.to_owned()).with_unit(unit).build()
}

/// How many name styles there are: `metrique_writer_core::descriptor::Styles`
/// numbers them from zero, and every field has a name for each.
pub const NAME_STYLES: u8 = 5;

/// The index of the name style that a descriptor was made with.
pub uninterp spec fn name_style(descriptor: DescriptorRef<'_>) -> u8;

/// `DescriptorRef::from_static`: the descriptor has the given style, whether or
/// not there is one of that index. Its identity comes from an address, so the
/// descriptor as a whole is not claimed to depend on the arguments alone; what
/// was handed over, callers state.
pub assume_specification<'a>[ metrique_writer_core::descriptor::DescriptorRef::<'a>::from_static ](
    descriptor: &'static metrique_writer_core::descriptor::EntryDescriptor,
    style_index: u8,
) -> (r: metrique_writer_core::descriptor::DescriptorRef<'static>)
    ensures
        name_style(r) == style_index,
;

/// The name of the entry type that a descriptor describes.
pub uninterp spec fn entry_name(descriptor: DescriptorRef<'_>) -> Seq<char>;

/// `DescriptorRef::name`: it depends on the descriptor alone.
pub assume_specification<'a, 's>[ metrique_writer_core::descriptor::DescriptorRef::<'a>::name ](
    descriptor: &'s metrique_writer_core::descriptor::DescriptorRef<'a>,
) -> (r: &'s str)
    ensures
        r@ == entry_name(*descriptor),
;

/// The fields of a descriptor, in the order in which an entry writes them.
pub uninterp spec fn field_views(descriptor: DescriptorRef<'_>) -> Seq<FieldView<'_>>;

/// The index of the name style that a field's name is read with.
pub uninterp spec fn field_style(field: FieldView<'_>) -> u8;

/// `DescriptorRef::fields`: the fields depend on the descriptor alone. Each is
/// read with the descriptor's name style.
#[verifier::external_body]
pub(crate) fn descriptor_fields<'a>(descriptor: &'a DescriptorRef<'a>) -> (r: Vec<FieldView<'a>>)
    ensures
        r@ == field_views(*descriptor),
        forall|i: int|
            0 <= i < r.len() ==> field_style(#[trigger] r@[i]) == name_style(*descriptor),
{
    descriptor.fields().collect()
}

/// The parts of a field's name: the prefixes, outermost first, then the name.
pub uninterp spec fn name_parts(field: FieldView<'_>) -> Seq<Seq<char>>;

/// `FieldView::name_parts`: the parts depend on the field alone. Reading them
/// looks the name up by the index of the style, and panics where there is no
/// style of that index.
#[verifier::external_body]
pub(crate) fn field_name_parts(field: &FieldView<'_>) -> (r: Vec<String>)
    requires
        field_style(*field) < NAME_STYLES,
    ensures
        r@.map_values(|part: String| part@) == name_parts(*field),
{
    field.name_parts().map(|part| part.to_owned()).collect()
}

/// The types of the flags that apply to a field.
pub uninterp spec fn flag_types(field: FieldView<'_>) -> Seq<TypeId>;

/// `FieldView::flags` with the `FieldFlag::type_id` of each flag: they depend
/// on the field alone. They are the field's own flags, then those that the
/// descriptor adds to all its fields, without the ones that the field skips.
#[verifier::external_body]
pub(crate) fn field_flag_types(field: &FieldView<'_>) -> (r: Vec<TypeId>)
    ensures
        r@ == flag_types(*field),
{
    field.flags().map(|flag| flag.type_id()).collect()
}

/// The unit that a field declares.
pub uninterp spec fn declared_unit(field: FieldView<'_>) -> Option<Unit>;

/// `FieldView::unit`: it depends on the field alone.
pub assume_specification<'a>[ metrique_writer_core::descriptor::FieldView::<'a>::unit ](
    field: &metrique_writer_core::descriptor::FieldView<'a>,
) -> (r: Option<metrique_writer_core::unit::Unit>)
    ensures
        r == declared_unit(*field),
;

/// The `TypeId` of the tag type for a kind of instrument.
pub uninterp spec fn tag_type(kind: InstrumentKind) -> TypeId;

/// The `TypeId` of each tag type.
pub(crate) struct TagTypes {
    pub counter: TypeId,
    pub up_down_counter: TypeId,
    pub histogram: TypeId,
    pub gauge: TypeId,
}

/// `TypeId::of` for each tag type. They are four types, so no two have the
/// same `TypeId`.
#[verifier::external_body]
pub(crate) fn tag_types() -> (r: TagTypes)
    ensures
        r.counter == tag_type(InstrumentKind::Counter),
        r.up_down_counter == tag_type(InstrumentKind::UpDownCounter),
        r.histogram == tag_type(InstrumentKind::Histogram),
        r.gauge == tag_type(InstrumentKind::Gauge),
        r.counter != r.up_down_counter,
        r.counter != r.histogram,
        r.counter != r.gauge,
        r.up_down_counter != r.histogram,
        r.up_down_counter != r.gauge,
        r.histogram != r.gauge,
{
    TagTypes {
        counter: TypeId::of::<tags::CounterTag>(),
        up_down_counter: TypeId::of::<tags::UpDownCounterTag>(),
        histogram: TypeId::of::<tags::HistogramTag>(),
        gauge: TypeId::of::<tags::GaugeTag>(),
    }
}

/// `==` on `TypeId`: two of them are equal where nothing tells them apart.
#[verifier::external_body]
pub(crate) fn same_type(a: &TypeId, b: &TypeId) -> (r: bool)
    ensures
        r == (*a == *b),
{
    a == b
}

/// Metric flags are those of a distribution.
pub uninterp spec fn is_distribution(flags: MetricFlags<'_>) -> bool;

/// `MetricFlags::downcast` to `Distribution`: whether it succeeds depends on
/// the flags alone.
#[verifier::external_body]
pub(crate) fn has_distribution(flags: &MetricFlags<'_>) -> (r: bool)
    ensures
        r == is_distribution(*flags),
{
    flags.downcast::<Distribution>().is_some()
}

/// `MetricFlags::empty`: no flags, so not those of a distribution.
pub assume_specification<'a>[ metrique_writer_core::value::MetricFlags::<'a>::empty ]() -> (r:
    metrique_writer_core::value::MetricFlags<'a>)
    ensures
        !is_distribution(r),
;

/// `String::leak`: the same characters, for the rest of the process.
#[verifier::external_body]
pub(crate) fn leaked(s: String) -> (r: &'static str)
    ensures
        r@ == s@,
{
    s.leak()
}

} // verus!
