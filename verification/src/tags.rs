//! Tags that say which kind of instrument a metric field is recorded with.
//!
//! A tag is a flag without run-time options: it is there to be found among the
//! flags of a field's descriptor.

use crate::outside::is_distribution;
use metrique_writer_core::value::{FlagConstructor, MetricFlags};
use vstd::prelude::*;

verus! {

/// Records the field with a counter.
pub struct CounterTag;

/// Records the field with an up-down counter.
pub struct UpDownCounterTag;

/// Records the field with a histogram.
pub struct HistogramTag;

/// Records the field with a gauge.
pub struct GaugeTag;

impl FlagConstructor for CounterTag {
    fn construct() -> (r: MetricFlags<'static>)
        ensures
            !is_distribution(r),
    {
        MetricFlags::empty()
    }
}

impl FlagConstructor for UpDownCounterTag {
    fn construct() -> (r: MetricFlags<'static>)
        ensures
            !is_distribution(r),
    {
        MetricFlags::empty()
    }
}

impl FlagConstructor for HistogramTag {
    fn construct() -> (r: MetricFlags<'static>)
        ensures
            !is_distribution(r),
    {
        MetricFlags::empty()
    }
}

impl FlagConstructor for GaugeTag {
    fn construct() -> (r: MetricFlags<'static>)
        ensures
            !is_distribution(r),
    {
        MetricFlags::empty()
    }
}

} // verus!
