//! What a metric field may observe, and which number each kind of instrument
//! is given for it.

use crate::float::Float;
use vstd::prelude::*;

verus! {

/// One observed value of a metric field.
#[derive(Clone, Copy, Debug, PartialEq, Eq, Hash, Structural)]
#[non_exhaustive]
pub enum Observation {
    /// A whole number.
    Unsigned(u64),
    /// A floating-point number.
    Floating(Float),
    /// The sum of `occurrences` observations.
    Repeated { total: Float, occurrences: u64 },
    /// A form of observation that has no number to record.
    Unknown,
}

/// The number that a histogram or a gauge is given, as a formula over the
/// observation that it comes from.
#[derive(Clone, Copy, Debug, PartialEq, Eq, Hash, Structural)]
pub enum Sample {
    /// A whole number, as the floating-point number nearest to it.
    Whole(u64),
    /// The floating-point number itself.
    Exact(Float),
    /// `total` divided by `occurrences`.
    Mean { total: Float, occurrences: u64 },
}

/// The items of `items` for which `f` has a result, in order, each replaced by
/// that result.
pub open spec fn kept<A, B>(items: Seq<A>, f: spec_fn(A) -> Option<B>) -> Seq<B>
    decreases items.len(),
{
    if items.len() == 0 {
        Seq::empty()
    } else {
        match f(items.last()) {
            Some(b) => kept(items.drop_last(), f).push(b),
            None => kept(items.drop_last(), f),
        }
    }
}

impl Observation {
    /// What a counter adds. Counters never go down, so what lies below zero
    /// adds nothing.
    pub open spec fn count_spec(self) -> Option<u64> {
        match self {
            Observation::Unsigned(v) => Some(v),
            Observation::Floating(v) => Some(v.saturated(0, u64::MAX as int) as u64),
            Observation::Repeated { total, occurrences } => Some(
                total.saturated(0, u64::MAX as int) as u64,
            ),
            Observation::Unknown => None,
        }
    }

    /// What an up-down counter adds. A whole number beyond the signed range
    /// wraps around it.
    pub open spec fn delta_spec(self) -> Option<i64> {
        match self {
            Observation::Unsigned(v) => Some(
                if v <= i64::MAX {
                    v as i64
                } else {
                    (v - 0x1_0000_0000_0000_0000) as i64
                },
            ),
            Observation::Floating(v) => Some(
                v.saturated(i64::MIN as int, i64::MAX as int) as i64,
            ),
            Observation::Repeated { total, occurrences } => Some(
                total.saturated(i64::MIN as int, i64::MAX as int) as i64,
            ),
            Observation::Unknown => None,
        }
    }

    /// What a histogram or a gauge records. Of repeated observations only the
    /// sum is left, so their mean stands for them, once; there is none of no
    /// occurrences.
    pub open spec fn sample_spec(self) -> Option<Sample> {
        match self {
            Observation::Unsigned(v) => Some(Sample::Whole(v)),
            Observation::Floating(v) => Some(Sample::Exact(v)),
            Observation::Repeated { total, occurrences } => if occurrences > 0 {
                Some(Sample::Mean { total, occurrences })
            } else {
                None
            },
            Observation::Unknown => None,
        }
    }

    pub fn count(&self) -> (r: Option<u64>)
        ensures
            r == self.count_spec(),
    {
        match self {
            Observation::Unsigned(v) => Some(*v),
            Observation::Floating(v) => Some(v.to_u64()),
            Observation::Repeated { total, .. } => Some(total.to_u64()),
            Observation::Unknown => None,
        }
    }

    pub fn delta(&self) -> (r: Option<i64>)
        ensures
            r == self.delta_spec(),
    {
        match self {
            Observation::Unsigned(v) => {
                let whole: u64 = *v;
                assert(whole > i64::MAX ==> whole as i64 == whole - 0x1_0000_0000_0000_0000)
                    by (bit_vector);
                Some(whole as i64)
            },
            Observation::Floating(v) => Some(v.to_i64()),
            Observation::Repeated { total, .. } => Some(total.to_i64()),
            Observation::Unknown => None,
        }
    }

    pub fn sample(&self) -> (r: Option<Sample>)
        ensures
            r == self.sample_spec(),
    {
        match self {
            Observation::Unsigned(v) => Some(Sample::Whole(*v)),
            Observation::Floating(v) => Some(Sample::Exact(*v)),
            Observation::Repeated { total, occurrences } if *occurrences > 0 => Some(
                Sample::Mean { total: *total, occurrences: *occurrences },
            ),
            _ => None,
        }
    }
}

/// What a counter adds for `observations`.
pub open spec fn counts(observations: Seq<Observation>) -> Seq<u64> {
    kept(observations, |o: Observation| o.count_spec())
}

/// What an up-down counter adds for `observations`.
pub open spec fn deltas(observations: Seq<Observation>) -> Seq<i64> {
    kept(observations, |o: Observation| o.delta_spec())
}

/// What a histogram or a gauge records for `observations`.
pub open spec fn samples(observations: Seq<Observation>) -> Seq<Sample> {
    kept(observations, |o: Observation| o.sample_spec())
}

} // verus!
