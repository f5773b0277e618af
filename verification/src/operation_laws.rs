//! What each operation does, told by what goes in and what comes out.
//!
//! The premise of each law is a call: `call_ensures` of the operation, with its
//! arguments and its result. For what is behind a mutable reference, the value
//! before the call and the value after it are named.

use crate::fallback::{FallbackCache, FallbackKey, FallbackTable};
use crate::float::Float;
use crate::journal::{asked, called, Call, Event, Journal, Request};
use crate::laws::{
    call_for, has_number, law_every_field_is_placed, law_last_declaration_counts,
    law_nothing_is_made_up, law_one_measurement_each, lemma_kept_sources, one_call_each,
};
use crate::metrics::{
    otel_unit, record_observations, recording, unit_to_otel, CachedInstrument, FloatInstruments,
    InstrumentBuilder, InstrumentKind,
};
use crate::observation::{kept, Observation, Sample};
use crate::outside::{
    declared_unit, entry_name, field_views, flag_types, is_distribution, key_value, name_parts,
    tag_type,
};
use crate::plan::{
    all_fields, describe, describe_fields, entry_scope, field_model, first_kind, full_name, joined,
    kind_of_tags, made_from, requests, resolve_kind, segment_fields, tagged_kind,
    tags_tell_kinds_apart, untagged, EntryPlan, FieldDescription, FieldModel,
};
use crate::translator::{attributes_of, replay, OtelEntryWriter, OtelValueWriter};
use metrique_writer_core::descriptor::{DescriptorRef, EntryDescriptor, FieldView};
use metrique_writer_core::unit::{NegativeScale, PositiveScale, Unit};
use metrique_writer_core::value::MetricFlags;
use opentelemetry::KeyValue;
use std::any::TypeId;
use vstd::arithmetic::power2::{lemma_pow2_pos, pow2};
use vstd::prelude::*;

verus! {

/// A number with this sign, exponent field and fraction field.
pub open spec fn has_fields(v: Float, negative: bool, e: int, f: int) -> bool {
    &&& 0 <= e < 0x800
    &&& 0 <= f < 0x10_0000_0000_0000
    &&& v.bits == (if negative {
        0x8000_0000_0000_0000int
    } else {
        0
    }) + e * 0x10_0000_0000_0000 + f
}

/// `n` is the whole part of `s` times two to the power of `k`.
pub open spec fn is_whole_part(n: int, s: int, k: int) -> bool {
    if k >= 0 {
        n == s * pow2(k as nat)
    } else {
        n * pow2((-k) as nat) <= s < (n + 1) * pow2((-k) as nat)
    }
}

proof fn lemma_fields(v: Float, negative: bool, e: int, f: int)
    requires
        has_fields(v, negative, e, f),
    ensures
        v.is_negative() == negative,
        v.exponent() == e,
        v.fraction() == f,
{
    let b = v.bits as int;
    assert(b % 0x10_0000_0000_0000 == f && b / 0x10_0000_0000_0000 == (if negative {
        0x800int
    } else {
        0
    }) + e);
}

proof fn lemma_whole_part(v: Float)
    requires
        v.exponent() < 0x7ff,
    ensures
        is_whole_part(v.whole_magnitude(), v.significand(), v.scale()),
        v.whole_magnitude() >= 0,
{
    let s = v.significand();
    if v.scale() < 0 {
        let d = pow2((-v.scale()) as nat) as int;
        lemma_pow2_pos((-v.scale()) as nat);
        vstd::arithmetic::div_mod::lemma_fundamental_div_mod(s, d);
        vstd::arithmetic::div_mod::lemma_div_pos_is_pos(s, d);
        let n = s / d;
        assert(n * d <= s < (n + 1) * d) by (nonlinear_arith)
            requires
                s == d * n + s % d,
                0 <= s % d < d,
        ;
    } else {
        lemma_pow2_pos(v.scale() as nat);
        vstd::arithmetic::mul::lemma_mul_nonnegative(s, pow2(v.scale() as nat) as int);
    }
}

/// The significand and the scale of a finite number, from its fields: without
/// the hidden bit where the exponent field is zero.
pub open spec fn significand_of(e: int, f: int) -> int {
    if e == 0 {
        f
    } else {
        f + 0x10_0000_0000_0000
    }
}

pub open spec fn scale_of(e: int) -> int {
    if e == 0 {
        -1074
    } else {
        e - 1075
    }
}

/// A number becomes the `u64` that is its whole part. Below zero it is zero,
/// beyond the range the end of the range, and zero where it is not a number.
pub proof fn law_to_u64(v: Float, negative: bool, e: int, f: int, r: u64)
    requires
        has_fields(v, negative, e, f),
        call_ensures(Float::to_u64, (v,), r),
    ensures
        e == 0x7ff && f != 0 ==> r == 0,
        e == 0x7ff && f == 0 && !negative ==> r == u64::MAX,
        negative ==> r == 0,
        e < 0x7ff && !negative ==> exists|n: int|
            {
                &&& #[trigger] is_whole_part(n, significand_of(e, f), scale_of(e))
                &&& r == if n <= u64::MAX {
                    n
                } else {
                    u64::MAX as int
                }
            },
{
    lemma_fields(v, negative, e, f);
    if e < 0x7ff {
        lemma_whole_part(v);
        assert(is_whole_part(v.whole_magnitude(), significand_of(e, f), scale_of(e)));
    }
}

/// A number becomes the `i64` that is its whole part, with its sign. Beyond the
/// range it is the nearer end of the range, and zero where it is not a number.
pub proof fn law_to_i64(v: Float, negative: bool, e: int, f: int, r: i64)
    requires
        has_fields(v, negative, e, f),
        call_ensures(Float::to_i64, (v,), r),
    ensures
        e == 0x7ff && f != 0 ==> r == 0,
        e == 0x7ff && f == 0 ==> r == if negative {
            i64::MIN
        } else {
            i64::MAX
        },
        e < 0x7ff ==> exists|n: int|
            {
                &&& #[trigger] is_whole_part(n, significand_of(e, f), scale_of(e))
                &&& !negative ==> r == if n <= i64::MAX {
                    n
                } else {
                    i64::MAX as int
                }
                &&& negative ==> r == if -n >= i64::MIN {
                    -n
                } else {
                    i64::MIN as int
                }
            },
{
    lemma_fields(v, negative, e, f);
    if e < 0x7ff {
        lemma_whole_part(v);
        assert(is_whole_part(v.whole_magnitude(), significand_of(e, f), scale_of(e)));
    }
}

/// A counter adds a whole number as it is, and for a floating-point number, or
/// the sum of many, the `u64` that stands for it, however many they were.
pub proof fn law_count(o: Observation, r: Option<u64>, x: Float, n: u64)
    requires
        call_ensures(Observation::count, (&o,), r),
        call_ensures(Float::to_u64, (x,), n),
    ensures
        forall|v: u64| o == Observation::Unsigned(v) ==> r == Some(v),
        o == Observation::Floating(x) ==> r == Some(n),
        forall|occurrences: u64|
            o == (Observation::Repeated { total: x, occurrences }) ==> r == Some(n),
        r is None <==> o is Unknown,
{
}

/// An up-down counter adds a whole number modulo two to the power of 64, and
/// for a floating-point number, or the sum of many, the `i64` that stands for
/// it, however many they were.
pub proof fn law_delta(o: Observation, r: Option<i64>, x: Float, n: i64)
    requires
        call_ensures(Observation::delta, (&o,), r),
        call_ensures(Float::to_i64, (x,), n),
    ensures
        forall|v: u64|
            o == Observation::Unsigned(v) ==> {
                &&& r is Some
                &&& r->0 == v || r->0 + 0x1_0000_0000_0000_0000 == v
            },
        o == Observation::Floating(x) ==> r == Some(n),
        forall|occurrences: u64|
            o == (Observation::Repeated { total: x, occurrences }) ==> r == Some(n),
        r is None <==> o is Unknown,
{
}

/// A histogram and a gauge are given a whole number as it is, a floating-point
/// number as it is, and of repeated observations their mean, whatever the sum
/// and however many they were; nothing where there were none.
pub proof fn law_sample(o: Observation, r: Option<Sample>)
    requires
        call_ensures(Observation::sample, (&o,), r),
    ensures
        forall|v: u64| o == Observation::Unsigned(v) ==> r == Some(Sample::Whole(v)),
        forall|v: Float| o == Observation::Floating(v) ==> r == Some(Sample::Exact(v)),
        forall|total: Float, occurrences: u64|
            o == (Observation::Repeated { total, occurrences }) && occurrences > 0 ==> r == Some(
                Sample::Mean { total, occurrences },
            ),
        forall|total: Float|
            o == (Observation::Repeated { total, occurrences: 0 }) ==> r is None,
        o is Unknown ==> r is None,
{
}

/// What the name of a unit starts with, for a scale.
pub open spec fn prefix(scale: PositiveScale) -> Seq<char> {
    match scale {
        PositiveScale::Kilo => seq!['K'],
        PositiveScale::Mega => seq!['M'],
        PositiveScale::Giga => seq!['G'],
        PositiveScale::Tera => seq!['T'],
        _ => Seq::empty(),
    }
}

/// Bytes and bits go by the same prefixes, and per second they are what they
/// are with `/s` behind. Time is in seconds or the parts of one. What has no
/// dimension is `1`, and a unit of the caller's own is as it is.
pub proof fn law_unit_names(unit: Unit, r: &'static str)
    requires
        call_ensures(unit_to_otel, (unit,), r),
    ensures
        match unit {
            Unit::Byte(scale) => r@ == prefix(scale) + seq!['B', 'y'],
            Unit::BytePerSecond(scale) => r@ == prefix(scale) + seq!['B', 'y', '/', 's'],
            Unit::Bit(scale) => r@ == prefix(scale) + seq!['b', 'i', 't'],
            Unit::BitPerSecond(scale) => r@ == prefix(scale) + seq!['b', 'i', 't', '/', 's'],
            Unit::Second(NegativeScale::Micro) => r@ == seq!['u', 's'],
            Unit::Second(NegativeScale::Milli) => r@ == seq!['m', 's'],
            Unit::Second(NegativeScale::One) => r@ == seq!['s'],
            Unit::Percent => r@ == seq!['%'],
            Unit::Custom(name) => r@ == name@,
            _ => r@ == seq!['1'],
        },
{
    match unit {
        Unit::Byte(scale) => {
            let suffix = seq!['B', 'y'];
            match scale {
                PositiveScale::Kilo => {
                    reveal_strlit("KBy");
                    assert(r@ =~= prefix(scale) + suffix);
                },
                PositiveScale::Mega => {
                    reveal_strlit("MBy");
                    assert(r@ =~= prefix(scale) + suffix);
                },
                PositiveScale::Giga => {
                    reveal_strlit("GBy");
                    assert(r@ =~= prefix(scale) + suffix);
                },
                PositiveScale::Tera => {
                    reveal_strlit("TBy");
                    assert(r@ =~= prefix(scale) + suffix);
                },
                _ => {
                    reveal_strlit("By");
                    assert(r@ =~= prefix(scale) + suffix);
                },
            }
        },
        Unit::BytePerSecond(scale) => {
            let suffix = seq!['B', 'y', '/', 's'];
            match scale {
                PositiveScale::Kilo => {
                    reveal_strlit("KBy/s");
                    assert(r@ =~= prefix(scale) + suffix);
                },
                PositiveScale::Mega => {
                    reveal_strlit("MBy/s");
                    assert(r@ =~= prefix(scale) + suffix);
                },
                PositiveScale::Giga => {
                    reveal_strlit("GBy/s");
                    assert(r@ =~= prefix(scale) + suffix);
                },
                PositiveScale::Tera => {
                    reveal_strlit("TBy/s");
                    assert(r@ =~= prefix(scale) + suffix);
                },
                _ => {
                    reveal_strlit("By/s");
                    assert(r@ =~= prefix(scale) + suffix);
                },
            }
        },
        Unit::Bit(scale) => {
            let suffix = seq!['b', 'i', 't'];
            match scale {
                PositiveScale::Kilo => {
                    reveal_strlit("Kbit");
                    assert(r@ =~= prefix(scale) + suffix);
                },
                PositiveScale::Mega => {
                    reveal_strlit("Mbit");
                    assert(r@ =~= prefix(scale) + suffix);
                },
                PositiveScale::Giga => {
                    reveal_strlit("Gbit");
                    assert(r@ =~= prefix(scale) + suffix);
                },
                PositiveScale::Tera => {
                    reveal_strlit("Tbit");
                    assert(r@ =~= prefix(scale) + suffix);
                },
                _ => {
                    reveal_strlit("bit");
                    assert(r@ =~= prefix(scale) + suffix);
                },
            }
        },
        Unit::BitPerSecond(scale) => {
            let suffix = seq!['b', 'i', 't', '/', 's'];
            match scale {
                PositiveScale::Kilo => {
                    reveal_strlit("Kbit/s");
                    assert(r@ =~= prefix(scale) + suffix);
                },
                PositiveScale::Mega => {
                    reveal_strlit("Mbit/s");
                    assert(r@ =~= prefix(scale) + suffix);
                },
                PositiveScale::Giga => {
                    reveal_strlit("Gbit/s");
                    assert(r@ =~= prefix(scale) + suffix);
                },
                PositiveScale::Tera => {
                    reveal_strlit("Tbit/s");
                    assert(r@ =~= prefix(scale) + suffix);
                },
                _ => {
                    reveal_strlit("bit/s");
                    assert(r@ =~= prefix(scale) + suffix);
                },
            }
        },
        Unit::Second(NegativeScale::Micro) => {
            reveal_strlit("us");
            assert(r@ =~= seq!['u', 's']);
        },
        Unit::Second(NegativeScale::Milli) => {
            reveal_strlit("ms");
            assert(r@ =~= seq!['m', 's']);
        },
        Unit::Second(NegativeScale::One) => {
            reveal_strlit("s");
            assert(r@ =~= seq!['s']);
        },
        Unit::Percent => {
            reveal_strlit("%");
            assert(r@ =~= seq!['%']);
        },
        Unit::Custom(name) => {},
        _ => {
            reveal_strlit("1");
            assert(r@ =~= seq!['1']);
        },
    }
}

/// `a` and `b` are handles to one instrument exactly where they are of one kind
/// and agree in scope, name, unit and handle.
pub proof fn law_same_instrument<V>(a: &CachedInstrument<V>, b: &CachedInstrument<V>)
    ensures
        a.same_instrument(b) <==> {
            &&& a.scope() == b.scope()
            &&& a.name() == b.name()
            &&& a.unit() == b.unit()
            &&& match (a, b) {
                (CachedInstrument::Counter(x), CachedInstrument::Counter(y)) => x.handle()
                    == y.handle(),
                (
                    CachedInstrument::UpDownCounter(x),
                    CachedInstrument::UpDownCounter(y),
                ) => x.handle() == y.handle(),
                (CachedInstrument::Histogram(x), CachedInstrument::Histogram(y)) => x.handle()
                    == y.handle(),
                (CachedInstrument::Gauge(x), CachedInstrument::Gauge(y)) => x.handle()
                    == y.handle(),
                _ => false,
            }
        },
        a.same_instrument(b) ==> a.kind() == b.kind(),
        a is Counter <==> a.kind() == InstrumentKind::Counter,
        a is UpDownCounter <==> a.kind() == InstrumentKind::UpDownCounter,
        a is Histogram <==> a.kind() == InstrumentKind::Histogram,
        a is Gauge <==> a.kind() == InstrumentKind::Gauge,
{
}

/// A clone is a handle to the same instrument.
pub proof fn law_clone<V: Copy>(a: &CachedInstrument<V>, r: CachedInstrument<V>)
    requires
        call_ensures(<CachedInstrument<V> as Clone>::clone, (a,), r),
    ensures
        r.kind() == a.kind(),
        r.scope() == a.scope(),
        r.name() == a.name(),
        r.unit() == a.unit(),
        r.same_instrument(a),
{
}

/// `after` is `before` with `calls` behind, and nothing else.
pub open spec fn adds_calls<B: FloatInstruments>(
    before: Journal<B>,
    after: Journal<B>,
    calls: Seq<Call<B::Value>>,
) -> bool {
    &&& after.events().len() == before.events().len() + calls.len()
    &&& forall|i: int|
        0 <= i < before.events().len() ==> #[trigger] after.events()[i] == before.events()[i]
    &&& forall|i: int|
        0 <= i < calls.len() ==> after.events()[before.events().len() + i] == Event::<B>::Called(
            #[trigger] calls[i],
        )
}

/// Recording calls the instrument once for each observation that it has a
/// number for, in order, with that number and with exactly the attributes that
/// are given; it makes no other call and does nothing else.
pub proof fn law_record<B: FloatInstruments>(
    instrument: &CachedInstrument<B::Value>,
    observations: &Vec<Observation>,
    attributes: &[KeyValue],
    floats: &B,
    before: Journal<B>,
    after: Journal<B>,
)
    requires
        exists|j: &mut Journal<B>|
            {
                &&& #[trigger] call_ensures(
                    record_observations::<B>,
                    (instrument, observations, attributes, floats, j),
                    (),
                )
                &&& *j == before
                &&& *final(j) == after
            },
    ensures
        exists|calls: Seq<Call<B::Value>>, sources: Seq<int>|
            {
                &&& #[trigger] adds_calls(before, after, calls)
                &&& #[trigger] one_call_each(
                    floats,
                    instrument,
                    observations@,
                    attributes@,
                    calls,
                    sources,
                )
            },
{
    let calls = choose|made: Seq<Call<B::Value>>| #[trigger]
        recording(floats, instrument, observations@, attributes@, made) && after.makes(
            &before,
            made,
        );
    law_one_measurement_each(floats, instrument, observations@, attributes@, calls);
    let sources = choose|sources: Seq<int>| #[trigger]
        one_call_each(floats, instrument, observations@, attributes@, calls, sources);
    lemma_adds_calls(before, after, calls);
    assert(one_call_each(floats, instrument, observations@, attributes@, calls, sources));
}

proof fn lemma_adds_calls<B: FloatInstruments>(
    before: Journal<B>,
    after: Journal<B>,
    calls: Seq<Call<B::Value>>,
)
    requires
        after.makes(&before, calls),
    ensures
        adds_calls(before, after, calls),
{
    assert forall|i: int| 0 <= i < calls.len() implies after.events()[before.events().len() + i]
        == Event::<B>::Called(#[trigger] calls[i]) by {
        assert(called::<B>(calls)[i] == Event::<B>::Called(calls[i]));
    }
}

/// A number for the observation is there exactly where it is known what was
/// observed and, for a histogram or a gauge, it was observed at all.
pub proof fn law_has_number<V>(instrument: &CachedInstrument<V>, o: Observation)
    ensures
        has_number(instrument, o) <==> match o {
            Observation::Unsigned(_) => true,
            Observation::Floating(_) => true,
            Observation::Repeated { total, occurrences } => {
                ||| instrument is Counter
                ||| instrument is UpDownCounter
                ||| occurrences != 0
            },
            Observation::Unknown => false,
        },
{
}

/// Where each of `parts` starts and ends in the whole.
pub open spec fn is_cut_into<A>(whole: Seq<A>, parts: Seq<Seq<A>>, cuts: Seq<int>) -> bool {
    &&& cuts.len() == parts.len() + 1
    &&& cuts[0] == 0
    &&& cuts[parts.len() as int] == whole.len()
    &&& forall|i: int| 0 <= i < parts.len() ==> #[trigger] is_piece(whole, parts, cuts, i)
}

/// Part `i` is what lies between two cuts.
pub open spec fn is_piece<A>(
    whole: Seq<A>,
    parts: Seq<Seq<A>>,
    cuts: Seq<int>,
    i: int,
) -> bool {
    &&& 0 <= cuts[i] <= cuts[i + 1] <= whole.len()
    &&& whole.subrange(cuts[i], cuts[i + 1]) == parts[i]
}

/// Joined parts can be cut into them again: nothing is lost, added or moved.
pub proof fn law_joined<A>(parts: Seq<Seq<A>>) -> (cuts: Seq<int>)
    ensures
        is_cut_into(joined(parts), parts, cuts),
    decreases parts.len(),
{
    if parts.len() == 0 {
        seq![0int]
    } else {
        let rest = parts.drop_last();
        let before = law_joined(rest);
        let whole = joined(parts);
        let cuts = before.push(whole.len() as int);
        assert forall|i: int| 0 <= i < parts.len() implies #[trigger] is_piece(
            whole,
            parts,
            cuts,
            i,
        ) by {
            if i < rest.len() {
                assert(is_piece(joined(rest), rest, before, i));
                assert(whole.subrange(cuts[i], cuts[i + 1]) =~= parts[i]);
            } else {
                assert(whole.subrange(cuts[i], cuts[i + 1]) =~= parts[i]);
            }
        }
        cuts
    }
}

/// The calls between two cuts are those of metric `i` of the writer: one for
/// each of its observations that has a number, with the metric's dimensions and
/// then the attributes of the entry.
pub open spec fn is_stretch<'s, 'p, B: FloatInstruments>(
    writer: OtelEntryWriter<'s, 'p, B>,
    calls: Seq<Call<B::Value>>,
    cuts: Seq<int>,
    i: int,
) -> bool {
    let metric = writer.pending()[i];
    &&& 0 <= cuts[i] <= cuts[i + 1] <= calls.len()
    &&& exists|sources: Seq<int>| #[trigger]
        one_call_each(
            &writer.floats(),
            &metric.instrument,
            metric.observations@,
            metric.per_metric_dimensions@ + writer.attributes(),
            calls.subrange(cuts[i], cuts[i + 1]),
            sources,
        )
}

/// The calls are cut into one stretch for each metric of the writer, in order,
/// from the first call to the last.
pub open spec fn in_stretches<'s, 'p, B: FloatInstruments>(
    writer: OtelEntryWriter<'s, 'p, B>,
    calls: Seq<Call<B::Value>>,
    cuts: Seq<int>,
) -> bool {
    &&& cuts.len() == writer.pending().len() + 1
    &&& cuts[0] == 0
    &&& cuts[writer.pending().len() as int] == calls.len()
    &&& forall|i: int|
        0 <= i < writer.pending().len() ==> #[trigger] is_stretch(writer, calls, cuts, i)
}

/// Finishing an entry records every metric that was written: what it adds to
/// the journal is calls alone, and they are cut into one stretch for each
/// metric, in the order of writing.
pub proof fn law_finish<'s, 'p, B: FloatInstruments>(
    writer: OtelEntryWriter<'s, 'p, B>,
    before: Journal<B>,
    after: Journal<B>,
)
    requires
        exists|j: &mut Journal<B>|
            {
                &&& #[trigger] call_ensures(OtelEntryWriter::<'s, 'p, B>::finish, (writer, j), ())
                &&& *j == before
                &&& *final(j) == after
            },
    ensures
        exists|calls: Seq<Call<B::Value>>, cuts: Seq<int>|
            {
                &&& #[trigger] adds_calls(before, after, calls)
                &&& #[trigger] in_stretches(writer, calls, cuts)
            },
{
    let parts = choose|parts: Seq<Seq<Call<B::Value>>>| #[trigger]
        replay(&writer.floats(), writer.pending(), writer.attributes(), parts) && after.makes(
            &before,
            joined(parts),
        );
    let (calls, cuts) = lemma_stretches(writer, before, after, parts);
    assert(adds_calls(before, after, calls));
    assert(in_stretches(writer, calls, cuts));
}

proof fn lemma_stretches<'s, 'p, B: FloatInstruments>(
    writer: OtelEntryWriter<'s, 'p, B>,
    before: Journal<B>,
    after: Journal<B>,
    parts: Seq<Seq<Call<B::Value>>>,
) -> (r: (Seq<Call<B::Value>>, Seq<int>))
    requires
        replay(&writer.floats(), writer.pending(), writer.attributes(), parts),
        after.makes(&before, joined(parts)),
    ensures
        adds_calls(before, after, r.0),
        in_stretches(writer, r.0, r.1),
{
    let calls = joined(parts);
    lemma_adds_calls(before, after, calls);
    let cuts = law_joined(parts);
    assert forall|i: int| 0 <= i < writer.pending().len() implies #[trigger] is_stretch(
        writer,
        calls,
        cuts,
        i,
    ) by {
        assert(is_piece(calls, parts, cuts, i));
        let metric = writer.pending()[i];
        law_one_measurement_each(
            &writer.floats(),
            &metric.instrument,
            metric.observations@,
            metric.per_metric_dimensions@ + writer.attributes(),
            parts[i],
        );
    }
    (calls, cuts)
}

/// Where each metric of an entry has one observation, and a number for it,
/// finishing makes as many calls as metrics were written: the first for the
/// first metric, and so on.
pub proof fn law_finish_one_each<'s, 'p, B: FloatInstruments>(
    writer: OtelEntryWriter<'s, 'p, B>,
    before: Journal<B>,
    after: Journal<B>,
)
    requires
        exists|j: &mut Journal<B>|
            {
                &&& #[trigger] call_ensures(OtelEntryWriter::<'s, 'p, B>::finish, (writer, j), ())
                &&& *j == before
                &&& *final(j) == after
            },
        forall|i: int|
            0 <= i < writer.pending().len() ==> {
                let metric = #[trigger] writer.pending()[i];
                &&& metric.observations@.len() == 1
                &&& has_number(&metric.instrument, metric.observations@[0])
            },
    ensures
        exists|calls: Seq<Call<B::Value>>|
            {
                &&& #[trigger] adds_calls(before, after, calls)
                &&& calls.len() == writer.pending().len()
                &&& forall|i: int|
                    0 <= i < calls.len() ==> call_for(
                        &writer.floats(),
                        &writer.pending()[i].instrument,
                        writer.pending()[i].observations@[0],
                        writer.pending()[i].per_metric_dimensions@ + writer.attributes(),
                        #[trigger] calls[i],
                    )
            },
{
    let parts = choose|parts: Seq<Seq<Call<B::Value>>>| #[trigger]
        replay(&writer.floats(), writer.pending(), writer.attributes(), parts) && after.makes(
            &before,
            joined(parts),
        );
    let (calls, cuts) = lemma_stretches(writer, before, after, parts);
    let n = writer.pending().len() as int;
    lemma_single_steps(writer, calls, cuts, n);
    assert forall|i: int| 0 <= i < calls.len() implies call_for(
        &writer.floats(),
        &writer.pending()[i].instrument,
        writer.pending()[i].observations@[0],
        writer.pending()[i].per_metric_dimensions@ + writer.attributes(),
        #[trigger] calls[i],
    ) by {
        assert(is_stretch(writer, calls, cuts, i));
        lemma_single_steps(writer, calls, cuts, i);
        lemma_single_steps(writer, calls, cuts, i + 1);
        let metric = writer.pending()[i];
        let here = calls.subrange(cuts[i], cuts[i + 1]);
        let sources = choose|sources: Seq<int>| #[trigger]
            one_call_each(
                &writer.floats(),
                &metric.instrument,
                metric.observations@,
                metric.per_metric_dimensions@ + writer.attributes(),
                here,
                sources,
            );
        assert(here[0] == calls[i]);
        assert(sources[0] == 0);
    }
    assert(adds_calls(before, after, calls));
}

proof fn lemma_single_steps<'s, 'p, B: FloatInstruments>(
    writer: OtelEntryWriter<'s, 'p, B>,
    calls: Seq<Call<B::Value>>,
    cuts: Seq<int>,
    k: int,
)
    requires
        in_stretches(writer, calls, cuts),
        0 <= k < cuts.len(),
        forall|i: int|
            0 <= i < writer.pending().len() ==> {
                let metric = #[trigger] writer.pending()[i];
                &&& metric.observations@.len() == 1
                &&& has_number(&metric.instrument, metric.observations@[0])
            },
    ensures
        cuts[k] == k,
    decreases k,
{
    if k > 0 {
        lemma_single_steps(writer, calls, cuts, k - 1);
        assert(is_stretch(writer, calls, cuts, k - 1));
        let metric = writer.pending()[k - 1];
        let here = calls.subrange(cuts[k - 1], cuts[k - 1 + 1]);
        let sources = choose|sources: Seq<int>| #[trigger]
            one_call_each(
                &writer.floats(),
                &metric.instrument,
                metric.observations@,
                metric.per_metric_dimensions@ + writer.attributes(),
                here,
                sources,
            );
        assert(has_number(&metric.instrument, metric.observations@[0]));
        assert(sources.contains(0));
        if sources.len() > 1 {
            assert(sources[0] < sources[1]);
        }
    }
}

/// A request for an instrument of this kind asks the meter provider once, for
/// just that, in the unit's name on the wire; it returns that instrument, and
/// does nothing else.
pub proof fn law_build<B: FloatInstruments>(
    builder: &InstrumentBuilder<B>,
    scope: &'static str,
    name: &str,
    kind: InstrumentKind,
    unit: Unit,
    wire: &'static str,
    before: Journal<B>,
    after: Journal<B>,
    r: CachedInstrument<B::Value>,
)
    requires
        call_ensures(unit_to_otel, (unit,), wire),
        exists|j: &mut Journal<B>|
            {
                &&& #[trigger] call_ensures(
                    InstrumentBuilder::<B>::build,
                    (builder, scope, name, kind, unit, j),
                    r,
                )
                &&& *j == before
                &&& *final(j) == after
            },
    ensures
        r is Counter <==> kind == InstrumentKind::Counter,
        r is UpDownCounter <==> kind == InstrumentKind::UpDownCounter,
        r is Histogram <==> kind == InstrumentKind::Histogram,
        r is Gauge <==> kind == InstrumentKind::Gauge,
        r.scope() == scope@,
        r.name() == name@,
        r.unit() == wire@,
        builder.made(&r),
        after.events() == before.events().push(
            Event::Asked(
                builder.meter_provider(),
                Request { scope: scope@, name: name@, kind, unit: wire@ },
            ),
        ),
{
}

/// What a request to a cache does, and what it is answered. The table is read.
/// Where it has an instrument for the key, that is the answer, and nothing is
/// done. Where it has none, the meter provider is asked for one in `unit`, and
/// the table, as it is by then, is put back: as it was where it has got one
/// meanwhile, which is then the answer, and with the new one added, and no
/// other entry touched, where it has not.
pub open spec fn cache_did<B: FloatInstruments>(
    cache: FallbackCache<B>,
    key: FallbackKey,
    unit: Seq<char>,
    before: Journal<B>,
    after: Journal<B>,
    answer: CachedInstrument<B::Value>,
) -> bool {
    let n = before.events().len() as int;
    &&& n < after.events().len()
    &&& after.events().take(n) == before.events()
    &&& answer.kind() == key.kind
    &&& answer.scope() == key.scope
    &&& answer.name() == key.name
    &&& cache.instrument_builder().made(&answer)
    &&& match after.events()[n] {
        Event::Looked(table, seen) => {
            &&& table == cache.table()
            &&& seen.contains_key(key) ==> {
                &&& after.events().len() == n + 1
                &&& answer.same_instrument(&seen[key])
            }
            &&& !seen.contains_key(key) ==> {
                &&& after.events().len() == n + 3
                &&& after.events()[n + 1] == Event::<B>::Asked(
                    cache.instrument_builder().meter_provider(),
                    Request { scope: key.scope, name: key.name, kind: key.kind, unit },
                )
                &&& match after.events()[n + 2] {
                    Event::Replaced(table, old_table, new_table) => {
                        &&& table == cache.table()
                        &&& old_table.contains_key(key) ==> new_table == old_table
                        &&& !old_table.contains_key(key) ==> answer.unit() == unit
                        &&& new_table.contains_key(key)
                        &&& answer.same_instrument(&new_table[key])
                        &&& forall|other: FallbackKey|
                            other != key ==> {
                                &&& #[trigger] new_table.contains_key(other)
                                    <==> old_table.contains_key(other)
                                &&& old_table.contains_key(other) ==> new_table[other]
                                    == old_table[other]
                            }
                    },
                    _ => false,
                }
            }
        },
        _ => false,
    }
}

proof fn lemma_cache_did<B: FloatInstruments>(
    cache: FallbackCache<B>,
    key: FallbackKey,
    unit: Unit,
    before: Journal<B>,
    after: Journal<B>,
    answer: CachedInstrument<B::Value>,
    events: Seq<Event<B>>,
)
    requires
        cache.answered(key, unit, &answer, events),
        after.extends(&before, events),
    ensures
        cache_did(cache, key, otel_unit(unit), before, after, answer),
{
    let n = before.events().len() as int;
    assert(after.events().take(n) =~= before.events());
    assert(after.events()[n] == events[0]);
    if events.len() > 1 {
        assert(after.events()[n + 1] == events[1]);
        assert(after.events()[n + 2] == events[2]);
    }
}

/// What a request to a cache does, and what it is answered; `wire` is the name
/// of the unit that is asked for.
pub proof fn law_get_or_build<B: FloatInstruments>(
    cache: &FallbackCache<B>,
    scope: &'static str,
    name: &str,
    kind: InstrumentKind,
    unit: Unit,
    wire: &'static str,
    before: Journal<B>,
    after: Journal<B>,
    r: CachedInstrument<B::Value>,
)
    requires
        call_ensures(unit_to_otel, (unit,), wire),
        exists|j: &mut Journal<B>|
            {
                &&& #[trigger] call_ensures(
                    FallbackCache::<B>::get_or_build,
                    (cache, scope, name, kind, unit, j),
                    r,
                )
                &&& *j == before
                &&& *final(j) == after
            },
    ensures
        cache_did(
            *cache,
            FallbackKey { scope: scope@, name: name@, kind },
            wire@,
            before,
            after,
            r,
        ),
{
    let key = FallbackKey { scope: scope@, name: name@, kind };
    let events = choose|events: Seq<Event<B>>|
        {
            &&& #[trigger] cache.answered(key, unit, &r, events)
            &&& after.extends(&before, events)
        };
    lemma_cache_did(*cache, key, unit, before, after, r, events);
}

/// What writing a metric does. Where the plan has an instrument of the name,
/// the metric is kept with that one and nothing is done. Where it has none and
/// the metric is a distribution, the metric is kept with what the cache answers
/// to a request for a histogram of the plan's scope and the metric's name and
/// unit. Any other metric is dropped and counted, and nothing is done. A metric
/// that is kept has all its observations and all its dimensions, in order.
pub open spec fn metric_did<'s, 'p, B: FloatInstruments>(
    before: OtelEntryWriter<'s, 'p, B>,
    after: OtelEntryWriter<'s, 'p, B>,
    name: Seq<char>,
    observations: Seq<Observation>,
    unit: Seq<char>,
    dimensions: Seq<(String, String)>,
    distribution: bool,
    journal_before: Journal<B>,
    journal_after: Journal<B>,
) -> bool {
    let planned = before.plan().fields@.contains_key(name);
    let n = before.pending().len() as int;
    &&& after.plan() == before.plan()
    &&& after.cache() == before.cache()
    &&& after.attributes() == before.attributes()
    &&& planned || distribution ==> {
        let metric = after.pending()[n];
        &&& after.pending().len() == n + 1
        &&& forall|i: int| 0 <= i < n ==> #[trigger] after.pending()[i] == before.pending()[i]
        &&& after.unclassified() == before.unclassified()
        &&& metric.observations@.len() == observations.len()
        &&& forall|i: int|
            0 <= i < observations.len() ==> #[trigger] metric.observations@[i] == observations[i]
        &&& metric.per_metric_dimensions@.len() == dimensions.len()
        &&& forall|i: int|
            0 <= i < dimensions.len() ==> #[trigger] metric.per_metric_dimensions@[i] == key_value(
                dimensions[i].0@,
                dimensions[i].1@,
            )
        &&& planned ==> {
            &&& metric.instrument.same_instrument(&before.plan().fields@[name].instrument)
            &&& journal_after.events() == journal_before.events()
        }
        &&& !planned ==> cache_did(
            before.cache(),
            FallbackKey { scope: before.plan().scope@, name, kind: InstrumentKind::Histogram },
            unit,
            journal_before,
            journal_after,
            metric.instrument,
        )
    }
    &&& !planned && !distribution ==> {
        &&& after.pending() == before.pending()
        &&& after.unclassified() == before.unclassified().push(name)
        &&& journal_after.events() == journal_before.events()
    }
}

proof fn lemma_metric_did<'s, 'p, B: FloatInstruments>(
    before: OtelEntryWriter<'s, 'p, B>,
    after: OtelEntryWriter<'s, 'p, B>,
    name: Seq<char>,
    observations: Seq<Observation>,
    unit: Unit,
    dimensions: Seq<(String, String)>,
    distribution: bool,
    events: Seq<Event<B>>,
    journal_before: Journal<B>,
    journal_after: Journal<B>,
)
    requires
        before.adds_metric(
            name,
            observations,
            unit,
            attributes_of(dimensions),
            distribution,
            events,
            &after,
        ),
        journal_after.extends(&journal_before, events),
    ensures
        metric_did(
            before,
            after,
            name,
            observations,
            otel_unit(unit),
            dimensions,
            distribution,
            journal_before,
            journal_after,
        ),
{
    let planned = before.plan().fields@.contains_key(name);
    let n = before.pending().len() as int;
    if events.len() == 0 {
        assert(journal_after.events() =~= journal_before.events());
    }
    if planned || distribution {
        assert forall|i: int| 0 <= i < n implies #[trigger] after.pending()[i]
            == before.pending()[i] by {
            assert(after.pending().drop_last()[i] == before.pending()[i]);
        }
        if !planned {
            lemma_cache_did(
                before.cache(),
                before.cache_key(name),
                unit,
                journal_before,
                journal_after,
                after.pending().last().instrument,
                events,
            );
        }
    }
}

/// What writing a metric does, where it is known whether it is a distribution;
/// `wire` is the name of its unit.
pub proof fn law_classified_metric<'s, 'p, B: FloatInstruments>(
    before: OtelEntryWriter<'s, 'p, B>,
    after: OtelEntryWriter<'s, 'p, B>,
    name: Seq<char>,
    observations: Vec<Observation>,
    unit: Unit,
    wire: &'static str,
    dimensions: Vec<(String, String)>,
    distribution: bool,
    journal_before: Journal<B>,
    journal_after: Journal<B>,
)
    requires
        call_ensures(unit_to_otel, (unit,), wire),
        exists|v: OtelValueWriter<'_, 's, 'p, B>, j: &mut Journal<B>|
            {
                &&& #[trigger] call_ensures(
                    OtelValueWriter::<'_, 's, 'p, B>::classified_metric,
                    (v, observations, unit, dimensions, distribution, j),
                    (),
                )
                &&& v.name@ == name
                &&& *v.parent == before
                &&& *final(v.parent) == after
                &&& *j == journal_before
                &&& *final(j) == journal_after
            },
    ensures
        metric_did(
            before,
            after,
            name,
            observations@,
            wire@,
            dimensions@,
            distribution,
            journal_before,
            journal_after,
        ),
{
    let events = choose|events: Seq<Event<B>>|
        {
            &&& #[trigger] before.adds_metric(
                name,
                observations@,
                unit,
                attributes_of(dimensions@),
                distribution,
                events,
                &after,
            )
            &&& journal_after.extends(&journal_before, events)
        };
    lemma_metric_did(
        before,
        after,
        name,
        observations@,
        unit,
        dimensions@,
        distribution,
        events,
        journal_before,
        journal_after,
    );
}

/// What writing a metric does; `wire` is the name of its unit. Its flags say
/// whether it is a distribution.
pub proof fn law_metric<'s, 'p, 'f, B: FloatInstruments>(
    before: OtelEntryWriter<'s, 'p, B>,
    after: OtelEntryWriter<'s, 'p, B>,
    name: Seq<char>,
    observations: Vec<Observation>,
    unit: Unit,
    wire: &'static str,
    dimensions: Vec<(String, String)>,
    flags: MetricFlags<'f>,
    journal_before: Journal<B>,
    journal_after: Journal<B>,
)
    requires
        call_ensures(unit_to_otel, (unit,), wire),
        exists|v: OtelValueWriter<'_, 's, 'p, B>, j: &mut Journal<B>|
            {
                &&& #[trigger] call_ensures(
                    OtelValueWriter::<'_, 's, 'p, B>::metric,
                    (v, observations, unit, dimensions, flags, j),
                    (),
                )
                &&& v.name@ == name
                &&& *v.parent == before
                &&& *final(v.parent) == after
                &&& *j == journal_before
                &&& *final(j) == journal_after
            },
    ensures
        metric_did(
            before,
            after,
            name,
            observations@,
            wire@,
            dimensions@,
            is_distribution(flags),
            journal_before,
            journal_after,
        ),
{
    let events = choose|events: Seq<Event<B>>|
        {
            &&& #[trigger] before.adds_metric(
                name,
                observations@,
                unit,
                attributes_of(dimensions@),
                is_distribution(flags),
                events,
                &after,
            )
            &&& journal_after.extends(&journal_before, events)
        };
    lemma_metric_did(
        before,
        after,
        name,
        observations@,
        unit,
        dimensions@,
        is_distribution(flags),
        events,
        journal_before,
        journal_after,
    );
}

/// A string becomes the last attribute of the entry, whatever attributes there
/// are already; nothing else changes.
pub proof fn law_string<'s, 'p, B: FloatInstruments>(
    before: OtelEntryWriter<'s, 'p, B>,
    after: OtelEntryWriter<'s, 'p, B>,
    name: Seq<char>,
    value: &str,
)
    requires
        exists|v: OtelValueWriter<'_, 's, 'p, B>|
            {
                &&& #[trigger] call_ensures(
                    OtelValueWriter::<'_, 's, 'p, B>::string,
                    (v, value),
                    (),
                )
                &&& v.name@ == name
                &&& *v.parent == before
                &&& *final(v.parent) == after
            },
    ensures
        after.attributes().len() == before.attributes().len() + 1,
        forall|i: int|
            0 <= i < before.attributes().len() ==> #[trigger] after.attributes()[i]
                == before.attributes()[i],
        after.attributes()[before.attributes().len() as int] == key_value(name, value@),
        after.pending() == before.pending(),
        after.unclassified() == before.unclassified(),
        after.plan() == before.plan(),
        after.cache() == before.cache(),
{
}

/// A new writer has collected nothing.
pub proof fn law_new_writer<'s, 'p, B: FloatInstruments>(
    plan: &'p EntryPlan<B::Value>,
    cache: &'s FallbackCache<B>,
    r: OtelEntryWriter<'s, 'p, B>,
)
    requires
        call_ensures(OtelEntryWriter::<'s, 'p, B>::new, (plan, cache), r),
    ensures
        r.plan() == *plan,
        r.cache() == *cache,
        r.floats() == cache.instrument_builder().float_instruments(),
        r.attributes().len() == 0,
        r.pending().len() == 0,
        r.unclassified().len() == 0,
{
}

/// After an instrument was added to a table, a lookup of its scope, name and
/// kind finds the one that the addition returned: the instrument itself, or the
/// one that the table had before. Any other lookup finds what it found before.
pub proof fn law_table<V: Copy>(
    before: FallbackTable<V>,
    after: FallbackTable<V>,
    instrument: CachedInstrument<V>,
    added: CachedInstrument<V>,
    scope: &str,
    name: &str,
    kind: InstrumentKind,
    found_before: Option<CachedInstrument<V>>,
    found_after: Option<CachedInstrument<V>>,
)
    requires
        exists|t: &mut FallbackTable<V>|
            {
                &&& #[trigger] call_ensures(
                    FallbackTable::<V>::get_or_insert,
                    (t, instrument),
                    added,
                )
                &&& *t == before
                &&& *final(t) == after
            },
        call_ensures(FallbackTable::<V>::lookup, (&before, scope, name, kind), found_before),
        call_ensures(FallbackTable::<V>::lookup, (&after, scope, name, kind), found_after),
    ensures
        ({
            let asked_for = instrument.scope() == scope@ && instrument.name() == name@
                && instrument.kind() == kind;
            &&& asked_for ==> found_after is Some && found_after->0.same_instrument(&added)
            &&& asked_for && found_before is Some ==> added.same_instrument(&found_before->0)
            &&& asked_for && found_before is None ==> added.same_instrument(&instrument)
            &&& !asked_for ==> (found_after is Some <==> found_before is Some)
            &&& !asked_for && found_before is Some ==> found_after->0.same_instrument(
                &found_before->0,
            )
        }),
{
}

/// A new table finds nothing.
pub proof fn law_new_table<V: Copy>(
    table: FallbackTable<V>,
    scope: &str,
    name: &str,
    kind: InstrumentKind,
    found: Option<CachedInstrument<V>>,
)
    requires
        call_ensures(FallbackTable::<V>::new, (), table),
        call_ensures(FallbackTable::<V>::lookup, (&table, scope, name, kind), found),
    ensures
        found is None,
{
}

/// The characters of each of `strings`.
pub open spec fn texts(strings: Seq<String>) -> Seq<Seq<char>> {
    Seq::new(strings.len(), |i: int| strings[i]@)
}

/// The full name of a field can be cut into its parts again.
pub proof fn law_full_name(parts: &Vec<String>, r: String)
    requires
        call_ensures(full_name, (parts,), r),
    ensures
        exists|cuts: Seq<int>| #[trigger]
            is_cut_into(r@, texts(parts@), cuts),
{
    assert(parts@.map_values(|part: String| part@) =~= texts(parts@));
    let cuts = law_joined(texts(parts@));
    assert(is_cut_into(r@, texts(parts@), cuts));
}

/// `kind` is that of the first of `tags` that is the tag of some kind.
pub open spec fn first_tag_is(tags: Seq<TypeId>, kind: InstrumentKind) -> bool {
    exists|j: int|
        {
            &&& 0 <= j < tags.len()
            &&& #[trigger] tags[j] == tag_type(kind)
            &&& forall|i: int, other: InstrumentKind|
                0 <= i < j ==> #[trigger] tags[i] != #[trigger] tag_type(other)
        }
}

/// None of `tags` is the tag of a kind.
pub open spec fn has_no_tag(tags: Seq<TypeId>) -> bool {
    forall|i: int, kind: InstrumentKind|
        0 <= i < tags.len() ==> #[trigger] tags[i] != #[trigger] tag_type(kind)
}

proof fn lemma_untagged_type(tag: TypeId)
    requires
        tags_tell_kinds_apart(),
        tagged_kind(tag) is None,
    ensures
        forall|kind: InstrumentKind| tag != #[trigger] tag_type(kind),
{
}

/// The kind of a field is that of the first tag among its flags, and a field
/// has no kind exactly where it has no tag.
pub proof fn law_first_kind(tags: Seq<TypeId>)
    requires
        tags_tell_kinds_apart(),
    ensures
        match first_kind(tags) {
            Some(kind) => first_tag_is(tags, kind),
            None => has_no_tag(tags),
        },
    decreases tags.len(),
{
    if tags.len() > 0 {
        match tagged_kind(tags[0]) {
            Some(kind) => {
                assert(tags[0] == tag_type(kind));
            },
            None => {
                let rest = tags.skip(1);
                lemma_untagged_type(tags[0]);
                law_first_kind(rest);
                match first_kind(rest) {
                    Some(kind) => {
                        let j = choose|j: int|
                            {
                                &&& 0 <= j < rest.len()
                                &&& #[trigger] rest[j] == tag_type(kind)
                                &&& forall|i: int, other: InstrumentKind|
                                    0 <= i < j ==> #[trigger] rest[i] != #[trigger] tag_type(other)
                            };
                        assert(tags[j + 1] == tag_type(kind));
                        assert forall|i: int, other: InstrumentKind| 0 <= i < j + 1 implies
                            #[trigger] tags[i] != #[trigger] tag_type(other) by {
                            if i > 0 {
                                assert(rest[i - 1] == tags[i]);
                            }
                        }
                    },
                    None => {
                        assert forall|i: int, kind: InstrumentKind| 0 <= i < tags.len() implies
                            #[trigger] tags[i] != #[trigger] tag_type(kind) by {
                            if i > 0 {
                                assert(rest[i - 1] == tags[i]);
                            }
                        }
                    },
                }
            },
        }
    }
}

/// The kind for a field with these flags is that of the first tag among them.
pub proof fn law_kind_of_tags(tags: &Vec<TypeId>, r: Option<InstrumentKind>)
    requires
        call_ensures(kind_of_tags, (tags,), r),
    ensures
        match r {
            Some(kind) => first_tag_is(tags@, kind),
            None => has_no_tag(tags@),
        },
{
    law_first_kind(tags@);
}

/// The kind for a field of a descriptor is that of the first tag among its
/// flags.
pub proof fn law_resolve_kind(field: &FieldView<'_>, r: Option<InstrumentKind>)
    requires
        call_ensures(resolve_kind, (field,), r),
    ensures
        match r {
            Some(kind) => first_tag_is(flag_types(*field), kind),
            None => has_no_tag(flag_types(*field)),
        },
{
    law_first_kind(flag_types(*field));
}

/// What `model` says is what `field` says: the name that its parts make up, all
/// its flags in order, and its unit.
pub open spec fn tells(model: FieldModel, field: FieldView<'_>) -> bool {
    &&& exists|cuts: Seq<int>| #[trigger] is_cut_into(model.name, name_parts(field), cuts)
    &&& model.tags.len() == flag_types(field).len()
    &&& forall|i: int|
        0 <= i < model.tags.len() ==> #[trigger] model.tags[i] == flag_types(field)[i]
    &&& model.unit == declared_unit(field)
}

proof fn lemma_tells(field: FieldView<'_>)
    ensures
        tells(field_model(field), field),
{
    let cuts = law_joined(name_parts(field));
    assert(is_cut_into(field_model(field).name, name_parts(field), cuts));
}

/// What is read of a field is what the field says.
pub proof fn law_describe(field: &FieldView<'_>, r: FieldDescription)
    requires
        call_ensures(describe, (field,), r),
    ensures
        tells(FieldModel { name: r.name@, tags: r.tags@, unit: r.unit }, *field),
{
    lemma_tells(*field);
    assert(r@ == (FieldModel { name: r.name@, tags: r.tags@, unit: r.unit }));
}

/// Every field of a descriptor is read, in order.
pub proof fn law_describe_fields(descriptor: &DescriptorRef<'_>, r: Vec<FieldDescription>)
    requires
        call_ensures(describe_fields, (descriptor,), r),
    ensures
        r@.len() == field_views(*descriptor).len(),
        forall|i: int|
            0 <= i < r@.len() ==> tells(
                FieldModel { name: (#[trigger] r@[i]).name@, tags: r@[i].tags@, unit: r@[i].unit },
                field_views(*descriptor)[i],
            ),
{
    let models = r@.map_values(|field: FieldDescription| field@);
    assert(models.len() == r@.len());
    assert forall|i: int| 0 <= i < r@.len() implies tells(
        FieldModel { name: (#[trigger] r@[i]).name@, tags: r@[i].tags@, unit: r@[i].unit },
        field_views(*descriptor)[i],
    ) by {
        assert(models[i] == segment_fields(*descriptor)[i]);
        lemma_tells(field_views(*descriptor)[i]);
    }
}

/// The unit on the wire that a field asks for: none is `1`.
pub open spec fn wire_unit(field: FieldModel) -> Seq<char> {
    match field.unit {
        Some(unit) => otel_unit(unit),
        None => seq!['1'],
    }
}

/// `names` are those of the fields at `sources`, which are, in order, the
/// fields without a tag.
pub open spec fn lists_untagged(
    names: Seq<Seq<char>>,
    fields: Seq<FieldModel>,
    sources: Seq<int>,
) -> bool {
    &&& names.len() == sources.len()
    &&& forall|j: int|
        0 <= j < sources.len() ==> {
            &&& 0 <= #[trigger] sources[j] < fields.len()
            &&& has_no_tag(fields[sources[j]].tags)
            &&& names[j] == fields[sources[j]].name
        }
    &&& forall|i: int, j: int| 0 <= i < j < sources.len() ==> sources[i] < sources[j]
    &&& forall|k: int|
        0 <= k < fields.len() && has_no_tag((#[trigger] fields[k]).tags) ==> sources.contains(k)
}

/// `events` are the requests for the fields at `sources`, which are, in order,
/// the fields with a tag: each for the kind of the field's first tag, under the
/// field's name and in its unit.
pub open spec fn lists_requests<B: FloatInstruments>(
    events: Seq<Event<B>>,
    builder: &InstrumentBuilder<B>,
    scope: Seq<char>,
    fields: Seq<FieldModel>,
    sources: Seq<int>,
) -> bool {
    &&& events.len() == sources.len()
    &&& forall|j: int|
        0 <= j < sources.len() ==> {
            &&& 0 <= #[trigger] sources[j] < fields.len()
            &&& match events[j] {
                Event::Asked(provider, request) => {
                    &&& provider == builder.meter_provider()
                    &&& request.scope == scope
                    &&& request.name == fields[sources[j]].name
                    &&& first_tag_is(fields[sources[j]].tags, request.kind)
                    &&& request.unit == wire_unit(fields[sources[j]])
                },
                _ => false,
            }
        }
    &&& forall|i: int, j: int| 0 <= i < j < sources.len() ==> sources[i] < sources[j]
    &&& forall|k: int|
        0 <= k < fields.len() && !has_no_tag((#[trigger] fields[k]).tags) ==> sources.contains(k)
}

/// The plan has an instrument for every tagged field: of the entry's scope,
/// under the field's name, and, where no tagged field of that name comes after
/// it, of the kind of its first tag and in its unit.
pub open spec fn places<V>(plan: EntryPlan<V>, fields: Seq<FieldModel>, i: int) -> bool {
    let name = fields[i].name;
    !has_no_tag(fields[i].tags) ==> {
        let instrument = plan.fields@[name].instrument;
        &&& plan.fields@.contains_key(name)
        &&& instrument.scope() == plan.scope@
        &&& instrument.name() == name
        &&& (forall|j: int|
            i < j < fields.len() && #[trigger] fields[j].name == name ==> has_no_tag(
                fields[j].tags,
            )) ==> {
            &&& first_tag_is(fields[i].tags, instrument.kind())
            &&& instrument.unit() == wire_unit(fields[i])
        }
    }
}

/// What planning `fields` in `scope` does: every field has its place, nothing
/// else has one, and one instrument is asked for each tagged field, in order.
pub open spec fn planned<B: FloatInstruments>(
    plan: EntryPlan<B::Value>,
    builder: &InstrumentBuilder<B>,
    scope: Seq<char>,
    fields: Seq<FieldModel>,
    before: Journal<B>,
    after: Journal<B>,
) -> bool {
    &&& plan.scope@ == scope
    &&& forall|i: int| 0 <= i < fields.len() ==> #[trigger] places(plan, fields, i)
    &&& forall|name: Seq<char>| #[trigger]
        plan.fields@.contains_key(name) ==> builder.made(&plan.fields@[name].instrument) && exists|
            i: int,
        |
            {
                &&& 0 <= i < fields.len()
                &&& #[trigger] fields[i].name == name
                &&& !has_no_tag(fields[i].tags)
            }
    &&& exists|sources: Seq<int>| #[trigger]
        lists_untagged(texts(plan.unclassified@), fields, sources)
    &&& after.events().take(before.events().len() as int) == before.events()
    &&& before.events().len() <= after.events().len()
    &&& exists|sources: Seq<int>| #[trigger]
        lists_requests(
            after.events().skip(before.events().len() as int),
            builder,
            scope,
            fields,
            sources,
        )
}

proof fn lemma_no_tag(tags: Seq<TypeId>)
    requires
        tags_tell_kinds_apart(),
    ensures
        first_kind(tags) is None <==> has_no_tag(tags),
        first_kind(tags) is Some ==> first_tag_is(tags, first_kind(tags)->0),
{
    law_first_kind(tags);
    if first_kind(tags) is Some {
        let kind = first_kind(tags)->0;
        let j = choose|j: int|
            {
                &&& 0 <= j < tags.len()
                &&& #[trigger] tags[j] == tag_type(kind)
                &&& forall|i: int, other: InstrumentKind|
                    0 <= i < j ==> #[trigger] tags[i] != #[trigger] tag_type(other)
            };
        assert(tags[j] == tag_type(kind));
    }
}

proof fn lemma_untagged_is_kept(fields: Seq<FieldModel>)
    ensures
        untagged(fields) == kept(
            fields,
            |field: FieldModel|
                if field.kind() is None {
                    Some(field.name)
                } else {
                    None
                },
        ),
    decreases fields.len(),
{
    if fields.len() > 0 {
        lemma_untagged_is_kept(fields.drop_last());
    }
}

proof fn lemma_wire_unit(field: FieldModel)
    ensures
        field.otel_unit() == wire_unit(field),
{
    reveal_strlit("1");
    assert("1"@ =~= seq!['1']);
}

proof fn lemma_planned<B: FloatInstruments>(
    plan: EntryPlan<B::Value>,
    builder: &InstrumentBuilder<B>,
    scope: Seq<char>,
    fields: Seq<FieldModel>,
    before: Journal<B>,
    after: Journal<B>,
)
    requires
        plan.realizes(builder, scope, fields),
        fields.len() > 0 ==> tags_tell_kinds_apart(),
        after.extends(&before, asked(builder.meter_provider(), requests(scope, fields))),
    ensures
        planned(plan, builder, scope, fields, before, after),
{
    let n = before.events().len() as int;
    let events = asked::<B>(builder.meter_provider(), requests(scope, fields));
    assert(after.events().take(n) =~= before.events());
    assert(after.events().skip(n) =~= events);
    assert forall|k: int| 0 <= k < fields.len() implies (first_kind(
        (#[trigger] fields[k]).tags,
    ) is None <==> has_no_tag(fields[k].tags)) by {
        lemma_no_tag(fields[k].tags);
    }
    assert forall|i: int| 0 <= i < fields.len() implies #[trigger] places(plan, fields, i) by {
        lemma_places(plan, builder, scope, fields, i);
    }
    assert forall|name: Seq<char>| #[trigger]
        plan.fields@.contains_key(name) implies builder.made(
        &plan.fields@[name].instrument,
    ) && exists|i: int|
        {
            &&& 0 <= i < fields.len()
            &&& #[trigger] fields[i].name == name
            &&& !has_no_tag(fields[i].tags)
        } by {
        assert(plan.fields@.dom().contains(name));
        law_nothing_is_made_up(fields, name);
        let i = choose|i: int|
            0 <= i < fields.len() && fields[i].kind() is Some && #[trigger] fields[i].name == name;
        assert(fields[i].name == name);
    }
    let names = texts(plan.unclassified@);
    assert(names =~= plan.unclassified@.map_values(|name: String| name@));
    lemma_untagged_is_kept(fields);
    let bare = lemma_kept_sources(
        fields,
        |field: FieldModel|
            if field.kind() is None {
                Some(field.name)
            } else {
                None
            },
    );
    assert(lists_untagged(names, fields, bare));
    let f = |field: FieldModel|
        match field.kind() {
            Some(kind) => Some(Request { scope, name: field.name, kind, unit: field.otel_unit() }),
            None => None,
        };
    let tagged = lemma_kept_sources(fields, f);
    assert(requests(scope, fields) == kept(fields, f));
    assert forall|j: int| 0 <= j < tagged.len() implies {
        &&& 0 <= #[trigger] tagged[j] < fields.len()
        &&& match events[j] {
            Event::Asked(provider, request) => {
                &&& provider == builder.meter_provider()
                &&& request.scope == scope
                &&& request.name == fields[tagged[j]].name
                &&& first_tag_is(fields[tagged[j]].tags, request.kind)
                &&& request.unit == wire_unit(fields[tagged[j]])
            },
            _ => false,
        }
    } by {
        let field = fields[tagged[j]];
        lemma_no_tag(field.tags);
        lemma_wire_unit(field);
        assert(f(field) == Some(requests(scope, fields)[j]));
    }
    assert(lists_requests(after.events().skip(n), builder, scope, fields, tagged));
}

proof fn lemma_places<B: FloatInstruments>(
    plan: EntryPlan<B::Value>,
    builder: &InstrumentBuilder<B>,
    scope: Seq<char>,
    fields: Seq<FieldModel>,
    i: int,
)
    requires
        plan.realizes(builder, scope, fields),
        tags_tell_kinds_apart(),
        0 <= i < fields.len(),
    ensures
        places(plan, fields, i),
{
    let name = fields[i].name;
    lemma_no_tag(fields[i].tags);
    lemma_wire_unit(fields[i]);
    if fields[i].kind() is Some {
        law_every_field_is_placed(fields, i);
        assert(plan.fields@.dom().contains(name));
        assert(plan.fields@.contains_key(name));
        if forall|j: int|
            i < j < fields.len() && #[trigger] fields[j].name == name ==> has_no_tag(
                fields[j].tags,
            ) {
            assert forall|j: int|
                i < j < fields.len() && #[trigger] fields[j].name == fields[i].name implies
                fields[j].kind() is None by {
                lemma_no_tag(fields[j].tags);
            }
            law_last_declaration_counts(fields, i);
        }
    }
}

/// What planning these fields does.
pub proof fn law_from_fields<B: FloatInstruments>(
    scope: &'static str,
    fields: &Vec<FieldDescription>,
    builder: &InstrumentBuilder<B>,
    before: Journal<B>,
    after: Journal<B>,
    plan: EntryPlan<B::Value>,
)
    requires
        exists|j: &mut Journal<B>|
            {
                &&& #[trigger] call_ensures(
                    EntryPlan::<B::Value>::from_fields::<B>,
                    (scope, fields, builder, j),
                    plan,
                )
                &&& *j == before
                &&& *final(j) == after
            },
    ensures
        planned(
            plan,
            builder,
            scope@,
            Seq::new(
                fields@.len(),
                |i: int|
                    FieldModel {
                        name: fields@[i].name@,
                        tags: fields@[i].tags@,
                        unit: fields@[i].unit,
                    },
            ),
            before,
            after,
        ),
{
    let models = Seq::new(
        fields@.len(),
        |i: int|
            FieldModel { name: fields@[i].name@, tags: fields@[i].tags@, unit: fields@[i].unit },
    );
    assert(fields@.map_values(|field: FieldDescription| field@) =~= models);
    lemma_planned(plan, builder, scope@, models, before, after);
}

/// `fields` are what the descriptors say of all their fields, one descriptor
/// after another; those of descriptor `s` start at `cuts[s]`.
pub open spec fn lists_fields(
    segments: Seq<DescriptorRef<'_>>,
    fields: Seq<FieldModel>,
    cuts: Seq<int>,
) -> bool {
    &&& cuts.len() == segments.len() + 1
    &&& cuts[0] == 0
    &&& cuts[segments.len() as int] == fields.len()
    &&& forall|s: int|
        0 <= s < segments.len() ==> #[trigger] lists_segment(segments, fields, cuts, s)
}

/// The fields of descriptor `s` are all there, in order.
pub open spec fn lists_segment(
    segments: Seq<DescriptorRef<'_>>,
    fields: Seq<FieldModel>,
    cuts: Seq<int>,
    s: int,
) -> bool {
    let views = field_views(segments[s]);
    &&& 0 <= cuts[s]
    &&& cuts[s + 1] == cuts[s] + views.len()
    &&& cuts[s + 1] <= fields.len()
    &&& forall|i: int| 0 <= i < views.len() ==> tells(fields[cuts[s] + i], #[trigger] views[i])
}

proof fn lemma_lists_fields(segments: Seq<DescriptorRef<'_>>) -> (cuts: Seq<int>)
    ensures
        lists_fields(segments, all_fields(segments), cuts),
    decreases segments.len(),
{
    if segments.len() == 0 {
        seq![0int]
    } else {
        let rest = segments.drop_last();
        let earlier = lemma_lists_fields(rest);
        let fields = all_fields(segments);
        let cuts = earlier.push(fields.len() as int);
        let last = segments.len() - 1;
        assert forall|s: int| 0 <= s < segments.len() implies #[trigger] lists_segment(
            segments,
            fields,
            cuts,
            s,
        ) by {
            let views = field_views(segments[s]);
            if s < last {
                assert(lists_segment(rest, all_fields(rest), earlier, s));
                assert(cuts[s] == earlier[s] && cuts[s + 1] == earlier[s + 1]);
                assert forall|i: int| 0 <= i < views.len() implies tells(
                    fields[cuts[s] + i],
                    #[trigger] views[i],
                ) by {
                    assert(tells(all_fields(rest)[cuts[s] + i], views[i]));
                }
            } else {
                assert forall|i: int| 0 <= i < views.len() implies tells(
                    fields[cuts[s] + i],
                    #[trigger] views[i],
                ) by {
                    assert(fields[cuts[s] + i] == segment_fields(segments[s])[i]);
                    lemma_tells(views[i]);
                }
            }
        }
        cuts
    }
}

/// The scope of an entry: `metrique/` and the name of its first segment, or
/// `metrique-otel` where it has none.
pub open spec fn scope_of(segments: Seq<DescriptorRef<'_>>, scope: Seq<char>) -> bool {
    if segments.len() == 0 {
        scope == "metrique-otel"@
    } else {
        scope == "metrique/"@ + entry_name(segments[0])
    }
}

/// What planning the segments of an entry does: it plans every field of every
/// segment, in the scope of the first.
pub proof fn law_from_descriptors<'a, 'd, B: FloatInstruments>(
    segments: &'a [DescriptorRef<'d>],
    builder: &InstrumentBuilder<B>,
    before: Journal<B>,
    after: Journal<B>,
    plan: EntryPlan<B::Value>,
)
    requires
        exists|j: &mut Journal<B>|
            {
                &&& #[trigger] call_ensures(
                    EntryPlan::<B::Value>::from_descriptors::<B>,
                    (segments, builder, j),
                    plan,
                )
                &&& *j == before
                &&& *final(j) == after
            },
    ensures
        scope_of(segments@, plan.scope@),
        exists|fields: Seq<FieldModel>, cuts: Seq<int>|
            {
                &&& #[trigger] lists_fields(segments@, fields, cuts)
                &&& planned(plan, builder, plan.scope@, fields, before, after)
            },
{
    let fields = all_fields(segments@);
    let cuts = lemma_lists_fields(segments@);
    lemma_planned(plan, builder, plan.scope@, fields, before, after);
    assert(lists_fields(segments@, fields, cuts));
}

/// Every field of every descriptor has its place in the plan: with a tag, an
/// instrument under its full name; without one, its full name is among the
/// unclassified.
pub proof fn law_every_described_field_is_placed<'a, 'd, B: FloatInstruments>(
    segments: &'a [DescriptorRef<'d>],
    builder: &InstrumentBuilder<B>,
    before: Journal<B>,
    after: Journal<B>,
    plan: EntryPlan<B::Value>,
    s: int,
    i: int,
)
    requires
        exists|j: &mut Journal<B>|
            {
                &&& #[trigger] call_ensures(
                    EntryPlan::<B::Value>::from_descriptors::<B>,
                    (segments, builder, j),
                    plan,
                )
                &&& *j == before
                &&& *final(j) == after
            },
        0 <= s < segments@.len(),
        0 <= i < field_views(segments@[s]).len(),
    ensures
        ({
            let field = field_views(segments@[s])[i];
            let name = joined(name_parts(field));
            &&& !has_no_tag(flag_types(field)) ==> {
                &&& plan.fields@.contains_key(name)
                &&& plan.fields@[name].instrument.name() == name
                &&& plan.fields@[name].instrument.scope() == plan.scope@
            }
            &&& has_no_tag(flag_types(field)) ==> exists|k: int|
                0 <= k < plan.unclassified@.len() && (#[trigger] plan.unclassified@[k])@ == name
        }),
{
    let field = field_views(segments@[s])[i];
    let name = joined(name_parts(field));
    let fields = all_fields(segments@);
    law_from_descriptors(segments, builder, before, after, plan);
    let p = lemma_position(segments@, s, i);
    lemma_planned(plan, builder, plan.scope@, fields, before, after);
    assert(places(plan, fields, p));
    if has_no_tag(flag_types(field)) {
        let names = texts(plan.unclassified@);
        let sources = choose|sources: Seq<int>| #[trigger] lists_untagged(names, fields, sources);
        assert(sources.contains(p));
        let k = sources.index_of(p);
        assert(names[k] == fields[sources[k]].name);
        assert(plan.unclassified@[k]@ == name);
    }
}

proof fn lemma_position(segments: Seq<DescriptorRef<'_>>, s: int, i: int) -> (p: int)
    requires
        0 <= s < segments.len(),
        0 <= i < field_views(segments[s]).len(),
    ensures
        0 <= p < all_fields(segments).len(),
        all_fields(segments)[p] == field_model(field_views(segments[s])[i]),
    decreases segments.len(),
{
    let rest = segments.drop_last();
    if s < segments.len() - 1 {
        lemma_position(rest, s, i)
    } else {
        let p = all_fields(rest).len() + i;
        assert(all_fields(segments)[p] == segment_fields(segments[s])[i]);
        p
    }
}

/// Static descriptors are planned like any others, where each has one of the
/// five name styles; where one has not, there is no plan and nothing is done.
pub proof fn law_from_static<B: FloatInstruments>(
    descriptors: &Vec<(&'static EntryDescriptor, u8)>,
    builder: &InstrumentBuilder<B>,
    before: Journal<B>,
    after: Journal<B>,
    r: Option<EntryPlan<B::Value>>,
)
    requires
        exists|j: &mut Journal<B>|
            {
                &&& #[trigger] call_ensures(
                    EntryPlan::<B::Value>::from_static::<B>,
                    (descriptors, builder, j),
                    r,
                )
                &&& *j == before
                &&& *final(j) == after
            },
    ensures
        r is None <==> exists|i: int|
            0 <= i < descriptors@.len() && (#[trigger] descriptors@[i]).1 >= 5,
        r is None ==> after.events() == before.events(),
        r is Some ==> exists|
            segments: Seq<DescriptorRef<'static>>,
            fields: Seq<FieldModel>,
            cuts: Seq<int>,
        |
            {
                &&& segments.len() == descriptors@.len()
                &&& forall|i: int|
                    0 <= i < segments.len() ==> call_ensures(
                        DescriptorRef::from_static,
                        (descriptors@[i].0, descriptors@[i].1),
                        #[trigger] segments[i],
                    )
                &&& scope_of(segments, r->0.scope@)
                &&& #[trigger] lists_fields(segments, fields, cuts)
                &&& planned(r->0, builder, r->0.scope@, fields, before, after)
            },
{
    if r is Some {
        let segments = choose|segments: Seq<DescriptorRef<'static>>|
            {
                &&& #[trigger] made_from(descriptors@, segments)
                &&& r->0.realizes(builder, entry_scope(segments), all_fields(segments))
                &&& all_fields(segments).len() > 0 ==> tags_tell_kinds_apart()
                &&& after.extends(
                    &before,
                    asked(
                        builder.meter_provider(),
                        requests(entry_scope(segments), all_fields(segments)),
                    ),
                )
            };
        let fields = all_fields(segments);
        let cuts = lemma_lists_fields(segments);
        lemma_planned(r->0, builder, r->0.scope@, fields, before, after);
        assert(lists_fields(segments, fields, cuts));
    }
}

/// The plan of an entry without descriptors resolves nothing, in a scope of its
/// own.
pub proof fn law_fallback<V>(plan: EntryPlan<V>)
    requires
        call_ensures(EntryPlan::<V>::fallback, (), plan),
    ensures
        plan.scope@ == "metrique-otel"@,
        forall|name: Seq<char>| !(#[trigger] plan.fields@.contains_key(name)),
        plan.unclassified@.len() == 0,
{
}

/// A counter that records whole numbers is told to add each of them, in order,
/// with the attributes that are given.
pub proof fn law_record_whole_numbers<B: FloatInstruments>(
    instrument: &CachedInstrument<B::Value>,
    observations: &Vec<Observation>,
    numbers: Seq<u64>,
    attributes: &[KeyValue],
    floats: &B,
    before: Journal<B>,
    after: Journal<B>,
)
    requires
        exists|j: &mut Journal<B>|
            {
                &&& #[trigger] call_ensures(
                    record_observations::<B>,
                    (instrument, observations, attributes, floats, j),
                    (),
                )
                &&& *j == before
                &&& *final(j) == after
            },
        instrument is Counter,
        observations@.len() == numbers.len(),
        forall|i: int|
            0 <= i < numbers.len() ==> #[trigger] observations@[i] == Observation::Unsigned(
                numbers[i],
            ),
    ensures
        after.events().len() == before.events().len() + numbers.len(),
        forall|i: int|
            0 <= i < before.events().len() ==> #[trigger] after.events()[i] == before.events()[i],
        forall|i: int|
            0 <= i < numbers.len() ==> after.events()[before.events().len() + i] == Event::<
                B,
            >::Called(
                Call::Count(instrument->Counter_0.target(), #[trigger] numbers[i], attributes@),
            ),
{
    law_record(instrument, observations, attributes, floats, before, after);
    let (calls, sources) = choose|calls: Seq<Call<B::Value>>, sources: Seq<int>|
        {
            &&& #[trigger] adds_calls(before, after, calls)
            &&& #[trigger] one_call_each(
                floats,
                instrument,
                observations@,
                attributes@,
                calls,
                sources,
            )
        };
    assert forall|k: int| 0 <= k < numbers.len() implies #[trigger] sources.contains(k) by {
        assert(observations@[k] == Observation::Unsigned(numbers[k]));
        assert(has_number(instrument, observations@[k]));
    }
    lemma_all_indices(sources, numbers.len() as int);
    assert forall|i: int| 0 <= i < numbers.len() implies after.events()[before.events().len() + i]
        == Event::<B>::Called(
        Call::Count(instrument->Counter_0.target(), #[trigger] numbers[i], attributes@),
    ) by {
        assert(sources[i] == i);
        assert(observations@[i] == Observation::Unsigned(numbers[i]));
        assert(calls[i] == Call::<B::Value>::Count(
            instrument->Counter_0.target(),
            numbers[i],
            attributes@,
        ));
    }
}

/// An increasing list of numbers below `n` that has all of them is the list of
/// them.
proof fn lemma_all_indices(sources: Seq<int>, n: int)
    requires
        n >= 0,
        forall|i: int| 0 <= i < sources.len() ==> 0 <= #[trigger] sources[i] < n,
        forall|i: int, j: int| 0 <= i < j < sources.len() ==> sources[i] < sources[j],
        forall|k: int| 0 <= k < n ==> #[trigger] sources.contains(k),
    ensures
        sources.len() == n,
        forall|i: int| 0 <= i < n ==> #[trigger] sources[i] == i,
    decreases n,
{
    if n == 0 {
        if sources.len() > 0 {
            assert(0 <= sources[0] < n);
        }
    } else {
        assert(sources.contains(n - 1));
        let at = sources.index_of(n - 1);
        if at < sources.len() - 1 {
            assert(sources[at] < sources[sources.len() - 1]);
        }
        let rest = sources.drop_last();
        assert forall|i: int| 0 <= i < rest.len() implies 0 <= #[trigger] rest[i] < n - 1 by {
            assert(sources[i] < sources[sources.len() - 1]);
        }
        assert forall|k: int| 0 <= k < n - 1 implies #[trigger] rest.contains(k) by {
            assert(sources.contains(k));
            let i = sources.index_of(k);
            assert(rest[i] == k);
        }
        lemma_all_indices(rest, n - 1);
        assert forall|i: int| 0 <= i < n implies #[trigger] sources[i] == i by {
            if i < n - 1 {
                assert(rest[i] == i);
            }
        }
    }
}

/// An entry of counters, each with one whole number, is finished by telling
/// each of them to add its number, in the order of writing, with the metric's
/// dimensions and then the attributes of the entry.
pub proof fn law_finish_whole_numbers<'s, 'p, B: FloatInstruments>(
    writer: OtelEntryWriter<'s, 'p, B>,
    numbers: Seq<u64>,
    before: Journal<B>,
    after: Journal<B>,
)
    requires
        exists|j: &mut Journal<B>|
            {
                &&& #[trigger] call_ensures(OtelEntryWriter::<'s, 'p, B>::finish, (writer, j), ())
                &&& *j == before
                &&& *final(j) == after
            },
        numbers.len() == writer.pending().len(),
        forall|i: int|
            0 <= i < numbers.len() ==> {
                let metric = #[trigger] writer.pending()[i];
                &&& metric.instrument is Counter
                &&& metric.observations@.len() == 1
                &&& metric.observations@[0] == Observation::Unsigned(numbers[i])
            },
    ensures
        after.events().len() == before.events().len() + numbers.len(),
        forall|i: int|
            0 <= i < before.events().len() ==> #[trigger] after.events()[i] == before.events()[i],
        forall|i: int|
            0 <= i < numbers.len() ==> after.events()[before.events().len() + i] == Event::<
                B,
            >::Called(
                Call::Count(
                    writer.pending()[i].instrument->Counter_0.target(),
                    #[trigger] numbers[i],
                    writer.pending()[i].per_metric_dimensions@ + writer.attributes(),
                ),
            ),
{
    law_finish_one_each(writer, before, after);
    let calls = choose|calls: Seq<Call<B::Value>>|
        {
            &&& #[trigger] adds_calls(before, after, calls)
            &&& calls.len() == writer.pending().len()
            &&& forall|i: int|
                0 <= i < calls.len() ==> call_for(
                    &writer.floats(),
                    &writer.pending()[i].instrument,
                    writer.pending()[i].observations@[0],
                    writer.pending()[i].per_metric_dimensions@ + writer.attributes(),
                    #[trigger] calls[i],
                )
        };
    assert forall|i: int| 0 <= i < numbers.len() implies after.events()[before.events().len() + i]
        == Event::<B>::Called(
        Call::Count(
            writer.pending()[i].instrument->Counter_0.target(),
            #[trigger] numbers[i],
            writer.pending()[i].per_metric_dimensions@ + writer.attributes(),
        ),
    ) by {
        assert(calls[i] is Count);
    }
}

/// The writer for a value goes by the given name and writes to this entry.
pub proof fn law_value<'a, 's, 'p, B: FloatInstruments>(
    entry: OtelEntryWriter<'s, 'p, B>,
    name: String,
)
    ensures
        forall|e: &'a mut OtelEntryWriter<'s, 'p, B>, r: OtelValueWriter<'a, 's, 'p, B>|
            {
                &&& #[trigger] call_ensures(OtelEntryWriter::<'s, 'p, B>::value, (e, name), r)
                &&& *e == entry
            } ==> {
                &&& r.name@ == name@
                &&& *r.parent == entry
                &&& *final(e) == *final(r.parent)
            },
{
}

/// The names of the dropped metrics are all there, in order.
pub proof fn law_unclassified_metrics<'s, 'p, B: FloatInstruments>(
    writer: &OtelEntryWriter<'s, 'p, B>,
    r: &Vec<String>,
)
    requires
        call_ensures(OtelEntryWriter::<'s, 'p, B>::unclassified_metrics, (writer,), r),
    ensures
        r@.len() == writer.unclassified().len(),
        forall|i: int| 0 <= i < r@.len() ==> (#[trigger] r@[i])@ == writer.unclassified()[i],
{
    let names = r@.map_values(|name: String| name@);
    assert forall|i: int| 0 <= i < r@.len() implies (#[trigger] r@[i])@
        == writer.unclassified()[i] by {
        assert(names[i] == r@[i]@);
    }
}

} // verus!
