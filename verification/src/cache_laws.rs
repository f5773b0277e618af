//! What holds of a cache over its whole life, whoever asks it for what.

use crate::fallback::{key_of, with_instrument, FallbackCache, FallbackKey, FallbackTable};
use crate::journal::table::SharedTable;
use crate::journal::Event;
use crate::metrics::{otel_unit, CachedInstrument, FloatInstruments};
use metrique_writer_core::unit::Unit;
use vstd::prelude::*;

verus! {

/// One request to a cache: what was asked for, what was answered and what was
/// done for it.
#[verifier::reject_recursive_types(B)]
pub ghost struct Inquiry<B: FloatInstruments> {
    pub key: FallbackKey,
    pub unit: Unit,
    pub answer: CachedInstrument<B::Value>,
    pub events: Seq<Event<B>>,
}

/// What a table that held `first` holds after `trace`.
pub open spec fn held<B: FloatInstruments>(
    first: Map<FallbackKey, CachedInstrument<B::Value>>,
    trace: Seq<Event<B>>,
) -> Map<FallbackKey, CachedInstrument<B::Value>>
    decreases trace.len(),
{
    if trace.len() == 0 {
        first
    } else {
        match trace.last() {
            Event::Replaced(_, _, after) => after,
            _ => held(first, trace.drop_last()),
        }
    }
}

/// `event` is one of `table`, which held `now`.
pub open spec fn fits<B: FloatInstruments>(
    table: SharedTable<B>,
    now: Map<FallbackKey, CachedInstrument<B::Value>>,
    event: Event<B>,
) -> bool {
    match event {
        Event::Looked(t, seen) => t == table && seen == now,
        Event::Replaced(t, before, _) => t == table && before == now,
        _ => false,
    }
}

/// What the lock of a table does. It was made around `first`; `trace` are the
/// events of the table in the order in which the lock let them happen; and each
/// time it hands out what was last put back.
pub open spec fn serialised<B: FloatInstruments>(
    table: SharedTable<B>,
    first: Map<FallbackKey, CachedInstrument<B::Value>>,
    trace: Seq<Event<B>>,
) -> bool {
    &&& exists|t: FallbackTable<B::Value>| #[trigger] table.started_with(t) && t@ == first
    &&& forall|i: int|
        0 <= i < trace.len() ==> fits(table, held(first, trace.take(i)), #[trigger] trace[i])
}

/// Some inquiry brought about `event`.
pub open spec fn came_from<B: FloatInstruments>(
    inquiries: Seq<Inquiry<B>>,
    event: Event<B>,
) -> bool {
    exists|c: int| 0 <= c < inquiries.len() && (#[trigger] inquiries[c]).events.contains(event)
}

/// `event` is part of `trace`.
pub open spec fn happened<B: FloatInstruments>(trace: Seq<Event<B>>, event: Event<B>) -> bool {
    trace.contains(event)
}

/// The life of a cache: `inquiries` were answered, `trace` is what they did to
/// the table, in the order of the lock, and at first the table held `first`.
pub open spec fn life<B: FloatInstruments>(
    cache: &FallbackCache<B>,
    first: Map<FallbackKey, CachedInstrument<B::Value>>,
    inquiries: Seq<Inquiry<B>>,
    trace: Seq<Event<B>>,
) -> bool {
    &&& serialised(cache.table(), first, trace)
    &&& forall|c: int|
        0 <= c < inquiries.len() ==> {
            let q = #[trigger] inquiries[c];
            cache.answered(q.key, q.unit, &q.answer, q.events)
        }
    &&& forall|i: int| 0 <= i < trace.len() ==> #[trigger] came_from(inquiries, trace[i])
    &&& forall|c: int, e: int|
        0 <= c < inquiries.len() && 0 <= e < inquiries[c].events.len() && !(
        inquiries[c].events[e] is Asked) ==> #[trigger] happened(trace, inquiries[c].events[e])
}

/// Step `i` of the trace adds an instrument for `key`.
pub open spec fn adds_entry<B: FloatInstruments>(
    first: Map<FallbackKey, CachedInstrument<B::Value>>,
    trace: Seq<Event<B>>,
    i: int,
    key: FallbackKey,
) -> bool {
    &&& 0 <= i < trace.len()
    &&& !held(first, trace.take(i)).contains_key(key)
    &&& held(first, trace.take(i + 1)).contains_key(key)
}

/// What step `i` leaves the table with.
proof fn lemma_step<B: FloatInstruments>(
    first: Map<FallbackKey, CachedInstrument<B::Value>>,
    trace: Seq<Event<B>>,
    i: int,
)
    requires
        0 <= i < trace.len(),
    ensures
        held(first, trace.take(i + 1)) == match trace[i] {
            Event::Replaced(_, _, after) => after,
            _ => held(first, trace.take(i)),
        },
{
    assert(trace.take(i + 1).drop_last() == trace.take(i));
}

/// The inquiry that put a table back, and the instrument that it put in.
proof fn lemma_replacement<B: FloatInstruments>(
    cache: &FallbackCache<B>,
    first: Map<FallbackKey, CachedInstrument<B::Value>>,
    inquiries: Seq<Inquiry<B>>,
    trace: Seq<Event<B>>,
    i: int,
) -> (r: (int, CachedInstrument<B::Value>))
    requires
        life(cache, first, inquiries, trace),
        0 <= i < trace.len(),
        trace[i] is Replaced,
    ensures
        0 <= r.0 < inquiries.len(),
        inquiries[r.0].events.len() == 3,
        inquiries[r.0].events[2] == trace[i],
        key_of(&r.1) == inquiries[r.0].key,
        held(first, trace.take(i + 1)) == with_instrument(held(first, trace.take(i)), r.1),
{
    lemma_step(first, trace, i);
    assert(came_from(inquiries, trace[i]));
    let c = choose|c: int|
        0 <= c < inquiries.len() && (#[trigger] inquiries[c]).events.contains(trace[i]);
    let q = inquiries[c];
    let e = q.events.index_of(trace[i]);
    assert(cache.answered(q.key, q.unit, &q.answer, q.events));
    if exists|seen: Map<FallbackKey, CachedInstrument<B::Value>>| #[trigger]
        cache.found(q.key, &q.answer, q.events, seen) {
        assert(q.events[e] is Looked);
    }
    let (seen, built, before) = choose|
        seen: Map<FallbackKey, CachedInstrument<B::Value>>,
        built: CachedInstrument<B::Value>,
        before: Map<FallbackKey, CachedInstrument<B::Value>>,
    | #[trigger]
        cache.added(q.key, q.unit, &q.answer, q.events, seen, built, before);
    assert(e == 2);
    assert(fits(cache.table(), held(first, trace.take(i)), trace[i]));
    (c, built)
}

/// No entry of a cache is ever removed or replaced.
pub proof fn law_entries_stay<B: FloatInstruments>(
    cache: &FallbackCache<B>,
    first: Map<FallbackKey, CachedInstrument<B::Value>>,
    inquiries: Seq<Inquiry<B>>,
    trace: Seq<Event<B>>,
    i: int,
    j: int,
    key: FallbackKey,
)
    requires
        life(cache, first, inquiries, trace),
        0 <= i <= j <= trace.len(),
        held(first, trace.take(i)).contains_key(key),
    ensures
        held(first, trace.take(j)).contains_key(key),
        held(first, trace.take(j))[key] == held(first, trace.take(i))[key],
    decreases j - i,
{
    if i < j {
        law_entries_stay(cache, first, inquiries, trace, i, j - 1, key);
        lemma_step(first, trace, j - 1);
        if trace[j - 1] is Replaced {
            let r = lemma_replacement(cache, first, inquiries, trace, j - 1);
        }
    }
}

/// At most one step adds an instrument for a key.
pub proof fn law_one_entry_each<B: FloatInstruments>(
    cache: &FallbackCache<B>,
    first: Map<FallbackKey, CachedInstrument<B::Value>>,
    inquiries: Seq<Inquiry<B>>,
    trace: Seq<Event<B>>,
    i: int,
    j: int,
    key: FallbackKey,
)
    requires
        life(cache, first, inquiries, trace),
        adds_entry(first, trace, i, key),
        adds_entry(first, trace, j, key),
    ensures
        i == j,
{
    if i < j {
        law_entries_stay(cache, first, inquiries, trace, i + 1, j, key);
    }
    if j < i {
        law_entries_stay(cache, first, inquiries, trace, j + 1, i, key);
    }
}

/// Every entry of a cache stands under its own scope, name and kind.
pub proof fn law_entries_are_keyed<B: FloatInstruments>(
    cache: &FallbackCache<B>,
    first: Map<FallbackKey, CachedInstrument<B::Value>>,
    inquiries: Seq<Inquiry<B>>,
    trace: Seq<Event<B>>,
    i: int,
    key: FallbackKey,
)
    requires
        life(cache, first, inquiries, trace),
        first == Map::<FallbackKey, CachedInstrument<B::Value>>::empty(),
        0 <= i <= trace.len(),
        held(first, trace.take(i)).contains_key(key),
    ensures
        key_of(&held(first, trace.take(i))[key]) == key,
    decreases i,
{
    if i > 0 {
        lemma_step(first, trace, i - 1);
        if held(first, trace.take(i - 1)).contains_key(key) {
            law_entries_are_keyed(cache, first, inquiries, trace, i - 1, key);
        }
        if trace[i - 1] is Replaced {
            let r = lemma_replacement(cache, first, inquiries, trace, i - 1);
        }
    }
}

/// A request changes no entry but the one it asks for.
pub proof fn law_other_entries_unchanged<B: FloatInstruments>(
    cache: &FallbackCache<B>,
    q: Inquiry<B>,
    e: int,
    other: FallbackKey,
)
    requires
        cache.answered(q.key, q.unit, &q.answer, q.events),
        0 <= e < q.events.len(),
        q.events[e] is Replaced,
        other != q.key,
    ensures
        match q.events[e] {
            Event::Replaced(_, before, after) => {
                &&& after.contains_key(other) <==> before.contains_key(other)
                &&& before.contains_key(other) ==> after[other] == before[other]
            },
            _ => true,
        },
{
}

/// When the answer to an inquiry was in the table.
proof fn lemma_answer_is_held<B: FloatInstruments>(
    cache: &FallbackCache<B>,
    first: Map<FallbackKey, CachedInstrument<B::Value>>,
    inquiries: Seq<Inquiry<B>>,
    trace: Seq<Event<B>>,
    c: int,
) -> (i: int)
    requires
        life(cache, first, inquiries, trace),
        0 <= c < inquiries.len(),
    ensures
        0 <= i <= trace.len(),
        held(first, trace.take(i)).contains_key(inquiries[c].key),
        inquiries[c].answer.same_instrument(&held(first, trace.take(i))[inquiries[c].key]),
{
    let q = inquiries[c];
    assert(cache.answered(q.key, q.unit, &q.answer, q.events));
    if exists|seen: Map<FallbackKey, CachedInstrument<B::Value>>| #[trigger]
        cache.found(q.key, &q.answer, q.events, seen) {
        let event = inquiries[c].events[0];
        assert(happened(trace, inquiries[c].events[0]));
        let i = trace.index_of(event);
        assert(fits(cache.table(), held(first, trace.take(i)), trace[i]));
        i
    } else {
        let event = inquiries[c].events[2];
        assert(happened(trace, inquiries[c].events[2]));
        let i = trace.index_of(event);
        lemma_step(first, trace, i);
        assert(fits(cache.table(), held(first, trace.take(i)), trace[i]));
        i + 1
    }
}

/// All who ask a cache for a scope, a name and a kind get handles to one
/// instrument, whoever comes first and whatever units they name. It is the one
/// that the cache has in the end.
pub proof fn law_one_instrument_for_all<B: FloatInstruments>(
    cache: &FallbackCache<B>,
    first: Map<FallbackKey, CachedInstrument<B::Value>>,
    inquiries: Seq<Inquiry<B>>,
    trace: Seq<Event<B>>,
    a: int,
    b: int,
)
    requires
        life(cache, first, inquiries, trace),
        0 <= a < inquiries.len(),
        0 <= b < inquiries.len(),
        inquiries[a].key == inquiries[b].key,
    ensures
        inquiries[a].answer.same_instrument(&inquiries[b].answer),
        held(first, trace).contains_key(inquiries[a].key),
        inquiries[a].answer.same_instrument(&held(first, trace)[inquiries[a].key]),
{
    let key = inquiries[a].key;
    let end = trace.len() as int;
    let i = lemma_answer_is_held(cache, first, inquiries, trace, a);
    let j = lemma_answer_is_held(cache, first, inquiries, trace, b);
    law_entries_stay(cache, first, inquiries, trace, i, end, key);
    law_entries_stay(cache, first, inquiries, trace, j, end, key);
    assert(trace.take(end) == trace);
}

/// The step that added an instrument for a key that the table did not have at
/// first.
proof fn lemma_added_at<B: FloatInstruments>(
    first: Map<FallbackKey, CachedInstrument<B::Value>>,
    trace: Seq<Event<B>>,
    i: int,
    key: FallbackKey,
) -> (k: int)
    requires
        0 <= i <= trace.len(),
        !first.contains_key(key),
        held(first, trace.take(i)).contains_key(key),
    ensures
        k < i,
        adds_entry(first, trace, k, key),
    decreases i,
{
    if i == 0 {
        0
    } else if held(first, trace.take(i - 1)).contains_key(key) {
        lemma_added_at(first, trace, i - 1, key)
    } else {
        i - 1
    }
}

/// The only request for a key has one instrument made, in its own unit. It gets
/// that instrument, and the cache has it from then on.
pub proof fn law_first_request<B: FloatInstruments>(
    cache: &FallbackCache<B>,
    first: Map<FallbackKey, CachedInstrument<B::Value>>,
    inquiries: Seq<Inquiry<B>>,
    trace: Seq<Event<B>>,
    c: int,
)
    requires
        life(cache, first, inquiries, trace),
        0 <= c < inquiries.len(),
        !first.contains_key(inquiries[c].key),
        forall|d: int|
            0 <= d < inquiries.len() && d != c ==> (#[trigger] inquiries[d]).key
                != inquiries[c].key,
    ensures
        inquiries[c].answer.unit() == otel_unit(inquiries[c].unit),
        inquiries[c].events.len() == 3,
        inquiries[c].events[1] is Asked,
        held(first, trace).contains_key(inquiries[c].key),
        inquiries[c].answer.same_instrument(&held(first, trace)[inquiries[c].key]),
{
    let q = inquiries[c];
    law_one_instrument_for_all(cache, first, inquiries, trace, c, c);
    assert(cache.answered(q.key, q.unit, &q.answer, q.events));
    if exists|seen: Map<FallbackKey, CachedInstrument<B::Value>>| #[trigger]
        cache.found(q.key, &q.answer, q.events, seen) {
        let event = inquiries[c].events[0];
        assert(happened(trace, inquiries[c].events[0]));
        let i = trace.index_of(event);
        assert(fits(cache.table(), held(first, trace.take(i)), trace[i]));
        lemma_only_adder(cache, first, inquiries, trace, c, i);
    } else {
        let event = inquiries[c].events[2];
        assert(happened(trace, inquiries[c].events[2]));
        let i = trace.index_of(event);
        assert(fits(cache.table(), held(first, trace.take(i)), trace[i]));
        if held(first, trace.take(i)).contains_key(q.key) {
            let k = lemma_only_adder(cache, first, inquiries, trace, c, i);
            assert(fits(cache.table(), held(first, trace.take(k)), trace[k]));
        }
    }
}

/// Where only one inquiry is for a key, it was the one to add the instrument.
proof fn lemma_only_adder<B: FloatInstruments>(
    cache: &FallbackCache<B>,
    first: Map<FallbackKey, CachedInstrument<B::Value>>,
    inquiries: Seq<Inquiry<B>>,
    trace: Seq<Event<B>>,
    c: int,
    i: int,
) -> (k: int)
    requires
        life(cache, first, inquiries, trace),
        0 <= c < inquiries.len(),
        !first.contains_key(inquiries[c].key),
        forall|d: int|
            0 <= d < inquiries.len() && d != c ==> (#[trigger] inquiries[d]).key
                != inquiries[c].key,
        0 <= i <= trace.len(),
        held(first, trace.take(i)).contains_key(inquiries[c].key),
    ensures
        adds_entry(first, trace, k, inquiries[c].key),
        inquiries[c].events.len() == 3,
        inquiries[c].events[2] == trace[k],
{
    let key = inquiries[c].key;
    let k = lemma_added_at(first, trace, i, key);
    lemma_step(first, trace, k);
    let r = lemma_replacement(cache, first, inquiries, trace, k);
    assert(inquiries[r.0].key == key);
    k
}

/// A request that meets a table with an instrument for its key gets that one,
/// with the unit that it was made with; nothing is made, and the table is not
/// taken for writing.
pub proof fn law_later_requests<B: FloatInstruments>(
    cache: &FallbackCache<B>,
    first: Map<FallbackKey, CachedInstrument<B::Value>>,
    inquiries: Seq<Inquiry<B>>,
    trace: Seq<Event<B>>,
    c: int,
    i: int,
)
    requires
        life(cache, first, inquiries, trace),
        0 <= c < inquiries.len(),
        0 <= i < trace.len(),
        inquiries[c].events.len() > 0,
        inquiries[c].events[0] == trace[i],
        held(first, trace.take(i)).contains_key(inquiries[c].key),
    ensures
        inquiries[c].events.len() == 1,
        inquiries[c].answer.same_instrument(&held(first, trace.take(i))[inquiries[c].key]),
        inquiries[c].answer.unit() == held(first, trace.take(i))[inquiries[c].key].unit(),
{
    let q = inquiries[c];
    assert(cache.answered(q.key, q.unit, &q.answer, q.events));
    assert(fits(cache.table(), held(first, trace.take(i)), trace[i]));
}

} // verus!
