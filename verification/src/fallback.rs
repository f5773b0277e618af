//! The instruments that are resolved when an entry is written, by scope, name
//! and kind.

use crate::journal::table::SharedTable;
use crate::journal::{Event, Journal, Request};
use crate::metrics::{
    otel_unit, CachedInstrument, FloatInstruments, InstrumentBuilder, InstrumentKind,
};
use metrique_writer_core::unit::Unit;
use vstd::hash_map::StringHashMap;
use vstd::prelude::*;

verus! {

/// What an instrument is looked up by. The unit is not part of it: the first
/// instrument made for a key keeps its unit.
pub ghost struct FallbackKey {
    pub scope: Seq<char>,
    pub name: Seq<char>,
    pub kind: InstrumentKind,
}

/// The key of an instrument.
pub open spec fn key_of<V>(instrument: &CachedInstrument<V>) -> FallbackKey {
    FallbackKey {
        scope: instrument.scope(),
        name: instrument.name(),
        kind: instrument.kind(),
    }
}

/// A table with `instrument` added, unless it has one for the same key already.
pub open spec fn with_instrument<V>(
    table: Map<FallbackKey, CachedInstrument<V>>,
    instrument: CachedInstrument<V>,
) -> Map<FallbackKey, CachedInstrument<V>> {
    if table.contains_key(key_of(&instrument)) {
        table
    } else {
        table.insert(key_of(&instrument), instrument)
    }
}

#[verifier::reject_recursive_types(V)]
struct Slot<V> {
    scope: String,
    instrument: CachedInstrument<V>,
}

/// A table of instruments, at most one for each key. A bucket holds the
/// instruments of one name. A table keeps its lineage for life, and nothing is
/// known of the lineage of a new one: no other table can be passed off as it.
#[verifier::reject_recursive_types(V)]
pub struct FallbackTable<V> {
    index: StringHashMap<usize>,
    buckets: Vec<Vec<Slot<V>>>,
    model: Ghost<Map<FallbackKey, CachedInstrument<V>>>,
    lineage: Ghost<int>,
}

impl<V> View for FallbackTable<V> {
    type V = Map<FallbackKey, CachedInstrument<V>>;

    closed spec fn view(&self) -> Map<FallbackKey, CachedInstrument<V>> {
        self.model@
    }
}

impl<V> FallbackTable<V> {
    /// Which table this is.
    pub closed spec fn lineage(&self) -> int {
        self.lineage@
    }

    /// Slot `i` of bucket `b` is where it belongs, and the table has it.
    closed spec fn placed(&self, b: int, i: int) -> bool {
        let slot = self.buckets[b][i];
        let key = key_of(&slot.instrument);
        &&& slot.scope@ == key.scope
        &&& self.index@.contains_key(key.name)
        &&& self.index@[key.name] == b
        &&& self.model@.contains_key(key)
        &&& self.model@[key] == slot.instrument
    }

    /// Some slot of the bucket for its name holds the instrument for `key`.
    closed spec fn reachable(&self, key: FallbackKey) -> bool {
        &&& self.index@.contains_key(key.name)
        &&& exists|i: int|
            0 <= i < self.buckets[self.index@[key.name] as int].len() && #[trigger] key_of(
                &self.buckets[self.index@[key.name] as int][i].instrument,
            ) == key
    }

    /// The index and the buckets agree with the table's view.
    pub closed spec fn wf(&self) -> bool {
        &&& forall|name: Seq<char>| #[trigger]
            self.index@.contains_key(name) ==> self.index@[name] < self.buckets.len()
        &&& forall|a: Seq<char>, b: Seq<char>|
            #![trigger self.index@[a], self.index@[b]]
            self.index@.contains_key(a) && self.index@.contains_key(b) && self.index@[a]
                == self.index@[b] ==> a == b
        &&& forall|b: int, i: int|
            0 <= b < self.buckets.len() && 0 <= i < self.buckets[b].len() ==> #[trigger]
            self.placed(b, i)
        &&& forall|key: FallbackKey| #[trigger]
            self.model@.contains_key(key) ==> self.reachable(key)
    }

    /// Each instrument of the table is found under its own key.
    pub proof fn lemma_keyed(&self)
        requires
            self.wf(),
        ensures
            forall|key: FallbackKey| #[trigger]
                self@.contains_key(key) ==> key_of(&self@[key]) == key,
    {
        assert forall|key: FallbackKey| #[trigger] self@.contains_key(key) implies key_of(
            &self@[key],
        ) == key by {
            assert(self.reachable(key));
            let b = self.index@[key.name] as int;
            let i = choose|i: int|
                0 <= i < self.buckets[b].len() && #[trigger] key_of(
                    &self.buckets[b][i].instrument,
                ) == key;
            assert(self.placed(b, i));
        }
    }

    pub fn new() -> (r: Self)
        ensures
            r.wf(),
            r@ == Map::<FallbackKey, CachedInstrument<V>>::empty(),
    {
        FallbackTable {
            index: StringHashMap::new(),
            buckets: Vec::new(),
            model: Ghost(Map::empty()),
            lineage: Ghost(arbitrary()),
        }
    }

    /// The place of the instrument for `scope`, `name` and `kind`.
    fn find(&self, scope: &String, name: &str, kind: InstrumentKind) -> (r: Option<(usize, usize)>)
        requires
            self.wf(),
        ensures
            ({
                let key = FallbackKey { scope: scope@, name: name@, kind };
                match r {
                    Some((b, i)) => {
                        &&& b < self.buckets.len()
                        &&& i < self.buckets[b as int].len()
                        &&& key_of(&self.buckets[b as int][i as int].instrument) == key
                        &&& self@.contains_key(key)
                        &&& self@[key] == self.buckets[b as int][i as int].instrument
                    },
                    None => !self@.contains_key(key),
                }
            }),
    {
        let ghost key = FallbackKey { scope: scope@, name: name@, kind };
        match self.index.get(name) {
            None => {
                assert(self@.contains_key(key) ==> self.reachable(key));
                None
            },
            Some(bucket) => {
                let b: usize = *bucket;
                let slots = &self.buckets[b];
                for i in 0..slots.len()
                    invariant
                        *slots == self.buckets[b as int],
                        self.wf(),
                        self.index@.contains_key(name@),
                        b == self.index@[name@],
                        b < self.buckets.len(),
                        key == (FallbackKey { scope: scope@, name: name@, kind }),
                        forall|j: int|
                            0 <= j < i ==> #[trigger] key_of(
                                &self.buckets[b as int][j].instrument,
                            ) != key,
                {
                    let slot = &slots[i];
                    assert(self.placed(b as int, i as int));
                    assert(self.index@[key_of(&slot.instrument).name] == self.index@[name@]);
                    if slot.scope == *scope && slot.instrument.instrument_kind() == kind {
                        return Some((b, i));
                    }
                }
                assert(self@.contains_key(key) ==> self.reachable(key));
                None
            },
        }
    }
}

impl<V: Copy> FallbackTable<V> {
    /// A handle to the instrument for `scope`, `name` and `kind`.
    pub fn lookup(&self, scope: &str, name: &str, kind: InstrumentKind) -> (r: Option<
        CachedInstrument<V>,
    >)
        requires
            self.wf(),
        ensures
            ({
                let key = FallbackKey { scope: scope@, name: name@, kind };
                match r {
                    Some(instrument) => {
                        &&& self@.contains_key(key)
                        &&& instrument.same_instrument(&self@[key])
                    },
                    None => !self@.contains_key(key),
                }
            }),
    {
        match self.find(&scope.to_owned(), name, kind) {
            Some((b, i)) => Some(self.buckets[b][i].instrument.clone()),
            None => None,
        }
    }

    /// Adds `instrument` to the table, unless it has one for the same key
    /// already. Returns a handle to the one that the table has.
    pub fn get_or_insert(&mut self, instrument: CachedInstrument<V>) -> (r: CachedInstrument<V>)
        requires
            old(self).wf(),
        ensures
            final(self).wf(),
            final(self).lineage() == old(self).lineage(),
            final(self)@ == with_instrument(old(self)@, instrument),
            r.same_instrument(&final(self)@[key_of(&instrument)]),
    {
        let scope = instrument.scope_name().to_owned();
        let kind = instrument.instrument_kind();
        match self.find(&scope, instrument.instrument_name(), kind) {
            Some((b, i)) => self.buckets[b][i].instrument.clone(),
            None => {
                let r = instrument.clone();
                self.insert_new(scope, instrument);
                r
            },
        }
    }

    /// Adds an instrument for a key that the table has none for.
    fn insert_new(&mut self, scope: String, instrument: CachedInstrument<V>)
        requires
            old(self).wf(),
            scope@ == instrument.scope(),
            !old(self)@.contains_key(key_of(&instrument)),
        ensures
            final(self).wf(),
            final(self).lineage() == old(self).lineage(),
            final(self)@ == old(self)@.insert(key_of(&instrument), instrument),
    {
        let ghost key = key_of(&instrument);
        let ghost before = *self;
        let ghost model = self.model@.insert(key, instrument);
        let known: Option<usize> = match self.index.get(instrument.instrument_name()) {
            Some(bucket) => Some(*bucket),
            None => None,
        };
        match known {
            Some(b) => {
                let slot = Slot { scope, instrument };
                self.buckets[b].push(slot);
            },
            None => {
                let name = instrument.instrument_name().to_owned();
                let slot = Slot { scope, instrument };
                let mut bucket: Vec<Slot<V>> = Vec::new();
                bucket.push(slot);
                self.index.insert(name, self.buckets.len());
                self.buckets.push(bucket);
            },
        }
        self.model = Ghost(model);
        proof {
            let home = self.index@[key.name] as int;
            assert(self.buckets[home].len() > 0);
            let last = self.buckets[home].len() - 1;
            assert(key_of(&self.buckets[home][last].instrument) == key);
            assert forall|b: int, i: int|
                0 <= b < self.buckets.len() && 0 <= i < self.buckets[b].len() implies #[trigger]
            self.placed(b, i) by {
                if !(b == home && i == last) {
                    assert(before.placed(b, i));
                }
            }
            assert forall|k: FallbackKey| #[trigger]
                self.model@.contains_key(k) implies self.reachable(k) by {
                if k != key {
                    assert(before.model@.contains_key(k));
                    assert(before.reachable(k));
                    let b = before.index@[k.name] as int;
                    let i = choose|i: int|
                        0 <= i < before.buckets[b].len() && #[trigger] key_of(
                            &before.buckets[b][i].instrument,
                        ) == k;
                    assert(key_of(&self.buckets[b][i].instrument) == k);
                }
            }
        }
    }
}

/// A lazy cache of instruments, for the fields that no plan resolves. Readers
/// share its table; it is taken for writing only when a key is first seen.
#[verifier::reject_recursive_types(B)]
pub struct FallbackCache<B: FloatInstruments> {
    builder: InstrumentBuilder<B>,
    map: SharedTable<B>,
}

impl<B: FloatInstruments> FallbackCache<B> {
    #[verifier::type_invariant]
    closed spec fn guarded(&self) -> bool {
        self.map.meters() == self.builder.meters()
    }

    pub closed spec fn instrument_builder(&self) -> InstrumentBuilder<B> {
        self.builder
    }

    pub closed spec fn table(&self) -> SharedTable<B> {
        self.map
    }

    /// A request for an instrument was answered from a table that had one.
    pub open spec fn found(
        &self,
        key: FallbackKey,
        answer: &CachedInstrument<B::Value>,
        events: Seq<Event<B>>,
        seen: Map<FallbackKey, CachedInstrument<B::Value>>,
    ) -> bool {
        &&& seen.contains_key(key)
        &&& key_of(&seen[key]) == key
        &&& answer.same_instrument(&seen[key])
        &&& events == seq![Event::Looked(self.table(), seen)]
    }

    /// A request for an instrument met a table that had none: one was made, and
    /// the table, as it was by then, was put back with it, unless it had got one
    /// meanwhile.
    pub open spec fn added(
        &self,
        key: FallbackKey,
        unit: Unit,
        answer: &CachedInstrument<B::Value>,
        events: Seq<Event<B>>,
        seen: Map<FallbackKey, CachedInstrument<B::Value>>,
        built: CachedInstrument<B::Value>,
        before: Map<FallbackKey, CachedInstrument<B::Value>>,
    ) -> bool {
        let after = with_instrument(before, built);
        &&& !seen.contains_key(key)
        &&& key_of(&built) == key
        &&& built.unit() == otel_unit(unit)
        &&& self.instrument_builder().made(&built)
        &&& answer.same_instrument(&after[key])
        &&& events == seq![
            Event::Looked(self.table(), seen),
            Event::Asked(
                self.instrument_builder().meter_provider(),
                Request {
                    scope: key.scope,
                    name: key.name,
                    kind: key.kind,
                    unit: otel_unit(unit),
                },
            ),
            Event::Replaced(self.table(), before, after),
        ]
    }

    /// `answer` is what a request for an instrument was answered, and `events`
    /// is all that was done for it.
    pub open spec fn answered(
        &self,
        key: FallbackKey,
        unit: Unit,
        answer: &CachedInstrument<B::Value>,
        events: Seq<Event<B>>,
    ) -> bool {
        &&& key_of(answer) == key
        &&& self.instrument_builder().made(answer)
        &&& {
            ||| exists|seen: Map<FallbackKey, CachedInstrument<B::Value>>| #[trigger]
                self.found(key, answer, events, seen)
            ||| exists|
                seen: Map<FallbackKey, CachedInstrument<B::Value>>,
                built: CachedInstrument<B::Value>,
                before: Map<FallbackKey, CachedInstrument<B::Value>>,
            | #[trigger]
                self.added(key, unit, answer, events, seen, built, before)
        }
    }

    pub fn new(builder: InstrumentBuilder<B>) -> (r: Self)
        ensures
            r.instrument_builder() == builder,
            exists|table: FallbackTable<B::Value>|
                table@ == Map::<FallbackKey, CachedInstrument<B::Value>>::empty()
                    && #[trigger] r.table().started_with(table),
    {
        let map = SharedTable::new(builder.shared_meters());
        let ghost empty = choose|table: FallbackTable<B::Value>|
            table@ == Map::<FallbackKey, CachedInstrument<B::Value>>::empty()
                && #[trigger] map.started_with(table);
        let r = FallbackCache { builder, map };
        assert(r.table().started_with(empty));
        r
    }

    pub fn builder(&self) -> (r: &InstrumentBuilder<B>)
        ensures
            *r == self.instrument_builder(),
    {
        &self.builder
    }

    /// A handle to the instrument that the cache has for `scope`, `name` and
    /// `kind`; where it has none, `unit` is that of the one it gets.
    ///
    /// The table is read once. Only where it has no instrument for the key is
    /// one made, and the table put back with it, once. Other threads may add to
    /// the table in between.
    pub fn get_or_build(
        &self,
        scope: &'static str,
        name: &str,
        kind: InstrumentKind,
        unit: Unit,
        journal: &mut Journal<B>,
    ) -> (r: CachedInstrument<B::Value>)
        ensures
            exists|events: Seq<Event<B>>|
                {
                    &&& #[trigger] self.answered(
                        FallbackKey { scope: scope@, name: name@, kind },
                        unit,
                        &r,
                        events,
                    )
                    &&& final(journal).extends(old(journal), events)
                },
    {
        proof {
            use_type_invariant(self);
        }
        let ghost key = FallbackKey { scope: scope@, name: name@, kind };
        let ghost start = *journal;
        let found = self.map.lookup(scope, name, kind, journal);
        let ghost seen = choose|seen: FallbackTable<B::Value>|
            {
                &&& #[trigger] self.map.was_read(seen)
                &&& journal.extends(&start, seq![Event::Looked(self.map, seen@)])
                &&& match found {
                    Some(instrument) => {
                        &&& seen@.contains_key(key)
                        &&& key_of(&seen@[key]) == key
                        &&& instrument.same_instrument(&seen@[key])
                    },
                    None => !seen@.contains_key(key),
                }
            };
        if let Some(instrument) = found {
            let ghost events: Seq<Event<B>> = seq![Event::Looked(self.map, seen@)];
            assert(self.found(key, &instrument, events, seen@));
            assert(self.answered(key, unit, &instrument, events));
            return instrument;
        }
        let built = self.builder.build(scope, name, kind, unit, journal);
        let ghost between = *journal;
        let r = self.map.add(built, journal);
        proof {
            let (before, after) = choose|
                before: FallbackTable<B::Value>,
                after: FallbackTable<B::Value>,
            |
                {
                    &&& #[trigger] self.map.was_replaced(before, after)
                    &&& after@ == with_instrument(before@, built)
                    &&& r.same_instrument(&after@[key])
                    &&& journal.extends(
                        &between,
                        seq![Event::Replaced(self.map, before@, after@)],
                    )
                };
            let events: Seq<Event<B>> = seq![
                Event::Looked(self.map, seen@),
                Event::Asked(
                    self.builder.meter_provider(),
                    Request { scope: scope@, name: name@, kind, unit: otel_unit(unit) },
                ),
                Event::Replaced(self.map, before@, after@),
            ];
            assert(self.added(key, unit, &r, events, seen@, built, before@));
            assert(self.answered(key, unit, &r, events));
            assert(journal.events() == start.events() + events);
        }
        r
    }
}

} // verus!
