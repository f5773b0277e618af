//! A table of instruments that many threads share.

use crate::fallback::{key_of, with_instrument, FallbackKey, FallbackTable};
use crate::journal::meters::Meters;
use crate::journal::{Event, Journal};
use crate::metrics::{CachedInstrument, FloatInstruments, InstrumentKind};
use vstd::prelude::*;
use vstd::rwlock::{ReadHandle, RwLock, RwLockPredicate, WriteHandle};

verus! {

/// What holds of a shared table whenever its lock is free: it is the one that
/// the lock was made around, whatever was added to it since, and each
/// instrument in it was made by the same meters.
pub struct MadeBy<B> {
    pub meters: Meters<B>,
    pub lineage: int,
}

impl<B: FloatInstruments> RwLockPredicate<FallbackTable<B::Value>> for MadeBy<B> {
    open spec fn inv(self, table: FallbackTable<B::Value>) -> bool {
        &&& table.wf()
        &&& table.lineage() == self.lineage
        &&& forall|key: FallbackKey| #[trigger]
            table@.contains_key(key) ==> self.meters.made(&table@[key])
    }
}

/// A table behind a lock. Readers share the lock. The table is reached through
/// [`lookup`](Self::lookup) and [`add`](Self::add) alone.
#[verifier::reject_recursive_types(B)]
pub struct SharedTable<B: FloatInstruments> {
    lock: RwLock<FallbackTable<B::Value>, MadeBy<B>>,
}

impl<B: FloatInstruments> SharedTable<B> {
    /// The meters that made the instruments.
    pub closed spec fn meters(&self) -> Meters<B> {
        self.lock.pred().meters
    }

    /// The lock was made around `table`.
    pub closed spec fn started_with(&self, table: FallbackTable<B::Value>) -> bool {
        call_ensures(
            RwLock::<FallbackTable<B::Value>, MadeBy<B>>::new,
            (table, Ghost(MadeBy { meters: self.meters(), lineage: table.lineage() })),
            self.lock,
        )
    }

    /// The lock gave `table` to a reader.
    pub closed spec fn was_read(&self, table: FallbackTable<B::Value>) -> bool {
        exists|reader: ReadHandle<'_, FallbackTable<B::Value>, MadeBy<B>>|
            {
                &&& #[trigger] call_ensures(
                    RwLock::<FallbackTable<B::Value>, MadeBy<B>>::acquire_read,
                    (&self.lock,),
                    reader,
                )
                &&& reader.view() == table
            }
    }

    /// The lock gave `before` to a writer and got `after` back.
    pub closed spec fn was_replaced(
        &self,
        before: FallbackTable<B::Value>,
        after: FallbackTable<B::Value>,
    ) -> bool {
        exists|writer: WriteHandle<'_, FallbackTable<B::Value>, MadeBy<B>>|
            {
                &&& #[trigger] call_ensures(
                    RwLock::<FallbackTable<B::Value>, MadeBy<B>>::acquire_write,
                    (&self.lock,),
                    (before, writer),
                )
                &&& call_ensures(
                    WriteHandle::<'_, FallbackTable<B::Value>, MadeBy<B>>::release_write,
                    (writer, after),
                    (),
                )
            }
    }

    /// An empty table.
    pub(crate) fn new(meters: &Meters<B>) -> (r: Self)
        ensures
            r.meters() == *meters,
            exists|table: FallbackTable<B::Value>|
                table@ == Map::<FallbackKey, CachedInstrument<B::Value>>::empty()
                    && #[trigger] r.started_with(table),
    {
        let table = FallbackTable::new();
        let ghost pred = MadeBy { meters: *meters, lineage: table.lineage() };
        let ghost empty = table;
        let r = SharedTable { lock: RwLock::new(table, Ghost(pred)) };
        assert(r.started_with(empty));
        r
    }

    /// A handle to the instrument that the table has for `scope`, `name` and
    /// `kind`.
    pub(crate) fn lookup(
        &self,
        scope: &str,
        name: &str,
        kind: InstrumentKind,
        journal: &mut Journal<B>,
    ) -> (r: Option<CachedInstrument<B::Value>>)
        ensures
            r is Some ==> self.meters().made(&r->0),
            exists|seen: FallbackTable<B::Value>|
                {
                    let key = FallbackKey { scope: scope@, name: name@, kind };
                    &&& #[trigger] self.was_read(seen)
                    &&& final(journal).extends(old(journal), seq![Event::Looked(*self, seen@)])
                    &&& match r {
                        Some(instrument) => {
                            &&& seen@.contains_key(key)
                            &&& key_of(&seen@[key]) == key
                            &&& instrument.same_instrument(&seen@[key])
                        },
                        None => !seen@.contains_key(key),
                    }
                },
    {
        let reader = self.lock.acquire_read();
        let table = reader.borrow();
        let r = table.lookup(scope, name, kind);
        let ghost key = FallbackKey { scope: scope@, name: name@, kind };
        proof {
            table.lemma_keyed();
            if r is Some {
                self.meters().lemma_made(&table@[key], &r->0);
            }
        }
        assert(self.was_read(*table));
        journal.events = Ghost(journal.events@ + seq![Event::Looked(*self, table@)]);
        reader.release_read();
        r
    }

    /// Adds `instrument` to the table, unless it has one for the same key
    /// already. Returns a handle to the one that the table has.
    pub(crate) fn add(
        &self,
        instrument: CachedInstrument<B::Value>,
        journal: &mut Journal<B>,
    ) -> (r: CachedInstrument<B::Value>)
        requires
            self.meters().made(&instrument),
        ensures
            self.meters().made(&r),
            key_of(&r) == key_of(&instrument),
            exists|before: FallbackTable<B::Value>, after: FallbackTable<B::Value>|
                {
                    &&& #[trigger] self.was_replaced(before, after)
                    &&& after@ == with_instrument(before@, instrument)
                    &&& r.same_instrument(&after@[key_of(&instrument)])
                    &&& final(journal).extends(
                        old(journal),
                        seq![Event::Replaced(*self, before@, after@)],
                    )
                },
    {
        let ghost key = key_of(&instrument);
        let (mut table, writer) = self.lock.acquire_write();
        let ghost before = table;
        let r = table.get_or_insert(instrument);
        proof {
            table.lemma_keyed();
            self.meters().lemma_made(&table@[key], &r);
        }
        let ghost after = table;
        writer.release_write(table);
        assert(self.was_replaced(before, after));
        journal.events = Ghost(journal.events@ + seq![Event::Replaced(*self, before@, after@)]);
        r
    }
}

} // verus!
