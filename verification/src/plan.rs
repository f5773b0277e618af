//! How the fields of an entry are recorded, worked out once from the entry's
//! descriptors.

use crate::journal::{asked, Journal, Request};
use crate::metrics::{
    otel_unit, CachedInstrument, FloatInstruments, InstrumentBuilder, InstrumentKind,
};
use crate::observation::kept;
use crate::outside::{
    declared_unit, descriptor_fields, entry_name, field_flag_types, field_name_parts, field_style,
    field_views, flag_types, leaked, name_parts, name_style, same_type, tag_type, tag_types,
    NAME_STYLES,
};
use metrique_writer_core::descriptor::{DescriptorRef, EntryDescriptor, FieldView};
use metrique_writer_core::unit::Unit;
use std::any::TypeId;
use vstd::hash_map::StringHashMap;
use vstd::prelude::*;
use vstd::string::StringExecFns;

verus! {

/// One field's instrument. Its kind is that of the instrument.
#[verifier::reject_recursive_types(V)]
pub struct FieldInstrument<V> {
    pub instrument: CachedInstrument<V>,
}

impl<V: Copy> Clone for FieldInstrument<V> {
    fn clone(&self) -> (r: Self)
        ensures
            r.instrument.same_instrument(&self.instrument),
    {
        FieldInstrument { instrument: self.instrument.clone() }
    }
}

/// What a plan needs to know of a field: its full name, the types of its flags
/// and the unit that it declares.
pub struct FieldDescription {
    pub name: String,
    pub tags: Vec<TypeId>,
    pub unit: Option<Unit>,
}

/// The view of a [`FieldDescription`].
pub ghost struct FieldModel {
    pub name: Seq<char>,
    pub tags: Seq<TypeId>,
    pub unit: Option<Unit>,
}

impl View for FieldDescription {
    type V = FieldModel;

    open spec fn view(&self) -> FieldModel {
        FieldModel { name: self.name@, tags: self.tags@, unit: self.unit }
    }
}

/// How the instrument of a tagged field is to be made.
pub ghost struct Declaration {
    pub kind: InstrumentKind,
    pub unit: Seq<char>,
}

/// The kind that a flag type is the tag of.
pub open spec fn tagged_kind(tag: TypeId) -> Option<InstrumentKind> {
    if tag == tag_type(InstrumentKind::Counter) {
        Some(InstrumentKind::Counter)
    } else if tag == tag_type(InstrumentKind::UpDownCounter) {
        Some(InstrumentKind::UpDownCounter)
    } else if tag == tag_type(InstrumentKind::Histogram) {
        Some(InstrumentKind::Histogram)
    } else if tag == tag_type(InstrumentKind::Gauge) {
        Some(InstrumentKind::Gauge)
    } else {
        None
    }
}

/// Each kind of instrument has a tag of its own.
pub open spec fn tags_tell_kinds_apart() -> bool {
    forall|kind: InstrumentKind| tagged_kind(#[trigger] tag_type(kind)) == Some(kind)
}

/// The kind of the first of `tags` that is the tag of a kind.
pub open spec fn first_kind(tags: Seq<TypeId>) -> Option<InstrumentKind>
    decreases tags.len(),
{
    if tags.len() == 0 {
        None
    } else {
        match tagged_kind(tags[0]) {
            Some(kind) => Some(kind),
            None => first_kind(tags.skip(1)),
        }
    }
}

/// `parts`, one after another.
pub open spec fn joined<A>(parts: Seq<Seq<A>>) -> Seq<A>
    decreases parts.len(),
{
    if parts.len() == 0 {
        Seq::empty()
    } else {
        joined(parts.drop_last()) + parts.last()
    }
}

impl FieldModel {
    pub open spec fn kind(self) -> Option<InstrumentKind> {
        first_kind(self.tags)
    }

    /// The unit on the wire: that of a field that declares none is `1`.
    pub open spec fn otel_unit(self) -> Seq<char> {
        match self.unit {
            Some(unit) => otel_unit(unit),
            None => otel_unit(Unit::None),
        }
    }
}

/// The instruments that `fields` declare, by name. Of two tagged fields of one
/// name the later counts.
pub open spec fn declared(fields: Seq<FieldModel>) -> Map<Seq<char>, Declaration>
    decreases fields.len(),
{
    if fields.len() == 0 {
        Map::empty()
    } else {
        let field = fields.last();
        match field.kind() {
            Some(kind) => declared(fields.drop_last()).insert(
                field.name,
                Declaration { kind, unit: field.otel_unit() },
            ),
            None => declared(fields.drop_last()),
        }
    }
}

/// The names of the fields without a tag, in order.
pub open spec fn untagged(fields: Seq<FieldModel>) -> Seq<Seq<char>>
    decreases fields.len(),
{
    if fields.len() == 0 {
        Seq::empty()
    } else if fields.last().kind() is None {
        untagged(fields.drop_last()).push(fields.last().name)
    } else {
        untagged(fields.drop_last())
    }
}

/// What a meter provider is asked for, for `fields`: the instrument of each
/// tagged field, in order.
pub open spec fn requests(scope: Seq<char>, fields: Seq<FieldModel>) -> Seq<Request> {
    kept(
        fields,
        |field: FieldModel|
            match field.kind() {
                Some(kind) => Some(
                    Request { scope, name: field.name, kind, unit: field.otel_unit() },
                ),
                None => None,
            },
    )
}

/// What a field view says.
pub open spec fn field_model(field: FieldView<'_>) -> FieldModel {
    FieldModel {
        name: joined(name_parts(field)),
        tags: flag_types(field),
        unit: declared_unit(field),
    }
}

/// Every field of a descriptor has a name.
pub open spec fn is_named(descriptor: DescriptorRef<'_>) -> bool {
    field_views(descriptor).len() > 0 ==> name_style(descriptor) < NAME_STYLES
}

/// What a descriptor says of its fields.
pub open spec fn segment_fields(descriptor: DescriptorRef<'_>) -> Seq<FieldModel> {
    let views = field_views(descriptor);
    Seq::new(views.len(), |i: int| field_model(views[i]))
}

/// What descriptors say of their fields, one descriptor after another.
pub open spec fn all_fields(segments: Seq<DescriptorRef<'_>>) -> Seq<FieldModel>
    decreases segments.len(),
{
    if segments.len() == 0 {
        Seq::empty()
    } else {
        all_fields(segments.drop_last()) + segment_fields(segments.last())
    }
}

/// The meter scope of an entry: named after its first segment.
pub open spec fn entry_scope(segments: Seq<DescriptorRef<'_>>) -> Seq<char> {
    if segments.len() == 0 {
        "metrique-otel"@
    } else {
        "metrique/"@ + entry_name(segments[0])
    }
}

/// The kind of instrument for a field with these flags.
pub fn kind_of_tags(tags: &Vec<TypeId>) -> (r: Option<InstrumentKind>)
    ensures
        r == first_kind(tags@),
        tags_tell_kinds_apart(),
{
    let known = tag_types();
    assert(tags@.skip(0) == tags@);
    for i in 0..tags.len()
        invariant
            first_kind(tags@) == first_kind(tags@.skip(i as int)),
            tags_tell_kinds_apart(),
            known.counter == tag_type(InstrumentKind::Counter),
            known.up_down_counter == tag_type(InstrumentKind::UpDownCounter),
            known.histogram == tag_type(InstrumentKind::Histogram),
            known.gauge == tag_type(InstrumentKind::Gauge),
    {
        let tag = &tags[i];
        assert(tags@.skip(i as int)[0] == *tag);
        assert(tags@.skip(i as int).skip(1) == tags@.skip(i + 1));
        if same_type(tag, &known.counter) {
            return Some(InstrumentKind::Counter);
        } else if same_type(tag, &known.up_down_counter) {
            return Some(InstrumentKind::UpDownCounter);
        } else if same_type(tag, &known.histogram) {
            return Some(InstrumentKind::Histogram);
        } else if same_type(tag, &known.gauge) {
            return Some(InstrumentKind::Gauge);
        }
    }
    None
}

/// The kind of instrument for a field of a descriptor.
pub fn resolve_kind(field: &FieldView<'_>) -> (r: Option<InstrumentKind>)
    ensures
        r == first_kind(flag_types(*field)),
        tags_tell_kinds_apart(),
{
    kind_of_tags(&field_flag_types(field))
}

/// The full name of a field from its parts.
pub fn full_name(parts: &Vec<String>) -> (r: String)
    ensures
        r@ == joined(parts@.map_values(|part: String| part@)),
{
    let ghost views = parts@.map_values(|part: String| part@);
    let mut full = String::new();
    for i in 0..parts.len()
        invariant
            views == parts@.map_values(|part: String| part@),
            full@ == joined(views.take(i as int)),
    {
        assert(views.take(i + 1).drop_last() == views.take(i as int));
        full.append(parts[i].as_str());
    }
    assert(views.take(parts.len() as int) == views);
    full
}

/// Reads a field of a descriptor.
pub fn describe(field: &FieldView<'_>) -> (r: FieldDescription)
    requires
        field_style(*field) < NAME_STYLES,
    ensures
        r@ == field_model(*field),
{
    FieldDescription {
        name: full_name(&field_name_parts(field)),
        tags: field_flag_types(field),
        unit: field.unit(),
    }
}

/// Reads the fields of a descriptor.
pub fn describe_fields(descriptor: &DescriptorRef<'_>) -> (r: Vec<FieldDescription>)
    requires
        is_named(*descriptor),
    ensures
        r@.map_values(|field: FieldDescription| field@) == segment_fields(*descriptor),
{
    let views = descriptor_fields(descriptor);
    let mut fields: Vec<FieldDescription> = Vec::new();
    for i in 0..views.len()
        invariant
            is_named(*descriptor),
            views@ == field_views(*descriptor),
            forall|j: int|
                0 <= j < views.len() ==> field_style(#[trigger] views@[j]) == name_style(
                    *descriptor,
                ),
            fields@.map_values(|field: FieldDescription| field@) == segment_fields(
                *descriptor,
            ).take(i as int),
    {
        let field = describe(&views[i]);
        let ghost before = fields@;
        fields.push(field);
        assert(fields@.map_values(|field: FieldDescription| field@) == before.map_values(
            |field: FieldDescription| field@,
        ).push(field@));
    }
    assert(segment_fields(*descriptor).take(views.len() as int) == segment_fields(*descriptor));
    fields
}

/// `segments` are made of `descriptors` with their name styles, one for one.
pub open spec fn made_from(
    descriptors: Seq<(&'static EntryDescriptor, u8)>,
    segments: Seq<DescriptorRef<'static>>,
) -> bool {
    &&& segments.len() == descriptors.len()
    &&& forall|i: int|
        0 <= i < segments.len() ==> call_ensures(
            DescriptorRef::from_static,
            descriptors[i],
            #[trigger] segments[i],
        )
}

/// How the fields of one entry shape are recorded: an instrument for each
/// tagged field, by the name under which the field is written.
///
/// A field that has none here is classified when it is written.
#[verifier::reject_recursive_types(V)]
pub struct EntryPlan<V> {
    pub scope: &'static str,
    pub fields: StringHashMap<FieldInstrument<V>>,
    /// The names of the fields that came with a descriptor but without a tag.
    pub unclassified: Vec<String>,
}

impl<V> EntryPlan<V> {
    /// The plan has what `fields` declare, in `scope`, and nothing else.
    pub open spec fn realizes<B: FloatInstruments<Value = V>>(
        &self,
        builder: &InstrumentBuilder<B>,
        scope: Seq<char>,
        fields: Seq<FieldModel>,
    ) -> bool {
        &&& self.scope@ == scope
        &&& self.unclassified@.map_values(|name: String| name@) == untagged(fields)
        &&& self.fields@.dom() == declared(fields).dom()
        &&& forall|name: Seq<char>| #[trigger]
            self.fields@.contains_key(name) ==> {
                let instrument = self.fields@[name].instrument;
                &&& instrument.kind() == declared(fields)[name].kind
                &&& instrument.unit() == declared(fields)[name].unit
                &&& instrument.scope() == scope
                &&& instrument.name() == name
                &&& builder.made(&instrument)
            }
    }

    /// The plan of an entry without descriptors: it resolves no field.
    pub fn fallback() -> (r: Self)
        ensures
            r.scope@ == "metrique-otel"@,
            r.fields@ == Map::<Seq<char>, FieldInstrument<V>>::empty(),
            r.unclassified@ == Seq::<String>::empty(),
    {
        EntryPlan {
            scope: "metrique-otel",
            fields: StringHashMap::new(),
            unclassified: Vec::new(),
        }
    }

    /// The plan of an entry from the descriptors of its segments. A descriptor
    /// with fields has to name them in one of the name styles.
    pub fn from_descriptors<B: FloatInstruments<Value = V>>(
        segments: &[DescriptorRef<'_>],
        builder: &InstrumentBuilder<B>,
        journal: &mut Journal<B>,
    ) -> (r: Self)
        requires
            forall|s: int| 0 <= s < segments@.len() ==> is_named(#[trigger] segments@[s]),
        ensures
            r.realizes(builder, entry_scope(segments@), all_fields(segments@)),
            all_fields(segments@).len() > 0 ==> tags_tell_kinds_apart(),
            final(journal).extends(
                old(journal),
                asked(
                    builder.meter_provider(),
                    requests(entry_scope(segments@), all_fields(segments@)),
                ),
            ),
    {
        let scope: &'static str = if segments.len() == 0 {
            "metrique-otel"
        } else {
            let mut name = "metrique/".to_owned();
            name.append(segments[0].name());
            leaked(name)
        };
        let mut fields: Vec<FieldDescription> = Vec::new();
        for s in 0..segments.len()
            invariant
                forall|s: int| 0 <= s < segments@.len() ==> is_named(#[trigger] segments@[s]),
                fields@.map_values(|field: FieldDescription| field@) == all_fields(
                    segments@.take(s as int),
                ),
        {
            let ghost before = fields@;
            let mut more = describe_fields(&segments[s]);
            let ghost here = more@;
            fields.append(&mut more);
            assert((before + here).map_values(|field: FieldDescription| field@)
                == before.map_values(|field: FieldDescription| field@) + here.map_values(
                |field: FieldDescription| field@,
            ));
            assert(segments@.take(s + 1).drop_last() == segments@.take(s as int));
        }
        assert(segments@.take(segments@.len() as int) == segments@);
        Self::from_fields(scope, &fields, builder, journal)
    }

    /// The plan of an entry from static descriptors, each with the index of the
    /// name style that its fields are named in; `None` where there is no style
    /// of some index.
    pub fn from_static<B: FloatInstruments<Value = V>>(
        descriptors: &Vec<(&'static EntryDescriptor, u8)>,
        builder: &InstrumentBuilder<B>,
        journal: &mut Journal<B>,
    ) -> (r: Option<Self>)
        ensures
            r is Some <==> forall|i: int|
                0 <= i < descriptors@.len() ==> (#[trigger] descriptors@[i]).1 < NAME_STYLES,
            r is None ==> *final(journal) == *old(journal),
            r is Some ==> exists|segments: Seq<DescriptorRef<'static>>|
                {
                    &&& #[trigger] made_from(descriptors@, segments)
                    &&& r->0.realizes(builder, entry_scope(segments), all_fields(segments))
                    &&& all_fields(segments).len() > 0 ==> tags_tell_kinds_apart()
                    &&& final(journal).extends(
                        old(journal),
                        asked(
                            builder.meter_provider(),
                            requests(entry_scope(segments), all_fields(segments)),
                        ),
                    )
                },
    {
        let mut segments: Vec<DescriptorRef<'static>> = Vec::new();
        for i in 0..descriptors.len()
            invariant
                made_from(descriptors@.take(i as int), segments@),
                forall|s: int|
                    0 <= s < segments.len() ==> name_style(#[trigger] segments@[s]) < NAME_STYLES,
                forall|j: int| 0 <= j < i ==> (#[trigger] descriptors@[j]).1 < NAME_STYLES,
        {
            let (descriptor, style_index) = descriptors[i];
            if style_index >= NAME_STYLES {
                return None;
            }
            segments.push(DescriptorRef::from_static(descriptor, style_index));
        }
        assert(descriptors@.take(descriptors@.len() as int) == descriptors@);
        Some(Self::from_descriptors(segments.as_slice(), builder, journal))
    }

    /// The plan of an entry with these fields, for the meter of `scope`.
    pub fn from_fields<B: FloatInstruments<Value = V>>(
        scope: &'static str,
        fields: &Vec<FieldDescription>,
        builder: &InstrumentBuilder<B>,
        journal: &mut Journal<B>,
    ) -> (r: Self)
        ensures
            r.realizes(
                builder,
                scope@,
                fields@.map_values(|field: FieldDescription| field@),
            ),
            fields@.len() > 0 ==> tags_tell_kinds_apart(),
            final(journal).extends(
                old(journal),
                asked(
                    builder.meter_provider(),
                    requests(scope@, fields@.map_values(|field: FieldDescription| field@)),
                ),
            ),
    {
        let ghost before = *journal;
        let ghost models = fields@.map_values(|field: FieldDescription| field@);
        let mut plan = EntryPlan {
            scope,
            fields: StringHashMap::new(),
            unclassified: Vec::new(),
        };
        assert(plan.unclassified@.map_values(|name: String| name@) == untagged(models.take(0)));
        assert(plan.fields@.dom() == declared(models.take(0)).dom());
        for i in 0..fields.len()
            invariant
                models == fields@.map_values(|field: FieldDescription| field@),
                plan.realizes(builder, scope@, models.take(i as int)),
                i > 0 ==> tags_tell_kinds_apart(),
                journal.extends(
                    &before,
                    asked(builder.meter_provider(), requests(scope@, models.take(i as int))),
                ),
        {
            let field = &fields[i];
            assert(models.take(i + 1).drop_last() == models.take(i as int));
            assert(models.take(i + 1).last() == field@);
            match kind_of_tags(&field.tags) {
                Some(kind) => {
                    let unit = field.unit.unwrap_or(Unit::None);
                    let instrument = builder.build(
                        scope,
                        field.name.as_str(),
                        kind,
                        unit,
                        journal,
                    );
                    assert(journal.events() == before.events() + asked(
                        builder.meter_provider(),
                        requests(scope@, models.take(i + 1)),
                    ));
                    plan.fields.insert(field.name.clone(), FieldInstrument { instrument });
                    assert(plan.fields@.dom() == declared(models.take(i + 1)).dom());
                },
                None => {
                    let ghost names = plan.unclassified@;
                    plan.unclassified.push(field.name.clone());
                    assert(plan.unclassified@.map_values(|name: String| name@)
                        == names.map_values(|name: String| name@).push(field@.name));
                },
            }
        }
        assert(models.take(fields.len() as int) == models);
        plan
    }
}

} // verus!
