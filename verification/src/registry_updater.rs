//! Registry updates that come with the stream: events of two reserved
//! classes define new classes and the fields of classes.
use crate::event::{DataType, Event, EventView, ValueView};
use crate::event_klass::{with_field, EventKlass, FieldView, KlassView};
use crate::registry::{
    has_id, has_name, ids_distinct, klass_by_id, klass_by_name, lemma_with_klass_finds,
    place_of_id, with_klass, CoreEventKlassId, EventKlassRegistry,
};
use vstd::prelude::*;

verus! {

/// Why an event did not update the registry.
#[derive(Copy, Clone, PartialEq, Eq, Debug, Structural)]
pub enum UpdateFailure {
    /// The event is of neither of the two classes that update a registry.
    NotAnUpdate,
    /// The event has no `info_klass_id` of 32 bits.
    KlassId,
    /// The event has no text `event_klass_name`.
    KlassName,
    /// The event has no text `field_name`.
    FieldName,
    /// The event has no text `field_type`.
    FieldType,
    /// The event has no `data_type` of 8 bits.
    FieldDataType,
    /// The event declares an integer and has no `size` of 64 bits.
    FieldSize,
    /// The event declares an integer of a size other than 1, 4 or 8 bytes.
    IntegerSize,
    /// The event's `data_type` is none of the known codes.
    DataTypeCode,
    /// The event declares a field of a class that is not registered.
    MissingKlass,
}

impl UpdateFailure {
    /// The failure in words.
    pub open spec fn spec_message(self) -> Seq<char> {
        match self {
            UpdateFailure::NotAnUpdate => "Klass id is neither KlassInfo nor FieldInfo"@,
            UpdateFailure::KlassId => "Cannot read klass id"@,
            UpdateFailure::KlassName => "Cannot read klass name"@,
            UpdateFailure::FieldName => "Cannot read field name"@,
            UpdateFailure::FieldType => "Cannot read field type"@,
            UpdateFailure::FieldDataType => "Cannot read field data type"@,
            UpdateFailure::FieldSize => "Cannot read field size"@,
            UpdateFailure::IntegerSize => "Invalid size of integer type"@,
            UpdateFailure::DataTypeCode => "Invalid data type"@,
            UpdateFailure::MissingKlass => "Cannot find klass"@,
        }
    }

    /// The failure in words.
    pub fn message(self) -> (message: &'static str)
        ensures
            message@ == self.spec_message(),
    {
        match self {
            UpdateFailure::NotAnUpdate => "Klass id is neither KlassInfo nor FieldInfo",
            UpdateFailure::KlassId => "Cannot read klass id",
            UpdateFailure::KlassName => "Cannot read klass name",
            UpdateFailure::FieldName => "Cannot read field name",
            UpdateFailure::FieldType => "Cannot read field type",
            UpdateFailure::FieldDataType => "Cannot read field data type",
            UpdateFailure::FieldSize => "Cannot read field size",
            UpdateFailure::IntegerSize => "Invalid size of integer type",
            UpdateFailure::DataTypeCode => "Invalid data type",
            UpdateFailure::MissingKlass => "Cannot find klass",
        }
    }
}

/// The 8-bit integer that the record holds under the name.
pub open spec fn u8_of(values: Map<Seq<char>, ValueView>, name: Seq<char>) -> Option<u8> {
    if values.contains_key(name) && values[name] is U8 {
        Some(values[name]->U8_0)
    } else {
        None
    }
}

/// The 32-bit integer that the record holds under the name.
pub open spec fn u32_of(values: Map<Seq<char>, ValueView>, name: Seq<char>) -> Option<u32> {
    if values.contains_key(name) && values[name] is U32 {
        Some(values[name]->U32_0)
    } else {
        None
    }
}

/// The 64-bit integer that the record holds under the name.
pub open spec fn u64_of(values: Map<Seq<char>, ValueView>, name: Seq<char>) -> Option<u64> {
    if values.contains_key(name) && values[name] is U64 {
        Some(values[name]->U64_0)
    } else {
        None
    }
}

/// The text that the record holds under the name.
pub open spec fn text_of(values: Map<Seq<char>, ValueView>, name: Seq<char>) -> Option<Seq<char>> {
    if values.contains_key(name) && values[name] is Str {
        Some(values[name]->Str_0)
    } else {
        None
    }
}

/// The kind of field that a `data_type` code stands for.  Code 99 is an
/// integer of `size` bytes; code 6 is a pointer, which takes eight bytes
/// whatever `size` says.
pub open spec fn field_kind(code: u8, size: Option<u64>) -> Result<DataType, UpdateFailure> {
    if code == 1 {
        Ok(DataType::Struct)
    } else if code == 2 {
        Ok(DataType::Str)
    } else if code == 6 {
        Ok(DataType::U64)
    } else if code == 99 {
        match size {
            Some(1) => Ok(DataType::U8),
            Some(4) => Ok(DataType::U32),
            Some(8) => Ok(DataType::U64),
            Some(_) => Err(UpdateFailure::IntegerSize),
            None => Err(UpdateFailure::FieldSize),
        }
    } else {
        Err(UpdateFailure::DataTypeCode)
    }
}

/// The classes after an event that defines a class.  The event must name
/// the class's id and name.  A reserved id is defined in vain, and so is an
/// id that is taken.
pub open spec fn klass_defined(klasses: Seq<KlassView>, values: Map<Seq<char>, ValueView>) -> Result<
    Seq<KlassView>,
    UpdateFailure,
> {
    match (u32_of(values, "info_klass_id"@), text_of(values, "event_klass_name"@)) {
        (None, _) => Err(UpdateFailure::KlassId),
        (Some(_), None) => Err(UpdateFailure::KlassName),
        (Some(id), Some(name)) => if CoreEventKlassId::spec_is_core_klass(id) {
            Ok(klasses)
        } else {
            Ok(with_klass(klasses, KlassView { id, name, fields: Seq::empty() }))
        },
    }
}

/// The classes after an event that defines a field.  The event must name
/// the class's id, the field's name, the name of its type and the code of
/// its kind, and its size where the code asks for one.  A field of a
/// reserved class is defined in vain.  Otherwise the code must stand for a
/// kind, and the class must be registered.
pub open spec fn field_defined(klasses: Seq<KlassView>, values: Map<Seq<char>, ValueView>) -> Result<
    Seq<KlassView>,
    UpdateFailure,
> {
    let id = u32_of(values, "info_klass_id"@);
    let name = text_of(values, "field_name"@);
    let declared_type = text_of(values, "field_type"@);
    let code = u8_of(values, "data_type"@);
    let size = u64_of(values, "size"@);
    if id is None {
        Err(UpdateFailure::KlassId)
    } else if name is None {
        Err(UpdateFailure::FieldName)
    } else if declared_type is None {
        Err(UpdateFailure::FieldType)
    } else if code is None {
        Err(UpdateFailure::FieldDataType)
    } else if code == Some(99u8) && size is None {
        Err(UpdateFailure::FieldSize)
    } else if CoreEventKlassId::spec_is_core_klass(id->0) {
        Ok(klasses)
    } else {
        match field_kind(code->0, size) {
            Err(failure) => Err(failure),
            Ok(data_type) => if has_id(klasses, id->0) {
                let place = place_of_id(klasses, id->0);
                let field = FieldView { name: name->0, declared_type: declared_type->0, data_type };
                Ok(
                    klasses.update(
                        place,
                        KlassView { fields: with_field(klasses[place].fields, field), ..klasses[place] },
                    ),
                )
            } else {
                Err(UpdateFailure::MissingKlass)
            },
        }
    }
}

/// The classes after an event was applied to them.
pub open spec fn updated(klasses: Seq<KlassView>, event: EventView) -> Result<
    Seq<KlassView>,
    UpdateFailure,
> {
    if event.klass_id == CoreEventKlassId::KlassInfo.spec_id() {
        klass_defined(klasses, event.values)
    } else if event.klass_id == CoreEventKlassId::FieldInfo.spec_id() {
        field_defined(klasses, event.values)
    } else {
        Err(UpdateFailure::NotAnUpdate)
    }
}

/// Whether `result` and `after` are what remains of applying the event to
/// `before`: the updated classes, or the failure in words and the classes
/// as they were.
pub open spec fn applied(
    before: Seq<KlassView>,
    event: EventView,
    after: Seq<KlassView>,
    result: Result<(), &'static str>,
) -> bool {
    match updated(before, event) {
        Ok(klasses) => result is Ok && after == klasses,
        Err(failure) => result is Err && result->Err_0@ == failure.spec_message() && after
            == before,
    }
}

/// An event that defines a class fails if and only if it does not name
/// the class's id and name.
pub proof fn lemma_klass_defined_unless_unnamed(
    klasses: Seq<KlassView>,
    values: Map<Seq<char>, ValueView>,
)
    ensures
        klass_defined(klasses, values) is Err <==> u32_of(values, "info_klass_id"@) is None
            || text_of(values, "event_klass_name"@) is None,
{
}

/// An event that defines a class under an id that is free and not reserved
/// registers a class without fields, which is then found under its id, and
/// under its name unless an earlier class has that name.
pub proof fn lemma_klass_defined_is_found(
    klasses: Seq<KlassView>,
    values: Map<Seq<char>, ValueView>,
    id: u32,
    name: Seq<char>,
)
    requires
        u32_of(values, "info_klass_id"@) == Some(id),
        text_of(values, "event_klass_name"@) == Some(name),
        !CoreEventKlassId::spec_is_core_klass(id),
        !has_id(klasses, id),
    ensures
        klass_defined(klasses, values) is Ok,
        ({
            let after = klass_defined(klasses, values)->Ok_0;
            let klass = KlassView { id, name, fields: Seq::empty() };
            &&& klass_by_id(after, id) == Some(klass)
            &&& klass_by_name(after, name) is Some
            &&& klass_by_name(after, name)->0.name == name
            &&& !has_name(klasses, name) ==> klass_by_name(after, name) == Some(klass)
        }),
{
    lemma_with_klass_finds(klasses, KlassView { id, name, fields: Seq::empty() });
}

/// An event that defines a reserved class, or a field of one, changes
/// nothing, as long as it holds what such an event must hold.
pub proof fn lemma_reserved_klass_is_kept(klasses: Seq<KlassView>, event: EventView, id: u32)
    requires
        event.klass_id == CoreEventKlassId::KlassInfo.spec_id() || event.klass_id
            == CoreEventKlassId::FieldInfo.spec_id(),
        u32_of(event.values, "info_klass_id"@) == Some(id),
        CoreEventKlassId::spec_is_core_klass(id),
        event.klass_id == CoreEventKlassId::KlassInfo.spec_id() ==> text_of(
            event.values,
            "event_klass_name"@,
        ) is Some,
        event.klass_id == CoreEventKlassId::FieldInfo.spec_id() ==> {
            &&& text_of(event.values, "field_name"@) is Some
            &&& text_of(event.values, "field_type"@) is Some
            &&& u8_of(event.values, "data_type"@) is Some
            &&& u8_of(event.values, "data_type"@) == Some(99u8) ==> u64_of(
                event.values,
                "size"@,
            ) is Some
        },
    ensures
        updated(klasses, event) == Ok::<Seq<KlassView>, UpdateFailure>(klasses),
{
}

/// A pointer field is of 64 bits whatever its size, and an integer field is
/// of 8, 32 or 64 bits as its size is 1, 4 or 8 bytes, and of no other size.
pub proof fn lemma_field_kinds(size: Option<u64>)
    ensures
        field_kind(6, size) == Ok::<DataType, UpdateFailure>(DataType::U64),
        field_kind(99, size) is Ok <==> size == Some(1u64) || size == Some(4u64) || size == Some(
            8u64,
        ),
        field_kind(99, Some(1)) == Ok::<DataType, UpdateFailure>(DataType::U8),
        field_kind(99, Some(4)) == Ok::<DataType, UpdateFailure>(DataType::U32),
        field_kind(99, Some(8)) == Ok::<DataType, UpdateFailure>(DataType::U64),
{
}

/// An event that defines a field succeeds only for a reserved class or for
/// a class that is registered.
pub proof fn lemma_field_needs_klass(klasses: Seq<KlassView>, values: Map<Seq<char>, ValueView>)
    requires
        field_defined(klasses, values) is Ok,
    ensures
        u32_of(values, "info_klass_id"@) is Some,
        CoreEventKlassId::spec_is_core_klass(u32_of(values, "info_klass_id"@)->0) || has_id(
            klasses,
            u32_of(values, "info_klass_id"@)->0,
        ),
{
}

/// An update only ever adds: the classes stay as many or become one more,
/// and every class keeps its place, its id, its name and the fields it had,
/// in their order.  A reserved class stays as it is.  Ids that were
/// distinct stay distinct.
pub proof fn lemma_update_grows(klasses: Seq<KlassView>, event: EventView)
    requires
        updated(klasses, event) is Ok,
    ensures
        ({
            let after = updated(klasses, event)->Ok_0;
            &&& klasses.len() <= after.len() <= klasses.len() + 1
            &&& forall|i: int|
                0 <= i < klasses.len() ==> {
                    &&& (#[trigger] after[i]).id == klasses[i].id
                    &&& after[i].name == klasses[i].name
                    &&& klasses[i].fields.len() <= after[i].fields.len()
                    &&& after[i].fields.take(klasses[i].fields.len() as int) == klasses[i].fields
                    &&& CoreEventKlassId::spec_is_core_klass(klasses[i].id) ==> after[i]
                        == klasses[i]
                }
            &&& ids_distinct(klasses) ==> ids_distinct(after)
        }),
{
}

/// Applies events to a registry.
pub struct RegistryUpdater<'a> {
    pub registry: &'a mut EventKlassRegistry,
}

impl<'a> RegistryUpdater<'a> {
    /// An updater of the registry.
    pub fn new(registry: &'a mut EventKlassRegistry) -> (updater: RegistryUpdater<'a>)
        ensures
            *updater.registry == *old(registry),
            *final(updater.registry) == *final(registry),
    {
        RegistryUpdater { registry }
    }

    /// Applies one event of class `KlassInfo` or `FieldInfo` to the
    /// registry.  On a failure the registry stays as it was.
    pub fn update_registry_from_event(&mut self, event: &Event) -> (result: Result<
        (),
        &'static str,
    >)
        requires
            old(self).registry.wf(),
        ensures
            final(self).registry.wf(),
            *final(final(self).registry) == *final(old(self).registry),
            applied(old(self).registry@, event@, final(self).registry@, result),
    {
        let klass_id = event.get_klass_id();
        if klass_id == CoreEventKlassId::KlassInfo.id() {
            self.add_new_klass(event)
        } else if klass_id == CoreEventKlassId::FieldInfo.id() {
            self.add_klass_field(event)
        } else {
            Err(UpdateFailure::NotAnUpdate.message())
        }
    }

    /// Applies an event that defines a class.
    fn add_new_klass(&mut self, event: &Event) -> (result: Result<(), &'static str>)
        requires
            old(self).registry.wf(),
        ensures
            final(self).registry.wf(),
            *final(final(self).registry) == *final(old(self).registry),
            match klass_defined(old(self).registry@, event@.values) {
                Ok(klasses) => result is Ok && final(self).registry@ == klasses,
                Err(failure) => result is Err && result->Err_0@ == failure.spec_message()
                    && final(self).registry@ == old(self).registry@,
            },
    {
        let klass_id = match event.get_value_u32("info_klass_id") {
            Ok(value) => value,
            Err(_) => return Err(UpdateFailure::KlassId.message()),
        };

        let klass_name = match event.get_value_string("event_klass_name") {
            Ok(value) => value.clone(),
            Err(_) => return Err(UpdateFailure::KlassName.message()),
        };

        if CoreEventKlassId::is_core_klass(klass_id) {
            return Ok(());
        }

        self.registry.add_klass(EventKlass::new(klass_id, klass_name));
        Ok(())
    }

    /// Applies an event that defines a field of a class.
    fn add_klass_field(&mut self, event: &Event) -> (result: Result<(), &'static str>)
        requires
            old(self).registry.wf(),
        ensures
            final(self).registry.wf(),
            *final(final(self).registry) == *final(old(self).registry),
            match field_defined(old(self).registry@, event@.values) {
                Ok(klasses) => result is Ok && final(self).registry@ == klasses,
                Err(failure) => result is Err && result->Err_0@ == failure.spec_message()
                    && final(self).registry@ == old(self).registry@,
            },
    {
        let klass_id = match event.get_value_u32("info_klass_id") {
            Ok(value) => value,
            Err(_) => return Err(UpdateFailure::KlassId.message()),
        };

        let field_name = match event.get_value_string("field_name") {
            Ok(value) => value.clone(),
            Err(_) => return Err(UpdateFailure::FieldName.message()),
        };

        let declared_type = match event.get_value_string("field_type") {
            Ok(value) => value.clone(),
            Err(_) => return Err(UpdateFailure::FieldType.message()),
        };

        let code = match event.get_value_u8("data_type") {
            Ok(value) => value,
            Err(_) => return Err(UpdateFailure::FieldDataType.message()),
        };

        let size = if code == 99 {
            match event.get_value_u64("size") {
                Ok(size) => Some(size),
                Err(_) => return Err(UpdateFailure::FieldSize.message()),
            }
        } else {
            None
        };

        if CoreEventKlassId::is_core_klass(klass_id) {
            return Ok(());
        }

        let data_type = match code {
            1 => DataType::Struct,
            2 => DataType::Str,
            6 => DataType::U64,
            99 => match size {
                Some(1) => DataType::U8,
                Some(4) => DataType::U32,
                Some(8) => DataType::U64,
                _ => return Err(UpdateFailure::IntegerSize.message()),
            },
            _ => return Err(UpdateFailure::DataTypeCode.message()),
        };

        match self.registry.get_klass_by_id_mut(klass_id) {
            Some(klass) => {
                klass.add_field(field_name, declared_type, data_type);
                Ok(())
            },
            None => Err(UpdateFailure::MissingKlass.message()),
        }
    }
}

} // verus!
