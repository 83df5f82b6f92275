//! The struct decoder: decodes the fields of a class, in declared order,
//! from the bytes of a data provider.
use crate::data_provider::{ran_out, ByteSource, DataError, DataProvider};
use crate::event::{DataType, Event, EventView, Record, Value};
use crate::event_klass::{EventKlass, EventKlassField};
use crate::integers::{
    i16_from_le, i32_from_le, i64_from_le, i8_from_le, u16_from_le, u32_from_le, u64_from_le,
    u8_from_le,
};
use crate::registry::EventKlassRegistry;
use crate::text::same_text;
use crate::wire::{
    course, course_of_field, decode_event, decode_field, decode_fields, decode_string,
    holds_fields, lemma_decoded_field_passes, lemma_decoded_holds_fields, readable, Course,
    Decoded, Failure,
};
use vstd::prelude::*;

verus! {

/// Why no event was read.
#[derive(Debug, PartialEq)]
pub enum ReadEventError {
    /// The bytes of the stream could not be read.
    DataError(DataError),
    /// A struct field is of a class, named here, that is not registered.
    UnknownKlass(String),
    /// The header names a class id that is not registered.
    UnknownKlassId(u32),
    /// The event was read, and could not be applied to the registry.
    RegistryUpdateFailed(String),
}

/// Whether `error` is what the decoder reports of the failure, on a source
/// that ends cleanly or with the failure `ending`.
pub open spec fn reports(failure: Failure, ending: Option<Seq<char>>, error: ReadEventError) -> bool {
    match failure {
        Failure::Truncated => error is DataError && ran_out(ending, error->DataError_0),
        Failure::BadText => error == ReadEventError::DataError(DataError::Utf8Error),
        Failure::UnknownKlass(name) => error is UnknownKlass && error->UnknownKlass_0@ == name,
        Failure::NoBase => false,
        Failure::TooDeep => false,
    }
}

/// The model of a header that is there or not.
pub open spec fn base_view(base: Option<Event>) -> Option<EventView> {
    match base {
        Some(event) => Some(event@),
        None => None,
    }
}

/// What becomes of the header while the field is decoded, with structs
/// followed `depth` levels deep.
pub fn course_of_one(
    registry: &EventKlassRegistry,
    field: &EventKlassField,
    has_base: bool,
    depth: usize,
) -> (result: Course)
    ensures
        result == course_of_field(registry@, field@, has_base, depth as nat),
    decreases depth, 0nat,
{
    match *field.get_data_type() {
        DataType::Struct => {},
        _ => {
            return Course::Passes { base_left: has_base };
        },
    }
    if same_text(field.get_type_name().as_str(), "HT_Event") && same_text(
        field.get_name().as_str(),
        "base",
    ) {
        if has_base {
            Course::Passes { base_left: false }
        } else {
            Course::Unsound
        }
    } else if let Some(klass) = registry.get_klass_by_name(field.get_type_name().as_str()) {
        if depth == 0 {
            Course::Unsound
        } else {
            course_of_all(registry, klass.get_fields(), Ghost(klass@.fields), has_base, depth - 1)
        }
    } else {
        Course::Stops
    }
}

/// What becomes of the header while the fields are decoded one after
/// another, with structs followed `depth` levels deep.
fn course_of_all(
    registry: &EventKlassRegistry,
    fields: &Vec<EventKlassField>,
    Ghost(all): Ghost<Seq<crate::event_klass::FieldView>>,
    has_base: bool,
    depth: usize,
) -> (result: Course)
    requires
        fields@.len() == all.len(),
        forall|i: int| 0 <= i < fields@.len() ==> (#[trigger] fields@[i])@ == all[i],
    ensures
        result == course(registry@, all, has_base, depth as nat),
    decreases depth, 1nat,
{
    let mut base_left = has_base;
    let mut i: usize = 0;
    assert(all.skip(0) =~= all);
    while i < fields.len()
        invariant
            i <= fields@.len(),
            fields@.len() == all.len(),
            forall|j: int| 0 <= j < fields@.len() ==> (#[trigger] fields@[j])@ == all[j],
            course(registry@, all, has_base, depth as nat) == course(
                registry@,
                all.skip(i as int),
                base_left,
                depth as nat,
            ),
        decreases fields@.len() - i,
    {
        assert(all.skip(i as int).skip(1) =~= all.skip(i + 1));
        match course_of_one(registry, &fields[i], base_left, depth) {
            Course::Passes { base_left: left } => {
                base_left = left;
            },
            other => {
                return other;
            },
        }
        i += 1;
    }
    Course::Passes { base_left }
}

/// Whether events of the class can be decoded with the registry, after a
/// header or without one.
pub fn is_readable(registry: &EventKlassRegistry, klass: &EventKlass, has_base: bool) -> (result:
    bool)
    ensures
        result == readable(registry@, klass@.fields, has_base),
{
    match course_of_all(
        registry,
        klass.get_fields(),
        Ghost(klass@.fields),
        has_base,
        registry.len(),
    ) {
        Course::Unsound => false,
        _ => true,
    }
}

/// Decodes events of one class.
pub struct DataStructReader<'a, S: ByteSource + ?Sized> {
    pub data_provider: &'a mut DataProvider<S>,
    pub registry: &'a EventKlassRegistry,
    pub base_event: Option<Event>,
    pub klass: &'a EventKlass,
}

impl<'a, S: ByteSource + ?Sized> DataStructReader<'a, S> {
    /// Whether a call took the reader from `self` to `after` and left the
    /// stream and the header as `decoded` says, with `result` for what was
    /// decoded.
    pub open spec fn took<T: View>(
        self,
        after: Self,
        decoded: Decoded<T::V>,
        result: Result<T, ReadEventError>,
    ) -> bool {
        &&& after.registry == self.registry
        &&& after.klass == self.klass
        &&& after.data_provider.failure() == self.data_provider.failure()
        &&& after.data_provider.stream() == decoded.rest
        &&& base_view(after.base_event) == decoded.base
        &&& match decoded.outcome {
            Ok(value) => result is Ok && result->Ok_0@ == value,
            Err(failure) => result is Err && reports(
                failure,
                self.data_provider.failure(),
                result->Err_0,
            ),
        }
    }

    /// A reader of events of the class.  The header, where there is one,
    /// is held by the first of the fields that ask for it.
    pub fn new(
        data_provider: &'a mut DataProvider<S>,
        registry: &'a EventKlassRegistry,
        klass: &'a EventKlass,
        base_event: Option<Event>,
    ) -> (reader: DataStructReader<'a, S>)
        ensures
            *reader.data_provider == *old(data_provider),
            *final(reader.data_provider) == *final(data_provider),
            reader.registry == registry,
            reader.klass == klass,
            reader.base_event == base_event,
    {
        DataStructReader { data_provider, registry, base_event, klass }
    }

    /// Decodes one event of the reader's class.
    pub fn read_event(&mut self) -> (result: Result<Event, ReadEventError>)
        requires
            readable(
                old(self).registry@,
                old(self).klass@.fields,
                old(self).base_event is Some,
            ),
        ensures
            *final(final(self).data_provider) == *final(old(self).data_provider),
            old(self).took(
                *final(self),
                decode_event(
                    old(self).registry@,
                    old(self).klass@,
                    old(self).data_provider.stream(),
                    base_view(old(self).base_event),
                ),
                result,
            ),
            result is Ok ==> holds_fields(result->Ok_0@.values, old(self).klass@.fields),
    {
        let klass = self.klass;
        self.read_event_internal(klass, Ghost(self.registry@.len()))
    }

    /// Decodes one event of the class, with structs followed `depth` levels
    /// deep.
    fn read_event_internal(&mut self, klass: &EventKlass, Ghost(depth): Ghost<nat>) -> (result:
        Result<Event, ReadEventError>)
        requires
            !(course(
                old(self).registry@,
                klass@.fields,
                old(self).base_event is Some,
                depth,
            ) is Unsound),
        ensures
            *final(final(self).data_provider) == *final(old(self).data_provider),
            ({
                let fields = decode_fields(
                    old(self).registry@,
                    klass@.fields,
                    old(self).data_provider.stream(),
                    base_view(old(self).base_event),
                    depth,
                    Map::empty(),
                );
                old(self).took(
                    *final(self),
                    Decoded {
                        outcome: match fields.outcome {
                            Ok(values) => Ok(EventView { klass_id: klass@.id, values }),
                            Err(failure) => Err(failure),
                        },
                        rest: fields.rest,
                        base: fields.base,
                    },
                    result,
                )
            }),
            result is Ok ==> holds_fields(result->Ok_0@.values, klass@.fields),
        decreases depth, 2nat,
    {
        let ghost klasses = self.registry@;
        let ghost all = klass@.fields;
        let ghost whole = decode_fields(
            klasses,
            all,
            self.data_provider.stream(),
            base_view(self.base_event),
            depth,
            Map::empty(),
        );
        let mut values = Record::new();
        let fields = klass.get_fields();
        let mut i: usize = 0;
        assert(all.skip(0) =~= all);
        while i < fields.len()
            invariant
                i <= fields@.len(),
                fields@.len() == all.len(),
                forall|j: int| 0 <= j < fields@.len() ==> (#[trigger] fields@[j])@ == all[j],
                klasses == self.registry@,
                all == klass@.fields,
                whole == decode_fields(
                    klasses,
                    all,
                    old(self).data_provider.stream(),
                    base_view(old(self).base_event),
                    depth,
                    Map::empty(),
                ),
                self.registry == old(self).registry,
                self.klass == old(self).klass,
                self.data_provider.failure() == old(self).data_provider.failure(),
                *final(self.data_provider) == *final(old(self).data_provider),
                whole == decode_fields(
                    klasses,
                    all.skip(i as int),
                    self.data_provider.stream(),
                    base_view(self.base_event),
                    depth,
                    values@,
                ),
                !(course(klasses, all.skip(i as int), self.base_event is Some, depth) is Unsound),
            decreases fields@.len() - i,
        {
            let field = &fields[i];
            let ghost stream = self.data_provider.stream();
            let ghost base = base_view(self.base_event);
            assert(all.skip(i as int).skip(1) =~= all.skip(i + 1));
            match self.read_field_within(field, Ghost(depth)) {
                Ok(value) => {
                    proof {
                        lemma_decoded_field_passes(klasses, all[i as int], stream, base, depth);
                    }
                    values.insert(field.get_name().clone(), value);
                },
                Err(err) => {
                    return Err(err);
                },
            }
            i += 1;
        }
        proof {
            lemma_decoded_holds_fields(
                klasses,
                all,
                old(self).data_provider.stream(),
                base_view(old(self).base_event),
                depth,
                Map::empty(),
            );
        }
        Ok(Event::new(klass.get_id(), values))
    }

    /// Decodes one field.
    pub fn read_field(&mut self, field: &EventKlassField) -> (result: Result<Value, ReadEventError>)
        requires
            !(course_of_field(
                old(self).registry@,
                field@,
                old(self).base_event is Some,
                old(self).registry@.len(),
            ) is Unsound),
        ensures
            *final(final(self).data_provider) == *final(old(self).data_provider),
            old(self).took(
                *final(self),
                decode_field(
                    old(self).registry@,
                    field@,
                    old(self).data_provider.stream(),
                    base_view(old(self).base_event),
                    old(self).registry@.len(),
                ),
                result,
            ),
    {
        self.read_field_within(field, Ghost(self.registry@.len()))
    }

    /// Decodes one field, with structs followed `depth` levels deep.
    fn read_field_within(&mut self, field: &EventKlassField, Ghost(depth): Ghost<nat>) -> (result:
        Result<Value, ReadEventError>)
        requires
            !(course_of_field(old(self).registry@, field@, old(self).base_event is Some, depth)
                is Unsound),
        ensures
            *final(final(self).data_provider) == *final(old(self).data_provider),
            old(self).took(
                *final(self),
                decode_field(
                    old(self).registry@,
                    field@,
                    old(self).data_provider.stream(),
                    base_view(old(self).base_event),
                    depth,
                ),
                result,
            ),
        decreases depth, 1nat,
    {
        match *field.get_data_type() {
            DataType::U8 => {
                let mut buffer: [u8; 1] = [0;1];
                match self.data_provider.read_bytes(&mut buffer) {
                    Ok(()) => Ok(Value::U8(u8_from_le(&buffer))),
                    Err(err) => Err(ReadEventError::DataError(err)),
                }
            },
            DataType::I8 => {
                let mut buffer: [u8; 1] = [0;1];
                match self.data_provider.read_bytes(&mut buffer) {
                    Ok(()) => Ok(Value::I8(i8_from_le(&buffer))),
                    Err(err) => Err(ReadEventError::DataError(err)),
                }
            },
            DataType::U16 => {
                let mut buffer: [u8; 2] = [0;2];
                match self.data_provider.read_bytes(&mut buffer) {
                    Ok(()) => Ok(Value::U16(u16_from_le(&buffer))),
                    Err(err) => Err(ReadEventError::DataError(err)),
                }
            },
            DataType::I16 => {
                let mut buffer: [u8; 2] = [0;2];
                match self.data_provider.read_bytes(&mut buffer) {
                    Ok(()) => Ok(Value::I16(i16_from_le(&buffer))),
                    Err(err) => Err(ReadEventError::DataError(err)),
                }
            },
            DataType::U32 => {
                let mut buffer: [u8; 4] = [0;4];
                match self.data_provider.read_bytes(&mut buffer) {
                    Ok(()) => Ok(Value::U32(u32_from_le(&buffer))),
                    Err(err) => Err(ReadEventError::DataError(err)),
                }
            },
            DataType::I32 => {
                let mut buffer: [u8; 4] = [0;4];
                match self.data_provider.read_bytes(&mut buffer) {
                    Ok(()) => Ok(Value::I32(i32_from_le(&buffer))),
                    Err(err) => Err(ReadEventError::DataError(err)),
                }
            },
            DataType::U64 => {
                let mut buffer: [u8; 8] = [0;8];
                match self.data_provider.read_bytes(&mut buffer) {
                    Ok(()) => Ok(Value::U64(u64_from_le(&buffer))),
                    Err(err) => Err(ReadEventError::DataError(err)),
                }
            },
            DataType::I64 => {
                let mut buffer: [u8; 8] = [0;8];
                match self.data_provider.read_bytes(&mut buffer) {
                    Ok(()) => Ok(Value::I64(i64_from_le(&buffer))),
                    Err(err) => Err(ReadEventError::DataError(err)),
                }
            },
            DataType::Str => self.read_string(),
            DataType::Struct => self.read_struct(field, Ghost(depth)),
        }
    }

    /// Decodes one struct: the header where the field asks for it, an event
    /// of the field's class otherwise.
    fn read_struct(&mut self, field: &EventKlassField, Ghost(depth): Ghost<nat>) -> (result: Result<
        Value,
        ReadEventError,
    >)
        requires
            field@.data_type == DataType::Struct,
            !(course_of_field(old(self).registry@, field@, old(self).base_event is Some, depth)
                is Unsound),
        ensures
            *final(final(self).data_provider) == *final(old(self).data_provider),
            old(self).took(
                *final(self),
                decode_field(
                    old(self).registry@,
                    field@,
                    old(self).data_provider.stream(),
                    base_view(old(self).base_event),
                    depth,
                ),
                result,
            ),
        decreases depth, 0nat,
    {
        let registry = self.registry;
        if same_text(field.get_type_name().as_str(), "HT_Event") && same_text(
            field.get_name().as_str(),
            "base",
        ) {
            let base_event = self.base_event.take();
            Ok(Value::Struct(base_event.expect("Base event must be provided for non-base events.")))
        } else if let Some(klass) = registry.get_klass_by_name(field.get_type_name().as_str()) {
            match self.read_event_internal(klass, Ghost((depth - 1) as nat)) {
                Ok(value) => Ok(Value::Struct(value)),
                Err(err) => Err(err),
            }
        } else {
            Err(ReadEventError::UnknownKlass(field.get_type_name().clone()))
        }
    }

    /// Decodes one string.
    pub fn read_string(&mut self) -> (result: Result<Value, ReadEventError>)
        ensures
            *final(final(self).data_provider) == *final(old(self).data_provider),
            old(self).took(
                *final(self),
                decode_string(old(self).data_provider.stream(), base_view(old(self).base_event)),
                result,
            ),
    {
        match self.data_provider.read_string() {
            Ok(data) => Ok(Value::Str(data)),
            Err(err) => Err(ReadEventError::DataError(err)),
        }
    }
}

} // verus!
