//! The wire format: what the bytes of a stream decode to, given the classes
//! of a registry.
//!
//! Integers are little-endian and of fixed width, a string is UTF-8 followed
//! by one zero byte, and a nested struct is the fields of its class one
//! after another.  A struct field named `base` of the header's type takes no
//! bytes: it holds the header that was decoded before.
use crate::data_provider::{first_zero, lemma_first_zero};
use crate::event::{DataType, EventView, ValueView};
use crate::event_klass::{fields_distinct, has_field, FieldView, KlassView};
use crate::integers::{le_value, lemma_le_value_bound, signed, span};
use crate::registry::klass_by_name;
use vstd::prelude::*;
use vstd::utf8::{decode_utf8, valid_utf8};

verus! {

/// Why bytes do not decode.
pub enum Failure {
    /// The bytes end before the value does.
    Truncated,
    /// A string is no well-formed UTF-8.
    BadText,
    /// A struct field is of a class that is not registered.
    UnknownKlass(Seq<char>),
    /// A field asks for the header, and the header is not there.
    NoBase,
    /// Structs are nested deeper than the registry has classes.
    TooDeep,
}

/// What came of decoding: the value or the failure, the bytes that are left,
/// and the header that is still to be placed.
pub struct Decoded<T> {
    pub outcome: Result<T, Failure>,
    pub rest: Seq<u8>,
    pub base: Option<EventView>,
}

/// The number of bytes that an integer of the kind takes.
pub open spec fn width(data_type: DataType) -> nat {
    match data_type {
        DataType::U8 | DataType::I8 => 1,
        DataType::U16 | DataType::I16 => 2,
        DataType::U32 | DataType::I32 => 4,
        DataType::U64 | DataType::I64 => 8,
        DataType::Str | DataType::Struct => 0,
    }
}

/// The integer of the kind that the bytes stand for.
pub open spec fn integer(data_type: DataType, bytes: Seq<u8>) -> ValueView {
    match data_type {
        DataType::U8 => ValueView::U8(le_value(bytes) as u8),
        DataType::I8 => ValueView::I8(signed(le_value(bytes), 1) as i8),
        DataType::U16 => ValueView::U16(le_value(bytes) as u16),
        DataType::I16 => ValueView::I16(signed(le_value(bytes), 2) as i16),
        DataType::U32 => ValueView::U32(le_value(bytes) as u32),
        DataType::I32 => ValueView::I32(signed(le_value(bytes), 4) as i32),
        DataType::U64 => ValueView::U64(le_value(bytes) as u64),
        _ => ValueView::I64(signed(le_value(bytes), 8) as i64),
    }
}

/// The number that an integer value is.
pub open spec fn number(value: ValueView) -> int {
    match value {
        ValueView::U8(v) => v as int,
        ValueView::I8(v) => v as int,
        ValueView::U16(v) => v as int,
        ValueView::I16(v) => v as int,
        ValueView::U32(v) => v as int,
        ValueView::I32(v) => v as int,
        ValueView::U64(v) => v as int,
        ValueView::I64(v) => v as int,
        _ => 0,
    }
}

/// Whether integers of the kind are signed.
pub open spec fn is_signed(data_type: DataType) -> bool {
    data_type == DataType::I8 || data_type == DataType::I16 || data_type == DataType::I32
        || data_type == DataType::I64
}

/// The integer that as many bytes as its kind takes stand for is the sum of
/// `bytes[i]` times 256 to the power `i`, read as two's complement where the
/// kind is signed.
pub proof fn lemma_integer_number(data_type: DataType, bytes: Seq<u8>)
    requires
        width(data_type) > 0,
        bytes.len() == width(data_type),
    ensures
        number(integer(data_type, bytes)) == if is_signed(data_type) {
            signed(le_value(bytes), width(data_type))
        } else {
            le_value(bytes) as int
        },
{
    lemma_le_value_bound(bytes);
    reveal_with_fuel(span, 9);
}

/// Whether the field is the one that holds the header.
pub open spec fn is_base(field: FieldView) -> bool {
    field.data_type == DataType::Struct && field.declared_type == "HT_Event"@ && field.name
        == "base"@
}

/// An integer at the front of the bytes.
pub open spec fn decode_integer(
    data_type: DataType,
    bytes: Seq<u8>,
    base: Option<EventView>,
) -> Decoded<ValueView> {
    let n = width(data_type) as int;
    if bytes.len() >= n {
        Decoded { outcome: Ok(integer(data_type, bytes.take(n))), rest: bytes.skip(n), base }
    } else {
        Decoded { outcome: Err(Failure::Truncated), rest: Seq::empty(), base }
    }
}

/// A string at the front of the bytes.
pub open spec fn decode_string(bytes: Seq<u8>, base: Option<EventView>) -> Decoded<ValueView> {
    match first_zero(bytes) {
        Some(end) => Decoded {
            outcome: if valid_utf8(bytes.take(end)) {
                Ok(ValueView::Str(decode_utf8(bytes.take(end))))
            } else {
                Err(Failure::BadText)
            },
            rest: bytes.skip(end + 1),
            base,
        },
        None => Decoded { outcome: Err(Failure::Truncated), rest: Seq::empty(), base },
    }
}

/// One field at the front of the bytes.  Structs are followed `depth` levels
/// deep.
pub open spec fn decode_field(
    klasses: Seq<KlassView>,
    field: FieldView,
    bytes: Seq<u8>,
    base: Option<EventView>,
    depth: nat,
) -> Decoded<ValueView>
    decreases depth, 0nat,
{
    match field.data_type {
        DataType::Str => decode_string(bytes, base),
        DataType::Struct => if is_base(field) {
            match base {
                Some(header) => Decoded {
                    outcome: Ok(ValueView::Struct(header)),
                    rest: bytes,
                    base: None,
                },
                None => Decoded { outcome: Err(Failure::NoBase), rest: bytes, base },
            }
        } else {
            match klass_by_name(klasses, field.declared_type) {
                Some(klass) => if depth == 0 {
                    Decoded { outcome: Err(Failure::TooDeep), rest: bytes, base }
                } else {
                    let inner = decode_fields(
                        klasses,
                        klass.fields,
                        bytes,
                        base,
                        (depth - 1) as nat,
                        Map::empty(),
                    );
                    Decoded {
                        outcome: match inner.outcome {
                            Ok(values) => Ok(
                                ValueView::Struct(EventView { klass_id: klass.id, values }),
                            ),
                            Err(failure) => Err(failure),
                        },
                        rest: inner.rest,
                        base: inner.base,
                    }
                },
                None => Decoded {
                    outcome: Err(Failure::UnknownKlass(field.declared_type)),
                    rest: bytes,
                    base,
                },
            }
        },
        _ => decode_integer(field.data_type, bytes, base),
    }
}

/// The fields one after another at the front of the bytes, added to the
/// record `values`.  The first failure ends the decoding.
pub open spec fn decode_fields(
    klasses: Seq<KlassView>,
    fields: Seq<FieldView>,
    bytes: Seq<u8>,
    base: Option<EventView>,
    depth: nat,
    values: Map<Seq<char>, ValueView>,
) -> Decoded<Map<Seq<char>, ValueView>>
    decreases depth, fields.len() + 1,
{
    if fields.len() == 0 {
        Decoded { outcome: Ok(values), rest: bytes, base }
    } else {
        let first = decode_field(klasses, fields[0], bytes, base, depth);
        match first.outcome {
            Ok(value) => decode_fields(
                klasses,
                fields.skip(1),
                first.rest,
                first.base,
                depth,
                values.insert(fields[0].name, value),
            ),
            Err(failure) => Decoded { outcome: Err(failure), rest: first.rest, base: first.base },
        }
    }
}

/// The event of the class at the front of the bytes.
pub open spec fn decode_event(
    klasses: Seq<KlassView>,
    klass: KlassView,
    bytes: Seq<u8>,
    base: Option<EventView>,
) -> Decoded<EventView> {
    let fields = decode_fields(klasses, klass.fields, bytes, base, klasses.len(), Map::empty());
    Decoded {
        outcome: match fields.outcome {
            Ok(values) => Ok(EventView { klass_id: klass.id, values }),
            Err(failure) => Err(failure),
        },
        rest: fields.rest,
        base: fields.base,
    }
}

/// What becomes of the header while fields are decoded, whatever the bytes.
pub enum Course {
    /// A field asks for a header that is not there, or structs are nested
    /// too deep.
    Unsound,
    /// A struct field is of a class that is not registered: decoding fails
    /// there at the latest.
    Stops,
    /// Every field can be decoded, and the header is then placed or not.
    Passes { base_left: bool },
}

/// What becomes of the header while the field is decoded.
pub open spec fn course_of_field(
    klasses: Seq<KlassView>,
    field: FieldView,
    has_base: bool,
    depth: nat,
) -> Course
    decreases depth, 0nat,
{
    if field.data_type != DataType::Struct {
        Course::Passes { base_left: has_base }
    } else if is_base(field) {
        if has_base {
            Course::Passes { base_left: false }
        } else {
            Course::Unsound
        }
    } else {
        match klass_by_name(klasses, field.declared_type) {
            Some(klass) => if depth == 0 {
                Course::Unsound
            } else {
                course(klasses, klass.fields, has_base, (depth - 1) as nat)
            },
            None => Course::Stops,
        }
    }
}

/// What becomes of the header while the fields are decoded one after
/// another.
pub open spec fn course(
    klasses: Seq<KlassView>,
    fields: Seq<FieldView>,
    has_base: bool,
    depth: nat,
) -> Course
    decreases depth, fields.len() + 1,
{
    if fields.len() == 0 {
        Course::Passes { base_left: has_base }
    } else {
        match course_of_field(klasses, fields[0], has_base, depth) {
            Course::Passes { base_left } => course(klasses, fields.skip(1), base_left, depth),
            other => other,
        }
    }
}

/// Whether events of the class can be decoded: no field asks for a header
/// that is not there, and structs are nested no deeper than the registry has
/// classes.
pub open spec fn readable(klasses: Seq<KlassView>, fields: Seq<FieldView>, has_base: bool) -> bool {
    !(course(klasses, fields, has_base, klasses.len()) is Unsound)
}

/// Fields of which none is a struct can be decoded, and leave the header as
/// it is.
pub proof fn lemma_plain_fields_pass(
    klasses: Seq<KlassView>,
    fields: Seq<FieldView>,
    has_base: bool,
    depth: nat,
)
    requires
        forall|i: int| 0 <= i < fields.len() ==> (#[trigger] fields[i]).data_type != DataType::Struct,
    ensures
        course(klasses, fields, has_base, depth) == (Course::Passes { base_left: has_base }),
    decreases fields.len(),
{
    if fields.len() > 0 {
        assert(course_of_field(klasses, fields[0], has_base, depth) == (Course::Passes {
            base_left: has_base,
        }));
        let rest = fields.skip(1);
        lemma_plain_fields_pass(klasses, rest, has_base, depth);
    }
}

/// Fields that decode took the course that passes, and left the header as
/// the course says.
pub proof fn lemma_decoded_field_passes(
    klasses: Seq<KlassView>,
    field: FieldView,
    bytes: Seq<u8>,
    base: Option<EventView>,
    depth: nat,
)
    requires
        decode_field(klasses, field, bytes, base, depth).outcome is Ok,
    ensures
        course_of_field(klasses, field, base is Some, depth) == (Course::Passes {
            base_left: decode_field(klasses, field, bytes, base, depth).base is Some,
        }),
    decreases depth, 0nat,
{
    if field.data_type == DataType::Struct && !is_base(field) {
        match klass_by_name(klasses, field.declared_type) {
            Some(klass) => {
                lemma_decoded_passes(
                    klasses,
                    klass.fields,
                    bytes,
                    base,
                    (depth - 1) as nat,
                    Map::empty(),
                );
            },
            None => {},
        }
    }
}

/// Fields that decode took the course that passes, and left the header as
/// the course says.
pub proof fn lemma_decoded_passes(
    klasses: Seq<KlassView>,
    fields: Seq<FieldView>,
    bytes: Seq<u8>,
    base: Option<EventView>,
    depth: nat,
    values: Map<Seq<char>, ValueView>,
)
    requires
        decode_fields(klasses, fields, bytes, base, depth, values).outcome is Ok,
    ensures
        course(klasses, fields, base is Some, depth) == (Course::Passes {
            base_left: decode_fields(klasses, fields, bytes, base, depth, values).base is Some,
        }),
    decreases depth, fields.len() + 1,
{
    if fields.len() > 0 {
        let first = decode_field(klasses, fields[0], bytes, base, depth);
        lemma_decoded_field_passes(klasses, fields[0], bytes, base, depth);
        lemma_decoded_passes(
            klasses,
            fields.skip(1),
            first.rest,
            first.base,
            depth,
            values.insert(fields[0].name, first.outcome->Ok_0),
        );
    }
}

/// On a sound course no decoding ends for want of a header or of depth.
pub proof fn lemma_sound_field(
    klasses: Seq<KlassView>,
    field: FieldView,
    bytes: Seq<u8>,
    base: Option<EventView>,
    depth: nat,
)
    requires
        !(course_of_field(klasses, field, base is Some, depth) is Unsound),
    ensures
        decode_field(klasses, field, bytes, base, depth).outcome != Err::<ValueView, Failure>(
            Failure::NoBase,
        ),
        decode_field(klasses, field, bytes, base, depth).outcome != Err::<ValueView, Failure>(
            Failure::TooDeep,
        ),
    decreases depth, 0nat,
{
    if field.data_type == DataType::Struct && !is_base(field) {
        match klass_by_name(klasses, field.declared_type) {
            Some(klass) => {
                lemma_sound(klasses, klass.fields, bytes, base, (depth - 1) as nat, Map::empty());
            },
            None => {},
        }
    }
}

/// On a sound course no decoding ends for want of a header or of depth.
pub proof fn lemma_sound(
    klasses: Seq<KlassView>,
    fields: Seq<FieldView>,
    bytes: Seq<u8>,
    base: Option<EventView>,
    depth: nat,
    values: Map<Seq<char>, ValueView>,
)
    requires
        !(course(klasses, fields, base is Some, depth) is Unsound),
    ensures
        decode_fields(klasses, fields, bytes, base, depth, values).outcome != Err::<
            Map<Seq<char>, ValueView>,
            Failure,
        >(Failure::NoBase),
        decode_fields(klasses, fields, bytes, base, depth, values).outcome != Err::<
            Map<Seq<char>, ValueView>,
            Failure,
        >(Failure::TooDeep),
    decreases depth, fields.len() + 1,
{
    if fields.len() > 0 {
        let first = decode_field(klasses, fields[0], bytes, base, depth);
        lemma_sound_field(klasses, fields[0], bytes, base, depth);
        if first.outcome is Ok {
            lemma_decoded_field_passes(klasses, fields[0], bytes, base, depth);
            lemma_sound(
                klasses,
                fields.skip(1),
                first.rest,
                first.base,
                depth,
                values.insert(fields[0].name, first.outcome->Ok_0),
            );
        }
    }
}

/// The kind of a value.
pub open spec fn kind_of(value: ValueView) -> DataType {
    match value {
        ValueView::U8(_) => DataType::U8,
        ValueView::I8(_) => DataType::I8,
        ValueView::U16(_) => DataType::U16,
        ValueView::I16(_) => DataType::I16,
        ValueView::U32(_) => DataType::U32,
        ValueView::I32(_) => DataType::I32,
        ValueView::U64(_) => DataType::U64,
        ValueView::I64(_) => DataType::I64,
        ValueView::Str(_) => DataType::Str,
        ValueView::Struct(_) => DataType::Struct,
    }
}

/// A decoded value is of the kind that its field declares.
pub proof fn lemma_decoded_kind(
    klasses: Seq<KlassView>,
    field: FieldView,
    bytes: Seq<u8>,
    base: Option<EventView>,
    depth: nat,
)
    requires
        decode_field(klasses, field, bytes, base, depth).outcome is Ok,
    ensures
        kind_of(decode_field(klasses, field, bytes, base, depth).outcome->Ok_0) == field.data_type,
{
}

/// A decoded record holds what the record held before under every name
/// that is the name of no field.
pub proof fn lemma_decoded_keeps(
    klasses: Seq<KlassView>,
    fields: Seq<FieldView>,
    bytes: Seq<u8>,
    base: Option<EventView>,
    depth: nat,
    values: Map<Seq<char>, ValueView>,
    name: Seq<char>,
)
    requires
        decode_fields(klasses, fields, bytes, base, depth, values).outcome is Ok,
        !has_field(fields, name),
    ensures
        ({
            let record = decode_fields(klasses, fields, bytes, base, depth, values).outcome->Ok_0;
            &&& record.contains_key(name) == values.contains_key(name)
            &&& record.contains_key(name) ==> record[name] == values[name]
        }),
    decreases fields.len(),
{
    if fields.len() > 0 {
        let first = decode_field(klasses, fields[0], bytes, base, depth);
        let rest = fields.skip(1);
        lemma_decoded_keeps(
            klasses,
            rest,
            first.rest,
            first.base,
            depth,
            values.insert(fields[0].name, first.outcome->Ok_0),
            name,
        );
    }
}

/// A decoded record holds, for each of the fields, a value of the field's
/// kind under the field's name.
pub proof fn lemma_decoded_record(
    klasses: Seq<KlassView>,
    fields: Seq<FieldView>,
    bytes: Seq<u8>,
    base: Option<EventView>,
    depth: nat,
    values: Map<Seq<char>, ValueView>,
    place: int,
)
    requires
        decode_fields(klasses, fields, bytes, base, depth, values).outcome is Ok,
        fields_distinct(fields),
        0 <= place < fields.len(),
    ensures
        ({
            let record = decode_fields(klasses, fields, bytes, base, depth, values).outcome->Ok_0;
            &&& record.contains_key(fields[place].name)
            &&& kind_of(record[fields[place].name]) == fields[place].data_type
        }),
    decreases fields.len(),
{
    let first = decode_field(klasses, fields[0], bytes, base, depth);
    let rest = fields.skip(1);
    let held = values.insert(fields[0].name, first.outcome->Ok_0);
    if place == 0 {
        lemma_decoded_keeps(klasses, rest, first.rest, first.base, depth, held, fields[0].name);
    } else {
        lemma_decoded_record(klasses, rest, first.rest, first.base, depth, held, place - 1);
    }
}

/// Whether the record holds, for each of the fields, a value of the field's
/// kind under the field's name.
pub open spec fn holds_fields(values: Map<Seq<char>, ValueView>, fields: Seq<FieldView>) -> bool {
    forall|i: int|
        0 <= i < fields.len() ==> values.contains_key((#[trigger] fields[i]).name) && kind_of(
            values[fields[i].name],
        ) == fields[i].data_type
}

/// A decoded record holds, for each of the fields, a value of the field's
/// kind under the field's name.
pub proof fn lemma_decoded_holds_fields(
    klasses: Seq<KlassView>,
    fields: Seq<FieldView>,
    bytes: Seq<u8>,
    base: Option<EventView>,
    depth: nat,
    values: Map<Seq<char>, ValueView>,
)
    requires
        decode_fields(klasses, fields, bytes, base, depth, values).outcome is Ok,
        fields_distinct(fields),
    ensures
        holds_fields(decode_fields(klasses, fields, bytes, base, depth, values).outcome->Ok_0, fields),
{
    let record = decode_fields(klasses, fields, bytes, base, depth, values).outcome->Ok_0;
    assert forall|i: int| 0 <= i < fields.len() implies record.contains_key(
        (#[trigger] fields[i]).name,
    ) && kind_of(record[fields[i].name]) == fields[i].data_type by {
        lemma_decoded_record(klasses, fields, bytes, base, depth, values, i);
    }
}

/// Decoding only ever moves forward: the bytes that are left are the bytes
/// behind those that were taken.
pub proof fn lemma_field_moves_forward(
    klasses: Seq<KlassView>,
    field: FieldView,
    bytes: Seq<u8>,
    base: Option<EventView>,
    depth: nat,
)
    ensures
        ({
            let rest = decode_field(klasses, field, bytes, base, depth).rest;
            rest.len() <= bytes.len() && rest == bytes.skip(bytes.len() - rest.len())
        }),
    decreases depth, 0nat,
{
    match field.data_type {
        DataType::Str => {
            lemma_first_zero(bytes);
        },
        DataType::Struct => {
            if !is_base(field) && depth > 0 {
                match klass_by_name(klasses, field.declared_type) {
                    Some(klass) => {
                        lemma_moves_forward(
                            klasses,
                            klass.fields,
                            bytes,
                            base,
                            (depth - 1) as nat,
                            Map::empty(),
                        );
                    },
                    None => {},
                }
            }
        },
        _ => {},
    }
}

/// Decoding only ever moves forward: the bytes that are left are the bytes
/// behind those that were taken.
pub proof fn lemma_moves_forward(
    klasses: Seq<KlassView>,
    fields: Seq<FieldView>,
    bytes: Seq<u8>,
    base: Option<EventView>,
    depth: nat,
    values: Map<Seq<char>, ValueView>,
)
    ensures
        ({
            let rest = decode_fields(klasses, fields, bytes, base, depth, values).rest;
            rest.len() <= bytes.len() && rest == bytes.skip(bytes.len() - rest.len())
        }),
    decreases depth, fields.len() + 1,
{
    if fields.len() > 0 {
        let first = decode_field(klasses, fields[0], bytes, base, depth);
        lemma_field_moves_forward(klasses, fields[0], bytes, base, depth);
        if first.outcome is Ok {
            lemma_moves_forward(
                klasses,
                fields.skip(1),
                first.rest,
                first.base,
                depth,
                values.insert(fields[0].name, first.outcome->Ok_0),
            );
        }
    }
}

/// An event of a class that declares the header's field before any other
/// struct holds the header it was decoded after, under `base`.
pub proof fn lemma_base_is_header(
    klasses: Seq<KlassView>,
    fields: Seq<FieldView>,
    bytes: Seq<u8>,
    header: EventView,
    depth: nat,
    values: Map<Seq<char>, ValueView>,
    place: int,
)
    requires
        fields_distinct(fields),
        0 <= place < fields.len(),
        is_base(fields[place]),
        forall|i: int| 0 <= i < place ==> (#[trigger] fields[i]).data_type != DataType::Struct,
        decode_fields(klasses, fields, bytes, Some(header), depth, values).outcome is Ok,
    ensures
        ({
            let record = decode_fields(klasses, fields, bytes, Some(header), depth, values).outcome->Ok_0;
            record.contains_key("base"@) && record["base"@] == ValueView::Struct(header)
        }),
    decreases fields.len(),
{
    let first = decode_field(klasses, fields[0], bytes, Some(header), depth);
    let rest = fields.skip(1);
    let held = values.insert(fields[0].name, first.outcome->Ok_0);
    if place == 0 {
        lemma_decoded_keeps(klasses, rest, first.rest, first.base, depth, held, "base"@);
    } else {
        lemma_base_is_header(klasses, rest, first.rest, header, depth, held, place - 1);
    }
}

} // verus!
