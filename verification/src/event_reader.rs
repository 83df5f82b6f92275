//! The stream reader: reads one event after another from a stream, and
//! applies the events that define classes and fields to the registry.
use crate::data_provider::{ByteSource, DataProvider};
use crate::data_struct_reader::{is_readable, reports, DataStructReader, ReadEventError};
use crate::event::{DataType, Event, EventView};
use crate::event_klass::KlassView;
use crate::registry::{core_klasses, klass_by_id, CoreEventKlassId, EventKlassRegistry};
use crate::registry_updater::{u32_of, updated, RegistryUpdater, UpdateFailure};
use crate::wire::{decode_event, holds_fields, lemma_plain_fields_pass, readable, Failure};
use crate::text::same_text;
use vstd::prelude::*;

verus! {

/// Why no event was read from a stream.
pub enum ReadFailure {
    /// The header or the event did not decode.
    Decode(Failure),
    /// The header names a class id that is not registered.
    UnknownKlassId(u32),
    /// The event did not update the registry.
    Update(UpdateFailure),
}

/// What came of reading one event: the event or the failure, the bytes that
/// are left, and the classes of the registry.
pub struct Read {
    pub outcome: Result<EventView, ReadFailure>,
    pub rest: Seq<u8>,
    pub klasses: Seq<KlassView>,
}

/// The reserved class of event headers, as the registry holds it.
pub open spec fn header_klass(klasses: Seq<KlassView>) -> KlassView {
    klass_by_id(klasses, CoreEventKlassId::Base.spec_id())->0
}

/// Whether the fields hold one of 32 bits under the name.
pub open spec fn has_u32_field(klass: KlassView, name: Seq<char>) -> bool {
    exists|i: int|
        0 <= i < klass.fields.len() && (#[trigger] klass.fields[i]).name == name
            && klass.fields[i].data_type == DataType::U32
}

/// Whether events can be read with the classes: the class of headers is
/// there and tells the event's type, a header decodes without a header
/// before it, and the events of every class decode with one.
pub open spec fn decodable(klasses: Seq<KlassView>) -> bool {
    &&& klass_by_id(klasses, CoreEventKlassId::Base.spec_id()) is Some
    &&& has_u32_field(header_klass(klasses), "type"@)
    &&& readable(klasses, header_klass(klasses).fields, false)
    &&& forall|i: int|
        0 <= i < klasses.len() ==> readable(klasses, (#[trigger] klasses[i]).fields, true)
}

/// The event at the front of the bytes.  The header comes first and names
/// the event's class in its `type`.  A header of the class of headers is the
/// whole event.  An event of another class follows its header, which it can
/// hold as its `base`; an event that defines a class or a field is applied
/// to the classes, and is lost where that fails.
pub open spec fn next_event(klasses: Seq<KlassView>, bytes: Seq<u8>) -> Read {
    let header = decode_event(klasses, header_klass(klasses), bytes, None);
    match header.outcome {
        Err(failure) => Read {
            outcome: Err(ReadFailure::Decode(failure)),
            rest: header.rest,
            klasses,
        },
        Ok(base) => {
            let kind = u32_of(base.values, "type"@)->0;
            if kind == CoreEventKlassId::Base.spec_id() {
                Read { outcome: Ok(base), rest: header.rest, klasses }
            } else {
                match klass_by_id(klasses, kind) {
                    None => Read {
                        outcome: Err(ReadFailure::UnknownKlassId(kind)),
                        rest: header.rest,
                        klasses,
                    },
                    Some(klass) => {
                        let body = decode_event(klasses, klass, header.rest, Some(base));
                        match body.outcome {
                            Err(failure) => Read {
                                outcome: Err(ReadFailure::Decode(failure)),
                                rest: body.rest,
                                klasses,
                            },
                            Ok(event) => if kind == CoreEventKlassId::KlassInfo.spec_id() || kind
                                == CoreEventKlassId::FieldInfo.spec_id() {
                                match updated(klasses, event) {
                                    Ok(grown) => Read {
                                        outcome: Ok(event),
                                        rest: body.rest,
                                        klasses: grown,
                                    },
                                    Err(failure) => Read {
                                        outcome: Err(ReadFailure::Update(failure)),
                                        rest: body.rest,
                                        klasses,
                                    },
                                }
                            } else {
                                Read { outcome: Ok(event), rest: body.rest, klasses }
                            },
                        }
                    },
                }
            }
        },
    }
}

/// Whether `error` is what the stream reader reports of the failure, on a
/// source that ends cleanly or with the failure `ending`.
pub open spec fn read_reports(
    failure: ReadFailure,
    ending: Option<Seq<char>>,
    error: ReadEventError,
) -> bool {
    match failure {
        ReadFailure::Decode(failure) => reports(failure, ending, error),
        ReadFailure::UnknownKlassId(id) => error == ReadEventError::UnknownKlassId(id),
        ReadFailure::Update(failure) => error is RegistryUpdateFailed
            && error->RegistryUpdateFailed_0@ == failure.spec_message(),
    }
}

/// Events can be read with the classes of a new registry.
pub proof fn lemma_core_klasses_decodable()
    ensures
        decodable(core_klasses()),
{
    let klasses = core_klasses();
    let header = header_klass(klasses);
    assert forall|i: int| 0 <= i < klasses.len() implies readable(
        klasses,
        (#[trigger] klasses[i]).fields,
        true,
    ) by {
        lemma_plain_fields_pass(klasses, klasses[i].fields, true, klasses.len());
    }
    lemma_plain_fields_pass(klasses, header.fields, false, klasses.len());
}

/// Whether events can be read with the registry.
pub fn can_decode(registry: &EventKlassRegistry) -> (result: bool)
    requires
        registry.wf(),
    ensures
        result == decodable(registry@),
{
    let header = match registry.get_klass_by_id(CoreEventKlassId::Base.id()) {
        Some(klass) => klass,
        None => {
            return false;
        },
    };
    let fields = header.get_fields();
    let mut tells_type = false;
    let mut i: usize = 0;
    while i < fields.len()
        invariant
            i <= fields@.len(),
            fields@.len() == header@.fields.len(),
            forall|j: int| 0 <= j < fields@.len() ==> (#[trigger] fields@[j])@ == header@.fields[j],
            tells_type <==> exists|j: int|
                0 <= j < i && (#[trigger] header@.fields[j]).name == "type"@
                    && header@.fields[j].data_type == DataType::U32,
        decreases fields@.len() - i,
    {
        let field = &fields[i];
        if *field.get_data_type() == DataType::U32 && same_text(field.get_name().as_str(), "type") {
            tells_type = true;
        }
        i += 1;
    }
    if !tells_type || !is_readable(registry, header, false) {
        return false;
    }
    let mut k: usize = 0;
    while k < registry.len()
        invariant
            k <= registry@.len(),
            forall|j: int| 0 <= j < k ==> readable(registry@, (#[trigger] registry@[j]).fields, true),
        decreases registry@.len() - k,
    {
        if !is_readable(registry, registry.get_klass_at(k), true) {
            return false;
        }
        k += 1;
    }
    true
}

/// Reads the events of one stream.
pub struct EventReader<S: ByteSource + ?Sized> {
    data_provider: DataProvider<S>,
}

impl<S: ByteSource + ?Sized> EventReader<S> {
    /// The bytes that are yet to be read.
    pub closed spec fn stream(&self) -> Seq<u8> {
        self.data_provider.stream()
    }

    /// What the source reports once its bytes are handed out, where it
    /// fails then.
    pub closed spec fn failure(&self) -> Option<Seq<char>> {
        self.data_provider.failure()
    }

    /// A reader of the events that the provider's bytes hold.
    pub fn new(data_provider: DataProvider<S>) -> (reader: EventReader<S>)
        ensures
            reader.stream() == data_provider.stream(),
            reader.failure() == data_provider.failure(),
    {
        EventReader { data_provider }
    }

    /// Reads the next event of the stream.  An event that defines a class
    /// or a field is applied to the registry.
    pub fn read_event(&mut self, registry: &mut EventKlassRegistry) -> (result: Result<
        Event,
        ReadEventError,
    >)
        requires
            old(registry).wf(),
            decodable(old(registry)@),
        ensures
            final(registry).wf(),
            final(self).failure() == old(self).failure(),
            ({
                let read = next_event(old(registry)@, old(self).stream());
                &&& final(self).stream() == read.rest
                &&& final(registry)@ == read.klasses
                &&& match read.outcome {
                    Ok(event) => result is Ok && result->Ok_0@ == event,
                    Err(failure) => result is Err && read_reports(
                        failure,
                        old(self).failure(),
                        result->Err_0,
                    ),
                }
            }),
    {
        let base_event = self.read_header(registry)?;

        let klass_id = base_event.get_value_u32("type").expect(
            "Cannot find 'type' field in base klass. Registry corrupted?",
        );

        if klass_id == CoreEventKlassId::Base.id() {
            return Ok(base_event);
        }

        let event = self.read_regular_event(registry, klass_id, base_event)?;

        if klass_id == CoreEventKlassId::KlassInfo.id() || klass_id
            == CoreEventKlassId::FieldInfo.id() {
            if let Err(err) = RegistryUpdater::new(registry).update_registry_from_event(&event) {
                return Err(ReadEventError::RegistryUpdateFailed(err.to_owned()));
            }
        }

        Ok(event)
    }

    /// Reads the event that follows its header.
    fn read_regular_event(
        &mut self,
        registry: &EventKlassRegistry,
        klass_id: u32,
        base_event: Event,
    ) -> (result: Result<Event, ReadEventError>)
        requires
            registry.wf(),
            forall|i: int|
                0 <= i < registry@.len() ==> readable(registry@, (#[trigger] registry@[i]).fields, true),
        ensures
            final(self).failure() == old(self).failure(),
            match klass_by_id(registry@, klass_id) {
                None => {
                    &&& result == Err::<Event, ReadEventError>(
                        ReadEventError::UnknownKlassId(klass_id),
                    )
                    &&& final(self).stream() == old(self).stream()
                },
                Some(klass) => {
                    let body = decode_event(registry@, klass, old(self).stream(), Some(base_event@));
                    &&& final(self).stream() == body.rest
                    &&& match body.outcome {
                        Ok(event) => result is Ok && result->Ok_0@ == event,
                        Err(failure) => result is Err && reports(
                            failure,
                            old(self).failure(),
                            result->Err_0,
                        ),
                    }
                },
            },
    {
        let klass = match registry.get_klass_by_id(klass_id) {
            Some(klass) => klass,
            None => return Err(ReadEventError::UnknownKlassId(klass_id)),
        };
        DataStructReader::new(
            &mut self.data_provider,
            registry,
            klass,
            Some(base_event),
        ).read_event()
    }

    /// Reads one header.
    pub fn read_header(&mut self, registry: &mut EventKlassRegistry) -> (result: Result<
        Event,
        ReadEventError,
    >)
        requires
            old(registry).wf(),
            klass_by_id(old(registry)@, CoreEventKlassId::Base.spec_id()) is Some,
            readable(old(registry)@, header_klass(old(registry)@).fields, false),
        ensures
            *final(registry) == *old(registry),
            final(self).failure() == old(self).failure(),
            ({
                let header = decode_event(
                    old(registry)@,
                    header_klass(old(registry)@),
                    old(self).stream(),
                    None,
                );
                &&& final(self).stream() == header.rest
                &&& match header.outcome {
                    Ok(event) => result is Ok && result->Ok_0@ == event,
                    Err(failure) => result is Err && reports(
                        failure,
                        old(self).failure(),
                        result->Err_0,
                    ),
                }
            }),
            result is Ok ==> holds_fields(
                result->Ok_0@.values,
                header_klass(old(registry)@).fields,
            ),
    {
        let base_event_klass = registry.get_klass_by_id(CoreEventKlassId::Base.id()).expect(
            "Can not find Base klass definition!",
        );
        DataStructReader::new(
            &mut self.data_provider,
            registry,
            base_event_klass,
            None,
        ).read_event()
    }
}

} // verus!
