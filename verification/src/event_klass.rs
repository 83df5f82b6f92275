//! Event classes: a class has an id, a name and an ordered list of fields.
use crate::event::DataType;
use crate::text::same_text;
use vstd::prelude::*;

verus! {

/// What a field is: its name, the name of its declared type, and its kind.
pub struct FieldView {
    pub name: Seq<char>,
    pub declared_type: Seq<char>,
    pub data_type: DataType,
}

/// What a class is: its id, its name, and its fields in declared order.
pub struct KlassView {
    pub id: u32,
    pub name: Seq<char>,
    pub fields: Seq<FieldView>,
}

/// One field of a class.
pub struct EventKlassField {
    name: String,
    declared_type: String,
    data_type: DataType,
}

/// One class of events.  No two of its fields have the same name.
pub struct EventKlass {
    fields: Vec<EventKlassField>,
    name: String,
    id: u32,
}

/// Whether some field carries the name.
pub open spec fn has_field(fields: Seq<FieldView>, name: Seq<char>) -> bool {
    exists|i: int| 0 <= i < fields.len() && (#[trigger] fields[i]).name == name
}

/// Whether every name is carried by one field at most.
pub open spec fn fields_distinct(fields: Seq<FieldView>) -> bool {
    forall|i: int, j: int|
        0 <= i < j < fields.len() ==> (#[trigger] fields[i]).name != (#[trigger] fields[j]).name
}

/// The fields of a class after one more field was declared: a name that the
/// class has already is declared in vain.
pub open spec fn with_field(fields: Seq<FieldView>, field: FieldView) -> Seq<FieldView> {
    if has_field(fields, field.name) {
        fields
    } else {
        fields.push(field)
    }
}

/// Declaring a field keeps the fields that were declared before, in their
/// order, keeps the names distinct, and leaves the class with a field of the
/// name.
pub proof fn lemma_with_field(fields: Seq<FieldView>, field: FieldView)
    ensures
        fields.len() <= with_field(fields, field).len() <= fields.len() + 1,
        with_field(fields, field).take(fields.len() as int) == fields,
        has_field(with_field(fields, field), field.name),
        fields_distinct(fields) ==> fields_distinct(with_field(fields, field)),
{
    if !has_field(fields, field.name) {
        assert(with_field(fields, field)[fields.len() as int].name == field.name);
    }
}

impl View for EventKlassField {
    type V = FieldView;

    closed spec fn view(&self) -> FieldView {
        FieldView { name: self.name@, declared_type: self.declared_type@, data_type: self.data_type }
    }
}

impl View for EventKlass {
    type V = KlassView;

    closed spec fn view(&self) -> KlassView {
        KlassView {
            id: self.id,
            name: self.name@,
            fields: Seq::new(self.fields@.len(), |i: int| self.fields@[i]@),
        }
    }
}

impl EventKlass {
    #[verifier::type_invariant]
    spec fn names_distinct(self) -> bool {
        fields_distinct(self@.fields)
    }

    /// A class without fields.
    pub fn new(id: u32, name: String) -> (klass: EventKlass)
        ensures
            klass@ == (KlassView { id, name: name@, fields: Seq::empty() }),
    {
        let klass = EventKlass { fields: Vec::new(), name, id };
        assert(klass@.fields =~= Seq::empty());
        klass
    }

    /// The name of the class.
    pub fn get_name(&self) -> (name: &String)
        ensures
            name@ == self@.name,
    {
        &self.name
    }

    /// The id of the class.
    pub fn get_id(&self) -> (id: u32)
        ensures
            id == self@.id,
    {
        self.id
    }

    /// The fields of the class, in declared order.
    pub fn get_fields(&self) -> (fields: &Vec<EventKlassField>)
        ensures
            fields@.len() == self@.fields.len(),
            forall|i: int| 0 <= i < fields@.len() ==> (#[trigger] fields@[i])@ == self@.fields[i],
            fields_distinct(self@.fields),
    {
        proof {
            use_type_invariant(self);
        }
        &self.fields
    }

    /// Declares one more field.  A name that the class has already is
    /// declared in vain: the first declaration stays.
    pub fn add_field(&mut self, name: String, declared_type: String, data_type: DataType)
        ensures
            final(self)@ == (KlassView {
                fields: with_field(
                    old(self)@.fields,
                    FieldView { name: name@, declared_type: declared_type@, data_type },
                ),
                ..old(self)@
            }),
    {
        proof {
            use_type_invariant(&*self);
        }
        let ghost before = self@.fields;
        let mut i: usize = 0;
        while i < self.fields.len()
            invariant
                i <= self.fields@.len(),
                self@.fields == before,
                *self == *old(self),
                forall|j: int| 0 <= j < i ==> (#[trigger] before[j]).name != name@,
            decreases self.fields@.len() - i,
        {
            if same_text(self.fields[i].name.as_str(), name.as_str()) {
                assert(before[i as int].name == name@);
                return ;
            }
            i += 1;
        }
        let mut fields: Vec<EventKlassField> = Vec::new();
        std::mem::swap(&mut fields, &mut self.fields);
        fields.push(EventKlassField::new(name, declared_type, data_type));
        proof {
            let after = Seq::new(fields@.len(), |i: int| fields@[i]@);
            assert(after =~= before.push(fields@.last()@));
        }
        self.fields = fields;
    }
}

impl EventKlassField {
    /// A field of the name, of the declared type and of the kind.
    pub fn new(name: String, declared_type: String, data_type: DataType) -> (field: EventKlassField)
        ensures
            field@ == (FieldView { name: name@, declared_type: declared_type@, data_type }),
    {
        EventKlassField { name, declared_type, data_type }
    }

    /// The name of the field.
    pub fn get_name(&self) -> (name: &String)
        ensures
            name@ == self@.name,
    {
        &self.name
    }

    /// The kind of the field.
    pub fn get_data_type(&self) -> (data_type: &DataType)
        ensures
            *data_type == self@.data_type,
    {
        &self.data_type
    }

    /// The name of the field's declared type.
    pub fn get_type_name(&self) -> (declared_type: &String)
        ensures
            declared_type@ == self@.declared_type,
    {
        &self.declared_type
    }
}

} // verus!
