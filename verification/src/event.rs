//! Decoded events: a class id and a record that maps field names to values.
use crate::text::{decimal, decimal_text, same_text, signed_decimal, signed_decimal_text};
use vstd::string::StringExecFns;
use vstd::prelude::*;

verus! {

/// The kind of a class field: a fixed-width integer, a terminated string, or
/// a nested struct.
#[derive(Copy, Clone, PartialEq, Eq, Debug, Structural)]
pub enum DataType {
    U8,
    I8,
    U16,
    I16,
    U32,
    I32,
    U64,
    I64,
    Str,
    Struct,
}

/// Why a typed read of an event field failed.
#[derive(Copy, Clone, PartialEq, Eq, Debug, Structural)]
pub enum ErrorKind {
    NotFound,
    InvalidType,
}

/// A failed typed read: the field that was asked for, and why it failed.
#[derive(Debug)]
pub struct ValueError {
    kind: ErrorKind,
    field: String,
}

impl ValueError {
    /// The failure's kind.
    pub closed spec fn spec_kind(&self) -> ErrorKind {
        self.kind
    }

    /// The name of the field that was asked for.
    pub closed spec fn spec_field(&self) -> Seq<char> {
        self.field@
    }

    /// The failure of the kind for the field.
    pub fn new(field: &str, kind: ErrorKind) -> (error: ValueError)
        ensures
            error.spec_kind() == kind,
            error.spec_field() == field@,
    {
        ValueError { kind, field: field.to_owned() }
    }

    /// The failure's kind.
    #[verifier::when_used_as_spec(spec_kind)]
    pub fn kind(&self) -> (kind: ErrorKind)
        ensures
            kind == self.spec_kind(),
    {
        self.kind
    }

    /// The name of the field that was asked for.
    pub fn field(&self) -> (field: &String)
        ensures
            field@ == self.spec_field(),
    {
        &self.field
    }

    /// The failure in words.
    pub open spec fn spec_text(&self) -> Seq<char> {
        "Cannot get value "@ + self.spec_field() + ": "@ + match self.spec_kind() {
            ErrorKind::NotFound => "NotFound"@,
            ErrorKind::InvalidType => "InvalidType"@,
        } + ">"@
    }

    /// The failure in words.
    pub fn to_string(&self) -> (text: String)
        ensures
            text@ == self.spec_text(),
    {
        let mut text = "Cannot get value ".to_owned();
        text.append(self.field.as_str());
        text.append(": ");
        match self.kind {
            ErrorKind::NotFound => text.append("NotFound"),
            ErrorKind::InvalidType => text.append("InvalidType"),
        }
        text.append(">");
        text
    }
}

/// What a value is: an integer of one of eight types, a text, or a nested
/// event.
pub enum ValueView {
    U8(u8),
    I8(i8),
    U16(u16),
    I16(i16),
    U32(u32),
    I32(i32),
    U64(u64),
    I64(i64),
    Str(Seq<char>),
    Struct(EventView),
}

/// What an event is: its class id and the value of each of its fields.
pub struct EventView {
    pub klass_id: u32,
    pub values: Map<Seq<char>, ValueView>,
}

/// One decoded value.
#[derive(Debug)]
pub enum Value {
    U8(u8),
    I8(i8),
    U16(u16),
    I16(i16),
    U32(u32),
    I32(i32),
    U64(u64),
    I64(i64),
    Str(String),
    Struct(Event),
}

/// One named value of a record.
#[derive(Debug)]
struct Entry {
    name: String,
    value: Value,
}

/// A mapping from field names to values.  No name occurs twice.
#[derive(Debug)]
pub struct Record {
    entries: Vec<Entry>,
}

/// One decoded event.
#[derive(Debug)]
pub struct Event {
    klass_id: u32,
    values: Record,
}

/// The model of a value.
pub open spec fn value_view(value: Value) -> ValueView
    decreases value,
{
    match value {
        Value::U8(v) => ValueView::U8(v),
        Value::I8(v) => ValueView::I8(v),
        Value::U16(v) => ValueView::U16(v),
        Value::I16(v) => ValueView::I16(v),
        Value::U32(v) => ValueView::U32(v),
        Value::I32(v) => ValueView::I32(v),
        Value::U64(v) => ValueView::U64(v),
        Value::I64(v) => ValueView::I64(v),
        Value::Str(v) => ValueView::Str(v@),
        Value::Struct(v) => ValueView::Struct(event_view(v)),
    }
}

/// The model of an event.
pub closed spec fn event_view(event: Event) -> EventView
    decreases event,
{
    EventView { klass_id: event.klass_id, values: entries_view(event.values.entries@) }
}

/// Whether some entry carries the name.
spec fn holds(entries: Seq<Entry>, name: Seq<char>) -> bool {
    exists|i: int| 0 <= i < entries.len() && #[trigger] entries[i].name@ == name
}

/// The place of an entry that carries the name, where there is one.
spec fn slot(entries: Seq<Entry>, name: Seq<char>) -> int {
    choose|i: int| 0 <= i < entries.len() && #[trigger] entries[i].name@ == name
}

/// Whether every name is carried by one entry at most.
spec fn distinct(entries: Seq<Entry>) -> bool {
    forall|i: int, j: int|
        0 <= i < j < entries.len() ==> #[trigger] entries[i].name@ != #[trigger] entries[j].name@
}

/// The mapping that a sequence of entries stands for.
spec fn entries_view(entries: Seq<Entry>) -> Map<Seq<char>, ValueView>
    decreases entries,
{
    Map::new(
        |name: Seq<char>| holds(entries, name),
        |name: Seq<char>|
            {
                let i = slot(entries, name);
                if 0 <= i < entries.len() {
                    value_view(entries[i].value)
                } else {
                    ValueView::U8(0)
                }
            },
    )
}

impl View for Value {
    type V = ValueView;

    open spec fn view(&self) -> ValueView {
        value_view(*self)
    }
}

impl View for Event {
    type V = EventView;

    open spec fn view(&self) -> EventView {
        event_view(*self)
    }
}

impl View for Record {
    type V = Map<Seq<char>, ValueView>;

    closed spec fn view(&self) -> Map<Seq<char>, ValueView> {
        entries_view(self.entries@)
    }
}

/// With distinct names, the entry at `i` is the one its name maps to.
proof fn lemma_entry_at(entries: Seq<Entry>, i: int)
    requires
        distinct(entries),
        0 <= i < entries.len(),
    ensures
        entries_view(entries).contains_key(entries[i].name@),
        entries_view(entries)[entries[i].name@] == value_view(entries[i].value),
        slot(entries, entries[i].name@) == i,
{
}

/// A name that no entry carries is not in the mapping.
proof fn lemma_absent(entries: Seq<Entry>, name: Seq<char>)
    requires
        forall|i: int| 0 <= i < entries.len() ==> (#[trigger] entries[i]).name@ != name,
    ensures
        !entries_view(entries).contains_key(name),
{
}

/// The names of a mapping are the names of all its entries but the last,
/// and the name of the last.
proof fn lemma_last(entries: Seq<Entry>)
    requires
        entries.len() > 0,
    ensures
        entries_view(entries).dom() == entries_view(entries.drop_last()).dom().insert(
            entries.last().name@,
        ),
{
    let front = entries.drop_last();
    let last = entries.last();
    let dom = entries_view(entries).dom();
    let front_dom = entries_view(front).dom();
    assert forall|name: Seq<char>| dom.contains(name) <==> front_dom.insert(last.name@).contains(
        name,
    ) by {
        if holds(entries, name) {
            let i = slot(entries, name);
            if i < front.len() {
                assert(front[i].name@ == name);
            }
        }
    }
}

/// A mapping made of entries holds finitely many names.
proof fn lemma_finite(entries: Seq<Entry>)
    ensures
        entries_view(entries).dom().finite(),
    decreases entries.len(),
{
    if entries.len() == 0 {
        assert(entries_view(entries).dom() =~= Set::<Seq<char>>::empty());
    } else {
        lemma_finite(entries.drop_last());
        lemma_last(entries);
    }
}

/// The names of a mapping are as many as the distinct entries it is made of.
proof fn lemma_count(entries: Seq<Entry>)
    requires
        distinct(entries),
    ensures
        entries_view(entries).dom().finite(),
        entries_view(entries).dom().len() == entries.len(),
    decreases entries.len(),
{
    if entries.len() == 0 {
        assert(entries_view(entries).dom() =~= Set::<Seq<char>>::empty());
    } else {
        let front = entries.drop_last();
        lemma_count(front);
        lemma_last(entries);
    }
}

impl Record {
    #[verifier::type_invariant]
    spec fn names_distinct(self) -> bool {
        distinct(self.entries@)
    }

    /// The names that the record maps, each once, in the order in which the
    /// record holds them.
    pub closed spec fn names(&self) -> Seq<Seq<char>> {
        Seq::new(self.entries@.len(), |i: int| self.entries@[i].name@)
    }

    /// A record that maps no name.
    pub fn new() -> (record: Record)
        ensures
            record@ == Map::<Seq<char>, ValueView>::empty(),
    {
        Record { entries: Vec::new() }
    }

    /// The number of names that the record maps.
    pub fn len(&self) -> (len: usize)
        ensures
            self@.dom().finite(),
            len == self@.dom().len(),
            len == self.names().len(),
            self.names().no_duplicates(),
            self.names().to_set() == self@.dom(),
    {
        proof {
            use_type_invariant(self);
            lemma_count(self.entries@);
            let names = self.names();
            assert forall|name: Seq<char>| names.to_set().contains(name) <==> self@.dom().contains(
                name,
            ) by {
                if holds(self.entries@, name) {
                    let i = slot(self.entries@, name);
                    assert(names[i] == name);
                }
            }
        }
        self.entries.len()
    }

    /// The name that the record holds at the place.
    pub fn name_at(&self, place: usize) -> (name: &String)
        requires
            place < self.names().len(),
        ensures
            name@ == self.names()[place as int],
            self@.contains_key(name@),
    {
        &self.entries[place].name
    }

    /// The value of the name that the record holds at the place.
    pub fn value_at(&self, place: usize) -> (value: &Value)
        requires
            place < self.names().len(),
        ensures
            self@.contains_key(self.names()[place as int]),
            value@ == self@[self.names()[place as int]],
    {
        proof {
            use_type_invariant(self);
        }
        &self.entries[place].value
    }

    /// Whether the record maps no name.
    pub fn is_empty(&self) -> (empty: bool)
        ensures
            empty == (self@.dom().len() == 0),
            self@.dom().finite(),
    {
        self.len() == 0
    }

    /// The place of the entry that carries the name.
    fn find(&self, name: &str) -> (place: Option<usize>)
        ensures
            match place {
                Some(i) => i < self.entries@.len() && self.entries@[i as int].name@ == name@,
                None => !self@.contains_key(name@),
            },
    {
        let mut i: usize = 0;
        while i < self.entries.len()
            invariant
                i <= self.entries@.len(),
                forall|j: int| 0 <= j < i ==> (#[trigger] self.entries@[j]).name@ != name@,
            decreases self.entries@.len() - i,
        {
            if same_text(self.entries[i].name.as_str(), name) {
                return Some(i);
            }
            i += 1;
        }
        None
    }

    /// Whether the record maps the name.
    pub fn contains_key(&self, name: &str) -> (found: bool)
        ensures
            found == self@.contains_key(name@),
    {
        match self.find(name) {
            Some(i) => {
                true
            },
            None => false,
        }
    }

    /// The value that the record maps the name to.
    pub fn get(&self, name: &str) -> (value: Option<&Value>)
        ensures
            match value {
                Some(v) => self@.contains_key(name@) && v@ == self@[name@],
                None => !self@.contains_key(name@),
            },
    {
        match self.find(name) {
            Some(i) => {
                proof {
                    use_type_invariant(self);
                }
                Some(&self.entries[i].value)
            },
            None => None,
        }
    }

    /// Maps the name to the value, and hands back the value that it was
    /// mapped to before.
    pub fn insert(&mut self, name: String, value: Value) -> (previous: Option<Value>)
        ensures
            final(self)@ == old(self)@.insert(name@, value@),
            match previous {
                Some(v) => old(self)@.contains_key(name@) && v@ == old(self)@[name@],
                None => !old(self)@.contains_key(name@),
            },
    {
        proof {
            use_type_invariant(&*self);
        }
        let place = self.find(name.as_str());
        let ghost before = self.entries@;
        let mut entries: Vec<Entry> = Vec::new();
        std::mem::swap(&mut entries, &mut self.entries);
        let previous = match place {
            Some(i) => {
                let old_entry = entries.remove(i);
                entries.insert(i, Entry { name, value });
                proof {
                    lemma_replaced(before, entries@, i as int);
                }
                Some(old_entry.value)
            },
            None => {
                entries.push(Entry { name, value });
                proof {
                    lemma_pushed(before, entries@);
                }
                None
            },
        };
        self.entries = entries;
        previous
    }

    /// Takes the name out of the record, and hands back the value that it
    /// was mapped to.
    pub fn remove(&mut self, name: &str) -> (previous: Option<Value>)
        ensures
            final(self)@ == old(self)@.remove(name@),
            match previous {
                Some(v) => old(self)@.contains_key(name@) && v@ == old(self)@[name@],
                None => !old(self)@.contains_key(name@),
            },
    {
        proof {
            use_type_invariant(&*self);
        }
        let place = self.find(name);
        let ghost before = self.entries@;
        match place {
            Some(i) => {
                let mut entries: Vec<Entry> = Vec::new();
                std::mem::swap(&mut entries, &mut self.entries);
                let old_entry = entries.remove(i);
                proof {
                    lemma_remove(before, entries@, i as int);
                }
                self.entries = entries;
                Some(old_entry.value)
            },
            None => {
                None
            },
        }
    }
}

/// Replacing the value of an entry maps its name to the new value and
/// leaves every other name as it was.
proof fn lemma_replaced(before: Seq<Entry>, after: Seq<Entry>, place: int)
    requires
        distinct(before),
        0 <= place < before.len(),
        after.len() == before.len(),
        after[place].name@ == before[place].name@,
        forall|i: int| 0 <= i < before.len() && i != place ==> after[i] == before[i],
    ensures
        distinct(after),
        entries_view(after) == entries_view(before).insert(
            after[place].name@,
            value_view(after[place].value),
        ),
{
    assert forall|i: int| 0 <= i < before.len() implies (#[trigger] after[i]).name@
        == before[i].name@ by {}
    assert(entries_view(after) =~= entries_view(before).insert(
        after[place].name@,
        value_view(after[place].value),
    ));
}

/// Adding an entry with a new name maps the name to the entry's value and
/// leaves every other name as it was.
proof fn lemma_pushed(before: Seq<Entry>, after: Seq<Entry>)
    requires
        distinct(before),
        after.len() == before.len() + 1,
        forall|i: int| 0 <= i < before.len() ==> after[i] == before[i],
        !entries_view(before).contains_key(after.last().name@),
    ensures
        distinct(after),
        entries_view(after) == entries_view(before).insert(
            after.last().name@,
            value_view(after.last().value),
        ),
{
    assert(entries_view(after) =~= entries_view(before).insert(
        after.last().name@,
        value_view(after.last().value),
    ));
}

/// Taking an entry out takes its name out and leaves every other name as it
/// was.
proof fn lemma_remove(before: Seq<Entry>, after: Seq<Entry>, place: int)
    requires
        distinct(before),
        0 <= place < before.len(),
        after == before.remove(place),
    ensures
        distinct(after),
        entries_view(after) == entries_view(before).remove(before[place].name@),
{
    let name = before[place].name@;
    let lhs = entries_view(after);
    let rhs = entries_view(before).remove(name);
    assert forall|n: Seq<char>| lhs.contains_key(n) <==> rhs.contains_key(n) by {
        if holds(before, n) && n != name {
            let i = slot(before, n);
            let ai = if i < place { i } else { i - 1 };
            assert(after[ai].name@ == n);
        }
    }
}

/// A value in words: an integer in decimal digits, a text between quotation
/// marks, an event as its class id between angle brackets.
pub open spec fn value_text(value: ValueView) -> Seq<char> {
    match value {
        ValueView::U8(v) => decimal(v as nat),
        ValueView::I8(v) => signed_decimal(v as int),
        ValueView::U16(v) => decimal(v as nat),
        ValueView::I16(v) => signed_decimal(v as int),
        ValueView::U32(v) => decimal(v as nat),
        ValueView::I32(v) => signed_decimal(v as int),
        ValueView::U64(v) => decimal(v as nat),
        ValueView::I64(v) => signed_decimal(v as int),
        ValueView::Str(v) => "\""@ + v + "\""@,
        ValueView::Struct(v) => "<Event "@ + decimal(v.klass_id as nat) + ">"@,
    }
}

impl Value {
    /// The value in words.
    pub fn to_string(&self) -> (text: String)
        ensures
            text@ == value_text(self@),
    {
        match self {
            Value::U8(v) => decimal_text(*v as u64),
            Value::I8(v) => signed_decimal_text(*v as i64),
            Value::U16(v) => decimal_text(*v as u64),
            Value::I16(v) => signed_decimal_text(*v as i64),
            Value::U32(v) => decimal_text(*v as u64),
            Value::I32(v) => signed_decimal_text(*v as i64),
            Value::U64(v) => decimal_text(*v),
            Value::I64(v) => signed_decimal_text(*v),
            Value::Str(v) => {
                let mut text = "\"".to_owned();
                text.append(v.as_str());
                text.append("\"");
                text
            },
            Value::Struct(v) => {
                let mut text = "<Event ".to_owned();
                text.append(decimal_text(v.get_klass_id() as u64).as_str());
                text.append(">");
                text
            },
        }
    }
}

/// The record of an event in which every chain of nested `base` events is
/// merged into one level.  Where a name occurs on several levels the outer
/// level's value stays.  A `base` that is no event stays as it is.
pub open spec fn flat_values(values: Map<Seq<char>, ValueView>) -> Map<Seq<char>, ValueView>
    decreases values,
{
    if values.dom().finite() && values.contains_key("base"@) {
        match values["base"@] {
            ValueView::Struct(base) => flat_values(base.values).union_prefer_right(
                values.remove("base"@),
            ),
            _ => values,
        }
    } else {
        values
    }
}

/// Whether the record and every `base` event nested in it hold finitely
/// many names.
pub open spec fn finite_throughout(values: Map<Seq<char>, ValueView>) -> bool
    decreases values,
{
    &&& values.dom().finite()
    &&& values.dom().finite() && values.contains_key("base"@) ==> match values["base"@] {
        ValueView::Struct(base) => finite_throughout(base.values),
        _ => true,
    }
}

/// Flattening keeps every value of the outermost level but its `base`: where
/// a name occurs on several levels, the outermost level's value stays.
pub proof fn lemma_flat_keeps_outermost(values: Map<Seq<char>, ValueView>, name: Seq<char>)
    requires
        values.contains_key(name),
        name != "base"@,
    ensures
        flat_values(values).contains_key(name),
        flat_values(values)[name] == values[name],
{
}

/// Flattening merges the fields of a `base` event into the record: every
/// name of the flattened `base` is a name of the flattened record, with the
/// value from the `base` unless the record itself holds the name.
pub proof fn lemma_flat_merges_base(values: Map<Seq<char>, ValueView>, name: Seq<char>)
    requires
        values.dom().finite(),
        values.contains_key("base"@),
        values["base"@] is Struct,
        flat_values(values["base"@]->Struct_0.values).contains_key(name),
    ensures
        flat_values(values).contains_key(name),
        !values.remove("base"@).contains_key(name) ==> flat_values(values)[name] == flat_values(
            values["base"@]->Struct_0.values,
        )[name],
{
}

/// A flattened record holds no event under `base`: where it holds a `base`
/// at all, that is the `base` of the innermost level, which is no event.
pub proof fn lemma_flat_leaves_no_base_event(values: Map<Seq<char>, ValueView>)
    requires
        finite_throughout(values),
    ensures
        flat_values(values).contains_key("base"@) ==> !(flat_values(values)["base"@] is Struct),
    decreases values,
{
    if values.contains_key("base"@) {
        match values["base"@] {
            ValueView::Struct(base) => {
                lemma_flat_leaves_no_base_event(base.values);
            },
            _ => {},
        }
    }
}

/// The record of an event, and every `base` event nested in it, holds
/// finitely many names.
proof fn lemma_event_finite(event: Event)
    ensures
        finite_throughout(event_view(event).values),
    decreases event,
{
    let entries = event.values.entries@;
    let values = event_view(event).values;
    lemma_finite(entries);
    if values.contains_key("base"@) {
        let i = slot(entries, "base"@);
        match entries[i].value {
            Value::Struct(base) => {
                lemma_event_finite(base);
            },
            _ => {},
        }
    }
}

/// What a typed read reports of a field that is missing or holds a value of
/// another type: the field's name, and which of the two it is.
pub open spec fn read_failure(
    values: Map<Seq<char>, ValueView>,
    name: Seq<char>,
    error: ValueError,
) -> bool {
    &&& error.spec_field() == name
    &&& error.spec_kind() == if values.contains_key(name) {
        ErrorKind::InvalidType
    } else {
        ErrorKind::NotFound
    }
}

impl Event {
    /// An event of the class with the values.
    pub fn new(klass_id: u32, values: Record) -> (event: Event)
        ensures
            event@ == (EventView { klass_id, values: values@ }),
    {
        Event { klass_id, values }
    }

    /// The `u8` that the field holds.
    pub fn get_value_u8(&self, name: &str) -> (value: Result<u8, ValueError>)
        ensures
            match value {
                Ok(v) => self@.values.contains_key(name@) && self@.values[name@] == ValueView::U8(v),
                Err(e) => read_failure(self@.values, name@, e) && !(self@.values.contains_key(name@)
                    && self@.values[name@] is U8),
            },
    {
        match self.values.get(name) {
            Some(value) => {
                if let Value::U8(data) = value {
                    Ok(*data)
                } else {
                    Err(ValueError::new(name, ErrorKind::InvalidType))
                }
            },
            None => Err(ValueError::new(name, ErrorKind::NotFound)),
        }
    }

    /// The `i8` that the field holds.
    pub fn get_value_i8(&self, name: &str) -> (value: Result<i8, ValueError>)
        ensures
            match value {
                Ok(v) => self@.values.contains_key(name@) && self@.values[name@] == ValueView::I8(v),
                Err(e) => read_failure(self@.values, name@, e) && !(self@.values.contains_key(name@)
                    && self@.values[name@] is I8),
            },
    {
        match self.values.get(name) {
            Some(value) => {
                if let Value::I8(data) = value {
                    Ok(*data)
                } else {
                    Err(ValueError::new(name, ErrorKind::InvalidType))
                }
            },
            None => Err(ValueError::new(name, ErrorKind::NotFound)),
        }
    }

    /// The `u16` that the field holds.
    pub fn get_value_u16(&self, name: &str) -> (value: Result<u16, ValueError>)
        ensures
            match value {
                Ok(v) => self@.values.contains_key(name@) && self@.values[name@] == ValueView::U16(v),
                Err(e) => read_failure(self@.values, name@, e) && !(self@.values.contains_key(name@)
                    && self@.values[name@] is U16),
            },
    {
        match self.values.get(name) {
            Some(value) => {
                if let Value::U16(data) = value {
                    Ok(*data)
                } else {
                    Err(ValueError::new(name, ErrorKind::InvalidType))
                }
            },
            None => Err(ValueError::new(name, ErrorKind::NotFound)),
        }
    }

    /// The `i16` that the field holds.
    pub fn get_value_i16(&self, name: &str) -> (value: Result<i16, ValueError>)
        ensures
            match value {
                Ok(v) => self@.values.contains_key(name@) && self@.values[name@] == ValueView::I16(v),
                Err(e) => read_failure(self@.values, name@, e) && !(self@.values.contains_key(name@)
                    && self@.values[name@] is I16),
            },
    {
        match self.values.get(name) {
            Some(value) => {
                if let Value::I16(data) = value {
                    Ok(*data)
                } else {
                    Err(ValueError::new(name, ErrorKind::InvalidType))
                }
            },
            None => Err(ValueError::new(name, ErrorKind::NotFound)),
        }
    }

    /// The `u32` that the field holds.
    pub fn get_value_u32(&self, name: &str) -> (value: Result<u32, ValueError>)
        ensures
            match value {
                Ok(v) => self@.values.contains_key(name@) && self@.values[name@] == ValueView::U32(v),
                Err(e) => read_failure(self@.values, name@, e) && !(self@.values.contains_key(name@)
                    && self@.values[name@] is U32),
            },
    {
        match self.values.get(name) {
            Some(value) => {
                if let Value::U32(data) = value {
                    Ok(*data)
                } else {
                    Err(ValueError::new(name, ErrorKind::InvalidType))
                }
            },
            None => Err(ValueError::new(name, ErrorKind::NotFound)),
        }
    }

    /// The `i32` that the field holds.
    pub fn get_value_i32(&self, name: &str) -> (value: Result<i32, ValueError>)
        ensures
            match value {
                Ok(v) => self@.values.contains_key(name@) && self@.values[name@] == ValueView::I32(v),
                Err(e) => read_failure(self@.values, name@, e) && !(self@.values.contains_key(name@)
                    && self@.values[name@] is I32),
            },
    {
        match self.values.get(name) {
            Some(value) => {
                if let Value::I32(data) = value {
                    Ok(*data)
                } else {
                    Err(ValueError::new(name, ErrorKind::InvalidType))
                }
            },
            None => Err(ValueError::new(name, ErrorKind::NotFound)),
        }
    }

    /// The `u64` that the field holds.
    pub fn get_value_u64(&self, name: &str) -> (value: Result<u64, ValueError>)
        ensures
            match value {
                Ok(v) => self@.values.contains_key(name@) && self@.values[name@] == ValueView::U64(v),
                Err(e) => read_failure(self@.values, name@, e) && !(self@.values.contains_key(name@)
                    && self@.values[name@] is U64),
            },
    {
        match self.values.get(name) {
            Some(value) => {
                if let Value::U64(data) = value {
                    Ok(*data)
                } else {
                    Err(ValueError::new(name, ErrorKind::InvalidType))
                }
            },
            None => Err(ValueError::new(name, ErrorKind::NotFound)),
        }
    }

    /// The `i64` that the field holds.
    pub fn get_value_i64(&self, name: &str) -> (value: Result<i64, ValueError>)
        ensures
            match value {
                Ok(v) => self@.values.contains_key(name@) && self@.values[name@] == ValueView::I64(v),
                Err(e) => read_failure(self@.values, name@, e) && !(self@.values.contains_key(name@)
                    && self@.values[name@] is I64),
            },
    {
        match self.values.get(name) {
            Some(value) => {
                if let Value::I64(data) = value {
                    Ok(*data)
                } else {
                    Err(ValueError::new(name, ErrorKind::InvalidType))
                }
            },
            None => Err(ValueError::new(name, ErrorKind::NotFound)),
        }
    }

    /// The text that the field holds.
    pub fn get_value_string(&self, name: &str) -> (value: Result<&String, ValueError>)
        ensures
            match value {
                Ok(v) => self@.values.contains_key(name@) && self@.values[name@] == ValueView::Str(v@),
                Err(e) => read_failure(self@.values, name@, e) && !(self@.values.contains_key(name@)
                    && self@.values[name@] is Str),
            },
    {
        match self.values.get(name) {
            Some(value) => {
                if let Value::Str(data) = value {
                    Ok(data)
                } else {
                    Err(ValueError::new(name, ErrorKind::InvalidType))
                }
            },
            None => Err(ValueError::new(name, ErrorKind::NotFound)),
        }
    }

    /// The nested event that the field holds.
    pub fn get_value_struct(&self, name: &str) -> (value: Result<&Event, ValueError>)
        ensures
            match value {
                Ok(v) => self@.values.contains_key(name@) && self@.values[name@] == ValueView::Struct(
                    v@,
                ),
                Err(e) => read_failure(self@.values, name@, e) && !(self@.values.contains_key(name@)
                    && self@.values[name@] is Struct),
            },
    {
        match self.values.get(name) {
            Some(value) => {
                if let Value::Struct(data) = value {
                    Ok(data)
                } else {
                    Err(ValueError::new(name, ErrorKind::InvalidType))
                }
            },
            None => Err(ValueError::new(name, ErrorKind::NotFound)),
        }
    }

    /// The value that the field holds.
    pub fn get_raw_value(&self, name: &str) -> (value: Option<&Value>)
        ensures
            match value {
                Some(v) => self@.values.contains_key(name@) && v@ == self@.values[name@],
                None => !self@.values.contains_key(name@),
            },
    {
        self.values.get(name)
    }

    /// The values of all fields.
    pub fn get_all_values(&self) -> (values: &Record)
        ensures
            values@ == self@.values,
    {
        &self.values
    }

    /// The id of the event's class.
    pub fn get_klass_id(&self) -> (klass_id: u32)
        ensures
            klass_id == self@.klass_id,
    {
        self.klass_id
    }

    /// Merges every chain of nested `base` events into one level.
    pub fn flat_event(self) -> (flat: Event)
        ensures
            flat@ == (EventView { klass_id: self@.klass_id, values: flat_values(self@.values) }),
            flat@.values.contains_key("base"@) ==> !(flat@.values["base"@] is Struct),
    {
        proof {
            lemma_event_finite(self);
            lemma_flat_leaves_no_base_event(self@.values);
        }
        let mut new_values = Record::new();
        let klass_id = self.klass_id;
        self.flat_event_internal(&mut new_values);
        assert(new_values@ =~= flat_values(self@.values));
        Event::new(klass_id, new_values)
    }

    /// Adds the merged fields of this event to `new_values`.  A name that
    /// `new_values` maps already keeps its value.
    fn flat_event_internal(self, new_values: &mut Record)
        ensures
            final(new_values)@ == flat_values(self@.values).union_prefer_right(old(new_values)@),
        decreases self,
    {
        let ghost outer = new_values@;
        let Event { klass_id: _, values } = self;
        proof {
            use_type_invariant(&values);
            lemma_count(values.entries@);
        }
        let place = values.find("base");
        let Record { entries } = values;
        let mut entries = entries;
        let ghost all = entries@;
        let base = match place {
            Some(i) => {
                let entry = entries.remove(i);
                proof {
                    lemma_remove(all, entries@, i as int);
                }
                Some(entry.value)
            },
            None => None,
        };
        let ghost rest = entries@;
        while entries.len() > 0
            invariant
                distinct(rest),
                entries@ == rest.take(entries@.len() as int),
                entries@.len() <= rest.len(),
                forall|name: Seq<char>|
                    #![trigger new_values@.contains_key(name)]
                    #![trigger outer.contains_key(name)]
                    new_values@.contains_key(name) <==> outer.contains_key(name) || exists|i: int|
                        entries@.len() <= i < rest.len() && #[trigger] rest[i].name@ == name,
                forall|name: Seq<char>| #[trigger]
                    new_values@.contains_key(name) ==> new_values@[name] == if outer.contains_key(
                        name,
                    ) {
                        outer[name]
                    } else {
                        value_view(rest[slot(rest, name)].value)
                    },
            decreases entries@.len(),
        {
            let entry = entries.pop().unwrap();
            if !new_values.contains_key(entry.name.as_str()) {
                new_values.insert(entry.name, entry.value);
            }
        }
        assert(new_values@ =~= entries_view(rest).union_prefer_right(outer));
        match base {
            Some(Value::Struct(event)) => {
                event.flat_event_internal(new_values);
            },
            Some(other) => {
                if !new_values.contains_key("base") {
                    new_values.insert("base".to_owned(), other);
                }
            },
            None => {},
        }
    }
}

/// Whether two values are the same: the same kind of value, and the same
/// integer, text or event.
fn same_value(a: &Value, b: &Value) -> (same: bool)
    ensures
        same == (a@ == b@),
    decreases a,
{
    match a {
        Value::U8(x) => match b {
            Value::U8(y) => *x == *y,
            _ => false,
        },
        Value::I8(x) => match b {
            Value::I8(y) => *x == *y,
            _ => false,
        },
        Value::U16(x) => match b {
            Value::U16(y) => *x == *y,
            _ => false,
        },
        Value::I16(x) => match b {
            Value::I16(y) => *x == *y,
            _ => false,
        },
        Value::U32(x) => match b {
            Value::U32(y) => *x == *y,
            _ => false,
        },
        Value::I32(x) => match b {
            Value::I32(y) => *x == *y,
            _ => false,
        },
        Value::U64(x) => match b {
            Value::U64(y) => *x == *y,
            _ => false,
        },
        Value::I64(x) => match b {
            Value::I64(y) => *x == *y,
            _ => false,
        },
        Value::Str(x) => match b {
            Value::Str(y) => same_text(x.as_str(), y.as_str()),
            _ => false,
        },
        Value::Struct(x) => match b {
            Value::Struct(y) => same_event(x, y),
            _ => false,
        },
    }
}

/// Whether two events are the same: the same class id, and the same value
/// under every name.
fn same_event(a: &Event, b: &Event) -> (same: bool)
    ensures
        same == (a@ == b@),
    decreases a,
{
    if a.klass_id != b.klass_id {
        return false;
    }
    same_record(&a.values, &b.values)
}

/// Whether two records map the same names to the same values.
fn same_record(a: &Record, b: &Record) -> (same: bool)
    ensures
        same == (a@ == b@),
    decreases a,
{
    proof {
        use_type_invariant(a);
        use_type_invariant(b);
        lemma_count(a.entries@);
        lemma_count(b.entries@);
    }
    if a.entries.len() != b.entries.len() {
        return false;
    }
    let mut i: usize = 0;
    while i < a.entries.len()
        invariant
            i <= a.entries@.len(),
            distinct(a.entries@),
            forall|j: int|
                0 <= j < i ==> b@.contains_key((#[trigger] a.entries@[j]).name@) && b@[a.entries@[j].name@]
                    == value_view(a.entries@[j].value),
        decreases a.entries@.len() - i,
    {
        let entry = &a.entries[i];
        match b.get(entry.name.as_str()) {
            Some(value) => {
                if !same_value(&entry.value, value) {
                    return false;
                }
            },
            None => {
                return false;
            },
        }
        i += 1;
    }
    proof {
        vstd::set_lib::lemma_subset_equality(a@.dom(), b@.dom());
        assert(a@ =~= b@);
    }
    true
}

impl PartialEq for Value {
    fn eq(&self, other: &Value) -> (equal: bool) {
        same_value(self, other)
    }
}

impl vstd::std_specs::cmp::PartialEqSpecImpl for Value {
    open spec fn obeys_eq_spec() -> bool {
        true
    }

    open spec fn eq_spec(&self, other: &Value) -> bool {
        self@ == other@
    }
}

impl PartialEq for Event {
    fn eq(&self, other: &Event) -> (equal: bool) {
        same_event(self, other)
    }
}

impl vstd::std_specs::cmp::PartialEqSpecImpl for Event {
    open spec fn obeys_eq_spec() -> bool {
        true
    }

    open spec fn eq_spec(&self, other: &Event) -> bool {
        self@ == other@
    }
}

impl PartialEq for Record {
    fn eq(&self, other: &Record) -> (equal: bool) {
        same_record(self, other)
    }
}

impl vstd::std_specs::cmp::PartialEqSpecImpl for Record {
    open spec fn obeys_eq_spec() -> bool {
        true
    }

    open spec fn eq_spec(&self, other: &Record) -> bool {
        self@ == other@
    }
}

} // verus!
