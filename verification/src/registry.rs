//! The registry of event classes: every class that the decoder knows, in the
//! order in which the classes were registered.
use crate::event::DataType;
use crate::event_klass::{with_field, EventKlass, FieldView, KlassView};
use crate::text::same_text;
use fnv::FnvHashMap;
use vstd::prelude::*;

verus! {

/// `fnv::FnvHasher`, which hashes the keys of the registry's index.
#[verifier::external_type_specification]
#[verifier::external_body]
pub struct ExFnvHasher(fnv::FnvHasher);

/// `std::hash::BuildHasherDefault`, which builds the hashers of the
/// registry's index.
#[verifier::external_type_specification]
#[verifier::external_body]
#[verifier::reject_recursive_types(H)]
pub struct ExBuildHasherDefault<H>(std::hash::BuildHasherDefault<H>);

/// `HashMap::get` on a `fnv::FnvHashMap`: the value that the key maps to, or
/// nothing where the map lacks the key.  Every `FnvHasher` starts from the
/// same state and folds in the bytes it is given, so that a key is always
/// looked for where it was put.
#[verifier::external_body]
fn index_get(index: &FnvHashMap<u32, usize>, id: u32) -> (place: Option<usize>)
    ensures
        place == if index@.contains_key(id) {
            Some(index@[id])
        } else {
            None
        },
{
    index.get(&id).copied()
}

/// `HashMap::insert` on a `fnv::FnvHashMap`: afterwards the key maps to the
/// value, and every other key is as it was.
#[verifier::external_body]
fn index_insert(index: &mut FnvHashMap<u32, usize>, id: u32, place: usize)
    ensures
        final(index)@ == old(index)@.insert(id, place),
{
    index.insert(id, place);
}

/// The four reserved classes.  Every registry holds them from the start.
#[derive(Copy, Clone)]
pub enum CoreEventKlassId {
    Endianness,
    Base,
    KlassInfo,
    FieldInfo,
}

impl CoreEventKlassId {
    /// The id of the reserved class.
    pub open spec fn spec_id(self) -> u32 {
        match self {
            CoreEventKlassId::Endianness => 0,
            CoreEventKlassId::Base => 1,
            CoreEventKlassId::KlassInfo => 2,
            CoreEventKlassId::FieldInfo => 3,
        }
    }

    /// The id of the reserved class.
    #[verifier::when_used_as_spec(spec_id)]
    pub fn id(self) -> (id: u32)
        ensures
            id == self.spec_id(),
    {
        match self {
            CoreEventKlassId::Endianness => 0,
            CoreEventKlassId::Base => 1,
            CoreEventKlassId::KlassInfo => 2,
            CoreEventKlassId::FieldInfo => 3,
        }
    }

    /// Whether the id is one of the four reserved ids.
    pub open spec fn spec_is_core_klass(klass_id: u32) -> bool {
        klass_id <= 3
    }

    /// Whether the id is one of the four reserved ids.
    #[verifier::when_used_as_spec(spec_is_core_klass)]
    pub fn is_core_klass(klass_id: u32) -> (core: bool)
        ensures
            core == Self::spec_is_core_klass(klass_id),
    {
        let all = [
            CoreEventKlassId::Base,
            CoreEventKlassId::Endianness,
            CoreEventKlassId::FieldInfo,
            CoreEventKlassId::KlassInfo,
        ];
        let mut i: usize = 0;
        while i < 4
            invariant
                i <= 4,
                all[0] == CoreEventKlassId::Base,
                all[1] == CoreEventKlassId::Endianness,
                all[2] == CoreEventKlassId::FieldInfo,
                all[3] == CoreEventKlassId::KlassInfo,
                forall|j: int| 0 <= j < i ==> (#[trigger] all[j]).spec_id() != klass_id,
            decreases 4 - i,
        {
            if all[i].id() == klass_id {
                return true;
            }
            i += 1;
        }
        false
    }
}

/// Whether some class carries the id.
pub open spec fn has_id(klasses: Seq<KlassView>, id: u32) -> bool {
    exists|i: int| 0 <= i < klasses.len() && (#[trigger] klasses[i]).id == id
}

/// The place of a class that carries the id, where there is one.
pub open spec fn place_of_id(klasses: Seq<KlassView>, id: u32) -> int {
    choose|i: int| 0 <= i < klasses.len() && (#[trigger] klasses[i]).id == id
}

/// Whether every id is carried by one class at most.
pub open spec fn ids_distinct(klasses: Seq<KlassView>) -> bool {
    forall|i: int, j: int|
        0 <= i < j < klasses.len() ==> (#[trigger] klasses[i]).id != (#[trigger] klasses[j]).id
}

/// The class that carries the id.
pub open spec fn klass_by_id(klasses: Seq<KlassView>, id: u32) -> Option<KlassView> {
    if has_id(klasses, id) {
        Some(klasses[place_of_id(klasses, id)])
    } else {
        None
    }
}

/// Whether some class carries the name.
pub open spec fn has_name(klasses: Seq<KlassView>, name: Seq<char>) -> bool {
    exists|i: int| 0 <= i < klasses.len() && (#[trigger] klasses[i]).name == name
}

/// Whether the class at `place` is the first that carries the name.
pub open spec fn first_of_name(klasses: Seq<KlassView>, name: Seq<char>, place: int) -> bool {
    &&& 0 <= place < klasses.len()
    &&& klasses[place].name == name
    &&& forall|i: int| 0 <= i < place ==> (#[trigger] klasses[i]).name != name
}

/// The class that was registered first among those that carry the name.
pub open spec fn klass_by_name(klasses: Seq<KlassView>, name: Seq<char>) -> Option<KlassView> {
    if has_name(klasses, name) {
        Some(klasses[choose|place: int| first_of_name(klasses, name, place)])
    } else {
        None
    }
}

/// The classes after one more was registered: an id that is taken already
/// is registered in vain.
pub open spec fn with_klass(klasses: Seq<KlassView>, klass: KlassView) -> Seq<KlassView> {
    if has_id(klasses, klass.id) {
        klasses
    } else {
        klasses.push(klass)
    }
}

/// One field, by its name, the name of its declared type, and its kind.
pub open spec fn field(name: &str, declared_type: &str, data_type: DataType) -> FieldView {
    FieldView { name: name@, declared_type: declared_type@, data_type }
}

/// The reserved class of event headers.
pub open spec fn base_klass() -> KlassView {
    KlassView {
        id: 1,
        name: "HT_Event"@,
        fields: seq![
            field("type", "uint32_t", DataType::U32),
            field("timestamp", "uint64_t", DataType::U64),
            field("id", "uint64_t", DataType::U64),
        ],
    }
}

/// The reserved class that tells the byte order of the stream.
pub open spec fn endianness_klass() -> KlassView {
    KlassView {
        id: 0,
        name: "HT_EndiannessInfoEvent"@,
        fields: seq![field("endianness", "uint8_t", DataType::U8)],
    }
}

/// The reserved class of the events that define a class.
pub open spec fn klass_info_klass() -> KlassView {
    KlassView {
        id: 2,
        name: "HT_EventKlassInfoEvent"@,
        fields: seq![
            field("info_klass_id", "uint32_t", DataType::U32),
            field("event_klass_name", "const char*", DataType::Str),
            field("field_count", "uint8_t", DataType::U8),
        ],
    }
}

/// The reserved class of the events that define a field of a class.
pub open spec fn field_info_klass() -> KlassView {
    KlassView {
        id: 3,
        name: "HT_EventKlassFieldInfoEvent"@,
        fields: seq![
            field("info_klass_id", "uint32_t", DataType::U32),
            field("field_type", "const char*", DataType::Str),
            field("field_name", "const char*", DataType::Str),
            field("size", "uint64_t", DataType::U64),
            field("data_type", "uint8_t", DataType::U8),
        ],
    }
}

/// The classes of a new registry.
pub open spec fn core_klasses() -> Seq<KlassView> {
    seq![base_klass(), endianness_klass(), klass_info_klass(), field_info_klass()]
}

/// The fields of a class on which each of `fields` was declared in turn.
pub open spec fn declared(fields: Seq<(&str, &str, DataType)>) -> Seq<FieldView>
    decreases fields.len(),
{
    if fields.len() == 0 {
        Seq::empty()
    } else {
        with_field(
            declared(fields.drop_last()),
            field(fields.last().0, fields.last().1, fields.last().2),
        )
    }
}

/// All known classes.  Classes are only ever added, and an id that is taken
/// stays with the class that took it first.  The classes stand in the order
/// of their registration; an index from ids to places finds a class by its
/// id in one step.
pub struct EventKlassRegistry {
    klasses: Vec<EventKlass>,
    index: FnvHashMap<u32, usize>,
}

impl View for EventKlassRegistry {
    type V = Seq<KlassView>;

    closed spec fn view(&self) -> Seq<KlassView> {
        Seq::new(self.klasses@.len(), |i: int| self.klasses@[i]@)
    }
}

impl EventKlassRegistry {
    /// Whether the registry finds every class under its id, and under no
    /// other.
    pub closed spec fn wf(&self) -> bool {
        &&& forall|id: u32| #[trigger]
            self.index@.contains_key(id) ==> self.index@[id] < self.klasses@.len()
                && self.klasses@[self.index@[id] as int]@.id == id
        &&& forall|i: int|
            0 <= i < self.klasses@.len() ==> self.index@.contains_key(
                (#[trigger] self.klasses@[i])@.id,
            ) && self.index@[self.klasses@[i]@.id] == i
    }

    /// In a well-formed registry no two classes carry the same id.
    pub proof fn lemma_ids_distinct(&self)
        requires
            self.wf(),
        ensures
            ids_distinct(self@),
    {
    }

    /// A registry that holds the four reserved classes.
    pub fn new() -> (registry: EventKlassRegistry)
        ensures
            registry.wf(),
            registry@ == core_klasses(),
    {
        let mut reg = EventKlassRegistry { klasses: Vec::new(), index: FnvHashMap::default() };
        assert(reg@ =~= Seq::empty());
        reg.create_core_klasses();
        reg
    }

    /// Registers one reserved class with the fields, declared in turn.
    fn create_core_klass(
        &mut self,
        klass_id: CoreEventKlassId,
        klass_name: &str,
        fields: &[(&str, &str, DataType)],
    )
        requires
            old(self).wf(),
        ensures
            final(self).wf(),
            final(self)@ == with_klass(
                old(self)@,
                KlassView { id: klass_id.spec_id(), name: klass_name@, fields: declared(fields@) },
            ),
    {
        let mut klass = EventKlass::new(klass_id.id(), klass_name.to_owned());
        let mut i: usize = 0;
        while i < fields.len()
            invariant
                i <= fields@.len(),
                klass@.id == klass_id.spec_id(),
                klass@.name == klass_name@,
                klass@.fields == declared(fields@.take(i as int)),
            decreases fields@.len() - i,
        {
            let (name, declared_type, data_type) = fields[i];
            klass.add_field(name.to_owned(), declared_type.to_owned(), data_type);
            assert(fields@.take(i + 1).drop_last() == fields@.take(i as int));
            i += 1;
        }
        assert(fields@.take(i as int) == fields@);
        self.add_klass(klass);
    }

    /// Registers the four reserved classes.
    fn create_core_klasses(&mut self)
        requires
            old(self).wf(),
            old(self)@ == Seq::<KlassView>::empty(),
        ensures
            final(self).wf(),
            final(self)@ == core_klasses(),
    {
        let base = [
            ("type", "uint32_t", DataType::U32),
            ("timestamp", "uint64_t", DataType::U64),
            ("id", "uint64_t", DataType::U64),
        ];
        proof {
            reveal_strlit("type");
            reveal_strlit("timestamp");
            reveal_strlit("id");
            assert(base@[0].0@.len() == 4 && base@[1].0@.len() == 9 && base@[2].0@.len() == 2);
            lemma_declared(base@);
            assert(declared(base@) =~= base_klass().fields);
        }
        self.create_core_klass(CoreEventKlassId::Base, "HT_Event", &base);

        let endianness = [("endianness", "uint8_t", DataType::U8)];
        proof {
            lemma_declared(endianness@);
            assert(declared(endianness@) =~= endianness_klass().fields);
        }
        self.create_core_klass(CoreEventKlassId::Endianness, "HT_EndiannessInfoEvent", &endianness);

        let klass_info = [
            ("info_klass_id", "uint32_t", DataType::U32),
            ("event_klass_name", "const char*", DataType::Str),
            ("field_count", "uint8_t", DataType::U8),
        ];
        proof {
            reveal_strlit("info_klass_id");
            reveal_strlit("event_klass_name");
            reveal_strlit("field_count");
            assert(klass_info@[0].0@.len() == 13 && klass_info@[1].0@.len() == 16
                && klass_info@[2].0@.len() == 11);
            lemma_declared(klass_info@);
            assert(declared(klass_info@) =~= klass_info_klass().fields);
        }
        self.create_core_klass(CoreEventKlassId::KlassInfo, "HT_EventKlassInfoEvent", &klass_info);

        let field_info = [
            ("info_klass_id", "uint32_t", DataType::U32),
            ("field_type", "const char*", DataType::Str),
            ("field_name", "const char*", DataType::Str),
            ("size", "uint64_t", DataType::U64),
            ("data_type", "uint8_t", DataType::U8),
        ];
        proof {
            reveal_strlit("field_type");
            reveal_strlit("field_name");
            reveal_strlit("size");
            reveal_strlit("data_type");
            assert(field_info@[0].0@.len() == 13 && field_info@[1].0@.len() == 10
                && field_info@[2].0@.len() == 10 && field_info@[3].0@.len() == 4
                && field_info@[4].0@.len() == 9);
            assert(field_info@[1].0@[6] == 't' && field_info@[2].0@[6] == 'n');
            lemma_declared(field_info@);
            assert(declared(field_info@) =~= field_info_klass().fields);
        }
        self.create_core_klass(
            CoreEventKlassId::FieldInfo,
            "HT_EventKlassFieldInfoEvent",
            &field_info,
        );
    }

    /// The number of classes.
    pub fn len(&self) -> (len: usize)
        ensures
            len == self@.len(),
    {
        self.klasses.len()
    }

    /// The class that was registered as the `place`-th.
    pub fn get_klass_at(&self, place: usize) -> (klass: &EventKlass)
        requires
            place < self@.len(),
        ensures
            klass@ == self@[place as int],
    {
        &self.klasses[place]
    }

    /// Registers the class, unless a class with its id is registered
    /// already: the first registration stays.
    pub fn add_klass(&mut self, klass: EventKlass)
        requires
            old(self).wf(),
        ensures
            final(self).wf(),
            final(self)@ == with_klass(old(self)@, klass@),
    {
        let id = klass.get_id();
        let ghost before = self@;
        if index_get(&self.index, id).is_some() {
            proof {
                let i = self.index@[id] as int;
                assert(before[i].id == id);
            }
        } else {
            index_insert(&mut self.index, id, self.klasses.len());
            self.klasses.push(klass);
        }
    }

    /// The class that carries the id.
    pub fn get_klass_by_id(&self, id: u32) -> (klass: Option<&EventKlass>)
        requires
            self.wf(),
        ensures
            match klass {
                Some(k) => Some(k@) == klass_by_id(self@, id),
                None => klass_by_id(self@, id) is None,
            },
    {
        match index_get(&self.index, id) {
            Some(i) => {
                proof {
                    assert(self@[i as int].id == id);
                }
                Some(&self.klasses[i])
            },
            None => None,
        }
    }

    /// The class that carries the id, to be changed in place.  The registry
    /// stays well-formed as long as the class keeps its id.
    pub fn get_klass_by_id_mut(&mut self, id: u32) -> (klass: Option<&mut EventKlass>)
        requires
            old(self).wf(),
        ensures
            match klass {
                Some(k) => {
                    &&& Some(k@) == klass_by_id(old(self)@, id)
                    &&& final(self)@ == old(self)@.update(place_of_id(old(self)@, id), final(k)@)
                    &&& final(k)@.id == id ==> final(self).wf()
                },
                None => klass_by_id(old(self)@, id) is None && *final(self) == *old(self),
            },
    {
        match index_get(&self.index, id) {
            Some(i) => {
                proof {
                    assert(self@[i as int].id == id);
                }
                Some(&mut self.klasses[i])
            },
            None => None,
        }
    }

    /// The class that was registered first among those that carry the name.
    pub fn get_klass_by_name(&self, name: &str) -> (klass: Option<&EventKlass>)
        ensures
            match klass {
                Some(k) => Some(k@) == klass_by_name(self@, name@),
                None => klass_by_name(self@, name@) is None,
            },
    {
        let mut i: usize = 0;
        while i < self.klasses.len()
            invariant
                i <= self.klasses@.len(),
                forall|j: int| 0 <= j < i ==> (#[trigger] self@[j]).name != name@,
            decreases self.klasses@.len() - i,
        {
            let klass = &self.klasses[i];
            if same_text(klass.get_name().as_str(), name) {
                proof {
                    assert(first_of_name(self@, name@, i as int));
                }
                return Some(klass);
            }
            i += 1;
        }
        None
    }
}

/// The classes of a new registry hold each of the four reserved classes
/// under its id.
pub proof fn lemma_core_klasses_present()
    ensures
        klass_by_id(core_klasses(), CoreEventKlassId::Endianness.spec_id()) == Some(
            endianness_klass(),
        ),
        klass_by_id(core_klasses(), CoreEventKlassId::Base.spec_id()) == Some(base_klass()),
        klass_by_id(core_klasses(), CoreEventKlassId::KlassInfo.spec_id()) == Some(
            klass_info_klass(),
        ),
        klass_by_id(core_klasses(), CoreEventKlassId::FieldInfo.spec_id()) == Some(
            field_info_klass(),
        ),
        ids_distinct(core_klasses()),
{
}

/// Registering a class leaves every class that was registered before as
/// it was, under its id and at its place.
pub proof fn lemma_with_klass_keeps(klasses: Seq<KlassView>, klass: KlassView, id: u32)
    requires
        ids_distinct(klasses),
        has_id(klasses, id),
    ensures
        ids_distinct(with_klass(klasses, klass)),
        klass_by_id(with_klass(klasses, klass), id) == klass_by_id(klasses, id),
{
    if !has_id(klasses, klass.id) {
        let after = klasses.push(klass);
        let before = place_of_id(klasses, id);
        assert(after[before].id == id);
        assert(after[place_of_id(after, id)].id == id);
    }
}

/// A class that is registered under an id that was free is found under its
/// id, and under its name unless an earlier class has that name.
pub proof fn lemma_with_klass_finds(klasses: Seq<KlassView>, klass: KlassView)
    requires
        !has_id(klasses, klass.id),
    ensures
        klass_by_id(with_klass(klasses, klass), klass.id) == Some(klass),
        klass_by_name(with_klass(klasses, klass), klass.name) is Some,
        klass_by_name(with_klass(klasses, klass), klass.name)->0.name == klass.name,
        !has_name(klasses, klass.name) ==> klass_by_name(with_klass(klasses, klass), klass.name)
            == Some(klass),
{
    let after = klasses.push(klass);
    let last = klasses.len() as int;
    assert(after[last] == klass);
    lemma_first_of_name(after, klass.name, last);
}

/// Among the classes that carry a name there is a first one.
pub proof fn lemma_first_of_name(klasses: Seq<KlassView>, name: Seq<char>, place: int)
    requires
        0 <= place < klasses.len(),
        klasses[place].name == name,
    ensures
        has_name(klasses, name),
        exists|first: int| first <= place && first_of_name(klasses, name, first),
    decreases place,
{
    if exists|i: int| 0 <= i < place && (#[trigger] klasses[i]).name == name {
        let i = choose|i: int| 0 <= i < place && (#[trigger] klasses[i]).name == name;
        lemma_first_of_name(klasses, name, i);
    } else {
        assert(first_of_name(klasses, name, place));
    }
}

/// Fields with names of their own are declared as they stand.
proof fn lemma_declared(fields: Seq<(&str, &str, DataType)>)
    requires
        forall|i: int, j: int|
            0 <= i < j < fields.len() ==> (#[trigger] fields[i]).0@ != (#[trigger] fields[j]).0@,
    ensures
        declared(fields) == Seq::new(
            fields.len(),
            |i: int| field(fields[i].0, fields[i].1, fields[i].2),
        ),
    decreases fields.len(),
{
    if fields.len() > 0 {
        lemma_declared(fields.drop_last());
    }
}

impl Default for EventKlassRegistry {
    /// A registry that holds the four reserved classes.
    fn default() -> (registry: EventKlassRegistry)
        ensures
            registry.wf(),
            registry@ == core_klasses(),
    {
        EventKlassRegistry::new()
    }
}

} // verus!
