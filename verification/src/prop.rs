//! Object definitions: the class a game object belongs to and its properties.
//!
//! The payload of a definition chunk is itself a sequence of chunks whose
//! meaning lies in their position: the first holds the base class, the second
//! the name of the definition, and the property records follow.

use vstd::prelude::*;
use vstd::slice::{slice_subrange, slice_to_vec};
use vstd::string::StringExecFns;
use vstd::utf8::{decode_utf8, valid_utf8};
use crate::prop::constants::{is_class_label, property_name, spec_is_class_label, spec_property_name};
use crate::text::{
    c_string, c_text, is_u64_text, same_text, string_from_utf8, strip_nuls, without_nuls, writes_u64,
};
use crate::ucfb::{raw_chunks, spec_extract, split_payload, tag_is, Chunk, RawChunk, UCFBError};
use crate::wire::{le_u32, read_le_u32};

pub mod constants;

verus! {

/// The kinds of object definition, one for each tag that marks one.
#[derive(Debug, Clone, Copy, PartialEq, Eq, Structural)]
pub enum PropertyContainerTypes {
    /// A game object, tag `entc`.
    GameObjectClass,
    /// An explosion, tag `expc`.
    ExplosionClass,
    /// An ordnance, tag `ordc`.
    OrdnanceClass,
    /// A weapon, tag `wpnc`.
    WeaponClass,
}

/// How a definition relates to its base: the base is either a class that the
/// engine defines, or another definition that this one inherits from.
#[derive(Debug)]
pub enum ClassRelation {
    /// The definition is a root: its base is this class label.
    ClassLabel(String),
    /// The definition inherits from the definition of this name.
    ClassParent(String),
}

/// An object definition.
#[derive(Debug)]
pub struct PropertyContainer {
    /// The kind of definition.
    pub kind: PropertyContainerTypes,
    /// The properties, each name once, in the order in which the names first
    /// came up.
    pub properties: Vec<(String, String)>,
    /// The name of the definition.
    pub name: String,
    /// The relation to the base class.
    pub relation: ClassRelation,
}

/// What can go wrong when an object definition is decoded.
#[derive(Debug, Clone, Copy, PartialEq, Eq, Structural)]
pub enum PropertyError {
    /// The payload does not split into chunks.
    ChunkParseError(UCFBError),
    /// The chunk does not carry the tag of an object definition.
    NotAProperty,
    /// A positional chunk is missing or is no NUL-terminated text, or a
    /// property record is cut short, is no UTF-8, or has an unknown key.
    CorruptedProperty,
}

/// The relation of a definition, as mathematical text.
pub enum RelationModel {
    ClassLabel(Seq<char>),
    ClassParent(Seq<char>),
}

/// An object definition, as mathematical values.
pub struct PropertyModel {
    pub kind: PropertyContainerTypes,
    pub properties: Seq<(Seq<char>, Seq<char>)>,
    pub name: Seq<char>,
    pub relation: RelationModel,
}

/// Tag of a game object definition, the ASCII letters `entc`.
pub const GAME_OBJECT_TAG: [u8; 4] = [0x65, 0x6E, 0x74, 0x63];

/// Tag of an explosion definition, the ASCII letters `expc`.
pub const EXPLOSION_TAG: [u8; 4] = [0x65, 0x78, 0x70, 0x63];

/// Tag of an ordnance definition, the ASCII letters `ordc`.
pub const ORDNANCE_TAG: [u8; 4] = [0x6F, 0x72, 0x64, 0x63];

/// Tag of a weapon definition, the ASCII letters `wpnc`.
pub const WEAPON_TAG: [u8; 4] = [0x77, 0x70, 0x6E, 0x63];

/// Tag of a property record, the ASCII letters `PROP`.
pub const RECORD_TAG: [u8; 4] = [0x50, 0x52, 0x4F, 0x50];

/// Position of the chunk that holds the base class.
pub const BASE_INDEX: usize = 0;

/// Position of the chunk that holds the name of the definition.
pub const TYPE_INDEX: usize = 1;

/// Position of the first property record.
pub const FIRST_RECORD_INDEX: usize = 2;

/// The kind of definition that `tag` marks, if it marks one.
pub open spec fn kind_of_tag(tag: [u8; 4]) -> Option<PropertyContainerTypes> {
    if tag == GAME_OBJECT_TAG {
        Some(PropertyContainerTypes::GameObjectClass)
    } else if tag == EXPLOSION_TAG {
        Some(PropertyContainerTypes::ExplosionClass)
    } else if tag == ORDNANCE_TAG {
        Some(PropertyContainerTypes::OrdnanceClass)
    } else if tag == WEAPON_TAG {
        Some(PropertyContainerTypes::WeaponClass)
    } else {
        None
    }
}

/// The relation that the base text `base` stands for: a class label where
/// the table of labels holds it, the name of a parent otherwise.
pub open spec fn relation_of(base: Seq<char>) -> RelationModel {
    if spec_is_class_label(base) {
        RelationModel::ClassLabel(base)
    } else {
        RelationModel::ClassParent(base)
    }
}

/// Name and value of the property record with payload `data`: the first four
/// bytes are the key of the name, the others the value as UTF-8, from which
/// every NUL is dropped. `None` where the payload is shorter than the key,
/// the value is no UTF-8, or the table does not hold the key.
pub open spec fn spec_record(data: Seq<u8>) -> Option<(Seq<char>, Seq<char>)> {
    if data.len() < 4 || !valid_utf8(data.skip(4)) {
        None
    } else {
        match spec_property_name(le_u32(data, 0)) {
            Some(name) => Some((name, without_nuls(decode_utf8(data.skip(4))))),
            None => None,
        }
    }
}

/// Whether `at` is the first position of `properties` that holds `name`.
pub open spec fn is_first_entry(properties: Seq<(Seq<char>, Seq<char>)>, name: Seq<char>, at: int) -> bool {
    &&& 0 <= at < properties.len()
    &&& properties[at].0 == name
    &&& forall|j: int| 0 <= j < at ==> (#[trigger] properties[j]).0 != name
}

/// Whether `properties` holds `name`.
pub open spec fn has_entry(properties: Seq<(Seq<char>, Seq<char>)>, name: Seq<char>) -> bool {
    exists|at: int| is_first_entry(properties, name, at)
}

/// The first position of `properties` that holds `name`.
pub open spec fn entry_index(properties: Seq<(Seq<char>, Seq<char>)>, name: Seq<char>) -> int
    recommends
        has_entry(properties, name),
{
    choose|at: int| is_first_entry(properties, name, at)
}

/// `properties` with `name` set to `value`: a name that is there keeps its
/// place and takes the new value, a new name goes to the end.
pub open spec fn put(properties: Seq<(Seq<char>, Seq<char>)>, name: Seq<char>, value: Seq<char>) -> Seq<
    (Seq<char>, Seq<char>),
> {
    if has_entry(properties, name) {
        properties.update(entry_index(properties, name), (name, value))
    } else {
        properties.push((name, value))
    }
}

/// The properties after the records of `chunks` from `from` on are put into
/// `properties`. The records end at the first chunk that is missing or does
/// not carry the record tag. `None` where one of them cannot be read.
pub open spec fn spec_records(
    chunks: Seq<RawChunk>,
    from: int,
    properties: Seq<(Seq<char>, Seq<char>)>,
) -> Option<Seq<(Seq<char>, Seq<char>)>>
    decreases chunks.len() - from,
{
    if from < 0 || from >= chunks.len() || chunks[from].header.name != RECORD_TAG {
        Some(properties)
    } else {
        match spec_record(chunks[from].data) {
            Some((name, value)) => spec_records(chunks, from + 1, put(properties, name, value)),
            None => None,
        }
    }
}

/// The object definition held by a chunk with tag `tag` and payload `data`.
pub open spec fn spec_property(tag: [u8; 4], data: Seq<u8>) -> Result<PropertyModel, PropertyError> {
    match kind_of_tag(tag) {
        None => Err(PropertyError::NotAProperty),
        Some(kind) => match spec_extract(data) {
            Err(e) => Err(PropertyError::ChunkParseError(e)),
            Ok(chunks) => if chunks.len() < 2 {
                Err(PropertyError::CorruptedProperty)
            } else {
                match (
                    c_text(chunks[BASE_INDEX as int].data),
                    c_text(chunks[TYPE_INDEX as int].data),
                    spec_records(chunks, FIRST_RECORD_INDEX as int, Seq::empty()),
                ) {
                    (Some(base), Some(name), Some(properties)) => Ok(
                        PropertyModel { kind, properties, name, relation: relation_of(base) },
                    ),
                    _ => Err(PropertyError::CorruptedProperty),
                }
            },
        },
    }
}

/// The name of a kind, as the definition text writes it.
pub open spec fn kind_name(kind: PropertyContainerTypes) -> Seq<char> {
    match kind {
        PropertyContainerTypes::GameObjectClass => "GameObjectClass"@,
        PropertyContainerTypes::ExplosionClass => "ExplosionClass"@,
        PropertyContainerTypes::OrdnanceClass => "OrdnanceClass"@,
        PropertyContainerTypes::WeaponClass => "WeaponClass"@,
    }
}

/// The line that states the relation to the base class.
pub open spec fn relation_line(relation: RelationModel) -> Seq<char> {
    match relation {
        RelationModel::ClassLabel(text) => "ClassLabel = "@ + text,
        RelationModel::ClassParent(text) => "ClassParent = "@ + text,
    }
}

/// A value as the definition text shows it: bare where it writes a `u64`, in
/// double quotes otherwise.
pub open spec fn shown_value(value: Seq<char>) -> Seq<char> {
    if is_u64_text(value) {
        value
    } else {
        "\""@ + value + "\""@
    }
}

/// The lines of one property.
pub open spec fn property_line(name: Seq<char>, value: Seq<char>) -> Seq<char> {
    "\n"@ + name + " = "@ + shown_value(value) + "\n"@
}

/// The lines of the geometry name, which stand in front of the other
/// properties; nothing where the definition has none.
pub open spec fn geometry_line(properties: Seq<(Seq<char>, Seq<char>)>) -> Seq<char> {
    if has_entry(properties, "GeometryName"@) {
        "\nGeometryName = "@ + properties[entry_index(properties, "GeometryName"@)].1 + "\n"@
    } else {
        Seq::empty()
    }
}

/// The lines of every property but the geometry name, in the order of the
/// list.
pub open spec fn property_lines(properties: Seq<(Seq<char>, Seq<char>)>) -> Seq<char>
    decreases properties.len(),
{
    if properties.len() == 0 {
        Seq::empty()
    } else if properties.last().0 == "GeometryName"@ {
        property_lines(properties.drop_last())
    } else {
        property_lines(properties.drop_last()) + property_line(
            properties.last().0,
            properties.last().1,
        )
    }
}

/// The definition text of an object definition: the kind in brackets, the
/// relation to the base, the geometry name if there is one, and under the
/// heading `[Properties]` the other properties.
pub open spec fn spec_odf(definition: PropertyModel) -> Seq<char> {
    "["@ + kind_name(definition.kind) + "]\n\n"@ + relation_line(definition.relation) + "\n"@
        + geometry_line(definition.properties) + "\n[Properties]\n\n"@ + property_lines(
        definition.properties,
    )
}

/// No name occurs twice in `properties`.
pub open spec fn unique_names(properties: Seq<(Seq<char>, Seq<char>)>) -> bool {
    forall|i: int, j: int|
        0 <= i < j < properties.len() ==> (#[trigger] properties[i]).0 != (
        #[trigger] properties[j]).0
}

/// The value that `properties` holds for `name`, if it holds the name.
pub open spec fn lookup(properties: Seq<(Seq<char>, Seq<char>)>, name: Seq<char>) -> Option<
    Seq<char>,
> {
    if has_entry(properties, name) {
        Some(properties[entry_index(properties, name)].1)
    } else {
        None
    }
}

/// Names and values of a list of properties, as mathematical text.
pub open spec fn pairs_of(properties: Seq<(String, String)>) -> Seq<(Seq<char>, Seq<char>)> {
    properties.map_values(|p: (String, String)| (p.0@, p.1@))
}

impl View for ClassRelation {
    type V = RelationModel;

    open spec fn view(&self) -> RelationModel {
        match self {
            ClassRelation::ClassLabel(text) => RelationModel::ClassLabel(text@),
            ClassRelation::ClassParent(text) => RelationModel::ClassParent(text@),
        }
    }
}

impl View for PropertyContainer {
    type V = PropertyModel;

    open spec fn view(&self) -> PropertyModel {
        PropertyModel {
            kind: self.kind,
            properties: pairs_of(self.properties@),
            name: self.name@,
            relation: self.relation@,
        }
    }
}

/// Whether `result` is what decoding a chunk with tag `tag` and payload
/// `data` gives: the definition that the bytes hold, or the error that they
/// call for.
pub open spec fn decoded_as(
    tag: [u8; 4],
    data: Seq<u8>,
    result: Result<PropertyContainer, PropertyError>,
) -> bool {
    match result {
        Ok(container) => spec_property(tag, data) == Ok::<PropertyModel, PropertyError>(
            container@,
        ),
        Err(e) => spec_property(tag, data) == Err::<PropertyModel, PropertyError>(e),
    }
}

/// The kind of definition that a tag marks.
fn kind_of(tag: &[u8; 4]) -> (kind: Option<PropertyContainerTypes>)
    ensures
        kind == kind_of_tag(*tag),
{
    if tag_is(tag, &GAME_OBJECT_TAG) {
        Some(PropertyContainerTypes::GameObjectClass)
    } else if tag_is(tag, &EXPLOSION_TAG) {
        Some(PropertyContainerTypes::ExplosionClass)
    } else if tag_is(tag, &ORDNANCE_TAG) {
        Some(PropertyContainerTypes::OrdnanceClass)
    } else if tag_is(tag, &WEAPON_TAG) {
        Some(PropertyContainerTypes::WeaponClass)
    } else {
        None
    }
}

/// Reads one property record.
fn read_record(data: &[u8]) -> (record: Option<(String, String)>)
    ensures
        match record {
            Some(r) => spec_record(data@) == Some((r.0@, r.1@)),
            None => spec_record(data@) is None,
        },
{
    if data.len() < 4 {
        return None;
    }
    let key: u32 = read_le_u32(data, 0);
    let stored = slice_to_vec(slice_subrange(data, 4, data.len()));
    assert(stored@ =~= data@.skip(4));
    let value = match string_from_utf8(stored) {
        Some(text) => strip_nuls(text.as_str()),
        None => {
            return None;
        },
    };
    match property_name(key) {
        Some(name) => Some((String::from_str(name), value)),
        None => None,
    }
}

/// Sets `name` to `value` in `properties`.
fn put_property(properties: &mut Vec<(String, String)>, name: String, value: String)
    ensures
        pairs_of(final(properties)@) == put(pairs_of(old(properties)@), name@, value@),
{
    let ghost before = pairs_of(properties@);
    let mut i: usize = 0;
    while i < properties.len()
        invariant
            i <= properties@.len(),
            properties@ == old(properties)@,
            before == pairs_of(properties@),
            forall|j: int| 0 <= j < i ==> (#[trigger] before[j]).0 != name@,
        decreases properties@.len() - i,
    {
        if same_text(properties[i].0.as_str(), name.as_str()) {
            assert(before[i as int].0 == name@);
            assert(is_first_entry(before, name@, i as int));
            properties[i] = (name, value);
            assert(pairs_of(properties@) =~= before.update(i as int, (name@, value@)));
            return;
        }
        assert(before[i as int].0 != name@);
        i += 1;
    }
    assert(!has_entry(before, name@));
    properties.push((name, value));
    assert(pairs_of(properties@) =~= before.push((name@, value@)));
}

/// Reads the property records of a definition: the chunks from the first
/// record position on, as far as they carry the record tag.
fn read_records(chunks: &Vec<Chunk>) -> (properties: Option<Vec<(String, String)>>)
    requires
        chunks@.len() >= 2,
    ensures
        match properties {
            Some(p) => spec_records(raw_chunks(chunks@), 2, Seq::empty()) == Some(pairs_of(p@)),
            None => spec_records(raw_chunks(chunks@), 2, Seq::empty()) is None,
        },
{
    let ghost raw = raw_chunks(chunks@);
    let mut properties: Vec<(String, String)> = Vec::new();
    let mut index: usize = FIRST_RECORD_INDEX;
    assert(pairs_of(properties@) =~= Seq::<(Seq<char>, Seq<char>)>::empty());
    while index < chunks.len()
        invariant
            2 <= index <= chunks@.len(),
            raw == raw_chunks(chunks@),
            spec_records(raw, 2, Seq::empty()) == spec_records(
                raw,
                index as int,
                pairs_of(properties@),
            ),
        decreases chunks@.len() - index,
    {
        let chunk = &chunks[index];
        assert(raw[index as int] == chunk.raw());
        if !tag_is(&chunk.header.name, &RECORD_TAG) {
            return Some(properties);
        }
        let ghost before = pairs_of(properties@);
        let record = match read_record(chunk.data.as_slice()) {
            Some(record) => record,
            None => {
                return None;
            },
        };
        let ghost name = record.0@;
        let ghost value = record.1@;
        assert(spec_records(raw, index as int, before) == spec_records(
            raw,
            index + 1,
            put(before, name, value),
        ));
        put_property(&mut properties, record.0, record.1);
        index += 1;
    }
    Some(properties)
}

/// The name of a kind.
fn kind_text(kind: PropertyContainerTypes) -> (name: &'static str)
    ensures
        name@ == kind_name(kind),
{
    match kind {
        PropertyContainerTypes::GameObjectClass => "GameObjectClass",
        PropertyContainerTypes::ExplosionClass => "ExplosionClass",
        PropertyContainerTypes::OrdnanceClass => "OrdnanceClass",
        PropertyContainerTypes::WeaponClass => "WeaponClass",
    }
}

/// Appends the line that states the relation to the base class.
fn append_relation_line(text: &mut String, relation: &ClassRelation)
    ensures
        final(text)@ == old(text)@ + relation_line(relation@),
{
    match relation {
        ClassRelation::ClassLabel(base) => {
            text.append("ClassLabel = ");
            text.append(base.as_str());
            assert(text@ =~= old(text)@ + relation_line(relation@));
        },
        ClassRelation::ClassParent(base) => {
            text.append("ClassParent = ");
            text.append(base.as_str());
            assert(text@ =~= old(text)@ + relation_line(relation@));
        },
    }
}

/// Appends the lines of one property.
fn append_property_line(text: &mut String, name: &str, value: &str)
    ensures
        final(text)@ == old(text)@ + property_line(name@, value@),
{
    text.append("\n");
    text.append(name);
    text.append(" = ");
    if writes_u64(value) {
        text.append(value);
    } else {
        text.append("\"");
        text.append(value);
        text.append("\"");
    }
    text.append("\n");
    assert(text@ =~= old(text)@ + property_line(name@, value@));
}

/// Appends the lines of the geometry name, if the properties hold one.
fn append_geometry_line(text: &mut String, properties: &Vec<(String, String)>)
    ensures
        final(text)@ == old(text)@ + geometry_line(pairs_of(properties@)),
{
    let ghost pairs = pairs_of(properties@);
    let mut i: usize = 0;
    while i < properties.len()
        invariant
            i <= properties@.len(),
            pairs == pairs_of(properties@),
            text@ == old(text)@,
            forall|j: int| 0 <= j < i ==> (#[trigger] pairs[j]).0 != "GeometryName"@,
        decreases properties@.len() - i,
    {
        if same_text(properties[i].0.as_str(), "GeometryName") {
            assert(pairs[i as int].0 == "GeometryName"@);
            assert(is_first_entry(pairs, "GeometryName"@, i as int));
            text.append("\nGeometryName = ");
            text.append(properties[i].1.as_str());
            text.append("\n");
            assert(text@ =~= old(text)@ + geometry_line(pairs));
            return;
        }
        assert(pairs[i as int].0 != "GeometryName"@);
        i += 1;
    }
    assert(!has_entry(pairs, "GeometryName"@));
    assert(text@ =~= old(text)@ + geometry_line(pairs));
}

/// Appends the lines of every property but the geometry name.
fn append_property_lines(text: &mut String, properties: &Vec<(String, String)>)
    ensures
        final(text)@ == old(text)@ + property_lines(pairs_of(properties@)),
{
    let ghost pairs = pairs_of(properties@);
    let mut i: usize = 0;
    assert(pairs.take(0) =~= Seq::<(Seq<char>, Seq<char>)>::empty());
    assert(text@ =~= old(text)@ + property_lines(pairs.take(0)));
    while i < properties.len()
        invariant
            i <= properties@.len(),
            pairs == pairs_of(properties@),
            text@ == old(text)@ + property_lines(pairs.take(i as int)),
        decreases properties@.len() - i,
    {
        let ghost before = text@;
        let property = &properties[i];
        proof {
            let upto = pairs.take(i + 1);
            assert(upto.drop_last() =~= pairs.take(i as int));
            assert(upto.last() == (property.0@, property.1@));
        }
        if !same_text(property.0.as_str(), "GeometryName") {
            append_property_line(text, property.0.as_str(), property.1.as_str());
            assert(text@ =~= old(text)@ + property_lines(pairs.take(i + 1)));
        }
        i += 1;
    }
    assert(pairs.take(properties@.len() as int) =~= pairs);
}

impl Clone for ClassRelation {
    /// A copy that states the same relation to the same base.
    fn clone(&self) -> (copy: Self)
        ensures
            copy@ == self@,
    {
        match self {
            ClassRelation::ClassLabel(text) => ClassRelation::ClassLabel(text.clone()),
            ClassRelation::ClassParent(text) => ClassRelation::ClassParent(text.clone()),
        }
    }
}

impl Clone for PropertyContainer {
    /// A copy of the same kind, with the same name, relation and properties.
    fn clone(&self) -> (copy: Self)
        ensures
            copy@ == self@,
    {
        let mut properties: Vec<(String, String)> = Vec::new();
        let mut i: usize = 0;
        while i < self.properties.len()
            invariant
                i <= self.properties@.len(),
                properties@.len() == i,
                forall|j: int|
                    0 <= j < i ==> (#[trigger] properties@[j]).0@ == self.properties@[j].0@
                        && properties@[j].1@ == self.properties@[j].1@,
            decreases self.properties@.len() - i,
        {
            let property = &self.properties[i];
            properties.push((property.0.clone(), property.1.clone()));
            i += 1;
        }
        assert(pairs_of(properties@) =~= pairs_of(self.properties@));
        PropertyContainer {
            kind: self.kind,
            properties,
            name: self.name.clone(),
            relation: self.relation.clone(),
        }
    }
}

impl PropertyContainer {
    /// Decodes the object definition held by a chunk.
    pub fn from_chunk(chunk: Chunk) -> (result: Result<PropertyContainer, PropertyError>)
        ensures
            decoded_as(chunk.header.name, chunk.data@, result),
    {
        let kind = match kind_of(&chunk.header.name) {
            Some(kind) => kind,
            None => {
                return Err(PropertyError::NotAProperty);
            },
        };
        let chunks = match split_payload(chunk.data.as_slice()) {
            Ok(chunks) => chunks,
            Err(e) => {
                return Err(PropertyError::ChunkParseError(e));
            },
        };
        let ghost raw = raw_chunks(chunks@);
        if chunks.len() < 2 {
            return Err(PropertyError::CorruptedProperty);
        }
        assert(raw[0] == chunks@[0].raw());
        assert(raw[1] == chunks@[1].raw());
        let base = match c_string(chunks[BASE_INDEX].data.as_slice()) {
            Some(text) => text,
            None => {
                return Err(PropertyError::CorruptedProperty);
            },
        };
        let name = match c_string(chunks[TYPE_INDEX].data.as_slice()) {
            Some(text) => text,
            None => {
                return Err(PropertyError::CorruptedProperty);
            },
        };
        let properties = match read_records(&chunks) {
            Some(properties) => properties,
            None => {
                return Err(PropertyError::CorruptedProperty);
            },
        };
        let relation = if is_class_label(base.as_str()) {
            ClassRelation::ClassLabel(base)
        } else {
            ClassRelation::ClassParent(base)
        };
        Ok(PropertyContainer { kind, properties, name, relation })
    }

    /// The definition text of this object definition.
    pub fn get_odf(&self) -> (text: String)
        ensures
            text@ == spec_odf(self@),
    {
        let mut text = String::from_str("[");
        text.append(kind_text(self.kind));
        text.append("]\n\n");
        append_relation_line(&mut text, &self.relation);
        text.append("\n");
        append_geometry_line(&mut text, &self.properties);
        text.append("\n[Properties]\n\n");
        append_property_lines(&mut text, &self.properties);
        text
    }
}

/// Decoding is a function of the bytes: two results of decoding the same
/// chunk hold the same kind, name, properties and relation, or the same error.
pub proof fn lemma_decoding_repeats(
    tag: [u8; 4],
    data: Seq<u8>,
    first: Result<PropertyContainer, PropertyError>,
    second: Result<PropertyContainer, PropertyError>,
)
    requires
        decoded_as(tag, data, first),
        decoded_as(tag, data, second),
    ensures
        match (first, second) {
            (Ok(a), Ok(b)) => a@ == b@,
            (Err(e), Err(f)) => e == f,
            _ => false,
        },
{
}

/// The base text decides the relation: a base that is a class label makes
/// the definition a root with that label, any other base is the name of the
/// parent.
pub proof fn lemma_relation_follows_base(tag: [u8; 4], data: Seq<u8>)
    requires
        spec_property(tag, data) is Ok,
    ensures
        ({
            let base = c_text(spec_extract(data)->Ok_0[0].data);
            let relation = spec_property(tag, data)->Ok_0.relation;
            &&& base is Some
            &&& spec_is_class_label(base->Some_0) ==> relation == RelationModel::ClassLabel(
                base->Some_0,
            )
            &&& !spec_is_class_label(base->Some_0) ==> relation == RelationModel::ClassParent(
                base->Some_0,
            )
        }),
{
}

/// The first position that holds a name is the only first position.
proof fn lemma_first_entry_is_one(
    properties: Seq<(Seq<char>, Seq<char>)>,
    name: Seq<char>,
    at: int,
)
    requires
        is_first_entry(properties, name, at),
    ensures
        has_entry(properties, name),
        entry_index(properties, name) == at,
{
    let found = entry_index(properties, name);
    assert(is_first_entry(properties, name, found));
    if found < at {
        assert(properties[found].0 != name);
    }
    if at < found {
        assert(properties[at].0 != name);
    }
}

/// A list holds a name exactly where one of its entries carries it.
proof fn lemma_has_entry(properties: Seq<(Seq<char>, Seq<char>)>, name: Seq<char>, upto: int)
    requires
        0 <= upto <= properties.len(),
        forall|j: int| 0 <= j < upto ==> (#[trigger] properties[j]).0 != name,
    ensures
        has_entry(properties, name) <==> exists|k: int|
            upto <= k < properties.len() && (#[trigger] properties[k]).0 == name,
    decreases properties.len() - upto,
{
    if upto < properties.len() {
        if properties[upto].0 == name {
            assert(is_first_entry(properties, name, upto));
        } else {
            lemma_has_entry(properties, name, upto + 1);
        }
    } else {
        if has_entry(properties, name) {
            let at = entry_index(properties, name);
            assert(is_first_entry(properties, name, at));
        }
    }
}

/// Setting a name keeps the names apart, and changes the value of that name
/// and of no other.
pub proof fn lemma_put(
    properties: Seq<(Seq<char>, Seq<char>)>,
    name: Seq<char>,
    value: Seq<char>,
    other: Seq<char>,
)
    requires
        unique_names(properties),
    ensures
        unique_names(put(properties, name, value)),
        lookup(put(properties, name, value), name) == Some(value),
        other != name ==> lookup(put(properties, name, value), other) == lookup(
            properties,
            other,
        ),
{
    let after = put(properties, name, value);
    lemma_has_entry(properties, name, 0);
    lemma_has_entry(properties, other, 0);
    lemma_has_entry(after, other, 0);
    if has_entry(properties, name) {
        let at = entry_index(properties, name);
        assert(is_first_entry(properties, name, at));
        assert(forall|j: int| 0 <= j < after.len() && j != at ==> after[j] == properties[j]);
        assert(after[at] == (name, value));
        assert(is_first_entry(after, name, at));
        lemma_first_entry_is_one(after, name, at);
        if other != name && has_entry(properties, other) {
            let k = entry_index(properties, other);
            assert(is_first_entry(properties, other, k));
            assert(k != at);
            assert(after[k] == properties[k]);
            assert(is_first_entry(after, other, k)) by {
                assert forall|j: int| 0 <= j < k implies (#[trigger] after[j]).0 != other by {
                    if j != at {
                        assert(after[j] == properties[j]);
                    }
                }
            }
            lemma_first_entry_is_one(after, other, k);
        }
        if other != name && has_entry(after, other) {
            let k = entry_index(after, other);
            assert(is_first_entry(after, other, k));
            assert(k != at);
            assert(properties[k].0 == other);
        }
    } else {
        let at = properties.len() as int;
        assert(forall|j: int| 0 <= j < at ==> after[j] == properties[j]);
        assert(after[at] == (name, value));
        assert(is_first_entry(after, name, at)) by {
            assert forall|j: int| 0 <= j < at implies (#[trigger] after[j]).0 != name by {
                assert(after[j] == properties[j]);
                if properties[j].0 == name {
                    lemma_has_entry(properties, name, 0);
                }
            }
        }
        lemma_first_entry_is_one(after, name, at);
        if other != name && has_entry(properties, other) {
            let k = entry_index(properties, other);
            assert(is_first_entry(properties, other, k));
            assert(is_first_entry(after, other, k)) by {
                assert(after[k] == properties[k]);
                assert forall|j: int| 0 <= j < k implies (#[trigger] after[j]).0 != other by {
                    assert(after[j] == properties[j]);
                }
            }
            lemma_first_entry_is_one(after, other, k);
        }
        if other != name && has_entry(after, other) {
            let k = entry_index(after, other);
            assert(is_first_entry(after, other, k));
            assert(k != at);
            assert(properties[k].0 == other);
        }
    }
}

/// Reading records keeps the names apart.
proof fn lemma_records_unique(
    chunks: Seq<RawChunk>,
    from: int,
    properties: Seq<(Seq<char>, Seq<char>)>,
)
    requires
        unique_names(properties),
        spec_records(chunks, from, properties) is Some,
    ensures
        unique_names(spec_records(chunks, from, properties)->Some_0),
    decreases chunks.len() - from,
{
    if !(from < 0 || from >= chunks.len() || chunks[from].header.name != RECORD_TAG) {
        let (name, value) = spec_record(chunks[from].data)->Some_0;
        lemma_put(properties, name, value, name);
        lemma_records_unique(chunks, from + 1, put(properties, name, value));
    }
}

/// In a decoded definition every property name occurs once.
pub proof fn lemma_property_names_unique(tag: [u8; 4], data: Seq<u8>)
    requires
        spec_property(tag, data) is Ok,
    ensures
        unique_names(spec_property(tag, data)->Ok_0.properties),
{
    let chunks = spec_extract(data)->Ok_0;
    lemma_records_unique(chunks, FIRST_RECORD_INDEX as int, Seq::empty());
}

} // verus!
