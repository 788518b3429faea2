//! Reading a decoded chunk as a list of entities.
//!
//! A chunk is a compound whose field `Entities` lists the entities of the
//! chunk. Each entity is a compound with a text `id`, a list of doubles `Pos`
//! and, optionally, a compound `Item` and an integer `Age`. Fields beyond
//! these are not looked at. An integer may be stored at any width as long as
//! its value fits the width that the record gives it.

use vstd::prelude::*;
use vstd::string::*;
use crate::tree::{find_field, lemma_compound_says, lemma_list_says, Node, Tag};

verus! {

/// The nested block of an entity that carries an item stack.
#[derive(Debug, PartialEq, Eq)]
pub struct ItemBlock {
    pub id: String,
    pub count: i8,
}

/// One entity of a chunk, of whatever kind.
#[derive(Debug, PartialEq, Eq)]
pub struct EntityRecord {
    pub id: String,
    /// The coordinates, each as the bit pattern of a double.
    pub pos: Vec<u64>,
    pub item: Option<ItemBlock>,
    pub age: Option<i16>,
}

pub struct ItemBlockView {
    pub id: Seq<char>,
    pub count: i8,
}

pub struct EntityView {
    pub id: Seq<char>,
    pub pos: Seq<u64>,
    pub item: Option<ItemBlockView>,
    pub age: Option<i16>,
}

impl View for ItemBlock {
    type V = ItemBlockView;

    open spec fn view(&self) -> ItemBlockView {
        ItemBlockView { id: self.id@, count: self.count }
    }
}

impl View for EntityRecord {
    type V = EntityView;

    open spec fn view(&self) -> EntityView {
        EntityView {
            id: self.id@,
            pos: self.pos@,
            item: match self.item {
                Some(block) => Some(block@),
                None => None,
            },
            age: self.age,
        }
    }
}

/// The views of a run of records, in order.
pub open spec fn entity_views(records: Seq<EntityRecord>) -> Seq<EntityView> {
    records.map_values(|r: EntityRecord| r@)
}

/// The place in a chunk at which its shape departs from the expected one.
#[derive(Debug, Clone, Copy, PartialEq, Eq)]
pub enum Field {
    Root,
    Entities,
    Entity,
    Id,
    Pos,
    Item,
    ItemId,
    ItemCount,
    Age,
}

/// The way in which a place departs from the expected shape.
#[derive(Debug, Clone, Copy, PartialEq, Eq)]
pub enum Fault {
    Missing,
    WrongKind,
    OutOfRange,
}

/// What is wrong with one entity.
#[derive(Debug, Clone, Copy, PartialEq, Eq)]
pub struct Flaw {
    pub field: Field,
    pub fault: Fault,
}

/// Why a chunk could not be read as a list of entities.
#[derive(Debug, Clone, Copy, PartialEq, Eq)]
pub struct SchemaError {
    /// The position of the offending entity in the list, where the list
    /// itself was found.
    pub entity: Option<usize>,
    pub field: Field,
    pub fault: Fault,
}

pub open spec fn key_entities() -> Seq<char> {
    "Entities"@
}

pub open spec fn key_id() -> Seq<char> {
    "id"@
}

pub open spec fn key_pos() -> Seq<char> {
    "Pos"@
}

pub open spec fn key_item() -> Seq<char> {
    "Item"@
}

pub open spec fn key_count() -> Seq<char> {
    "count"@
}

pub open spec fn key_age() -> Seq<char> {
    "Age"@
}

pub open spec fn flaw(field: Field, fault: Fault) -> Flaw {
    Flaw { field, fault }
}

/// What the fields of a compound say.
pub open spec fn said(fields: Vec<(String, Tag)>) -> Map<Seq<char>, Node> {
    Tag::Compound(fields)@->Compound_0
}

/// What the items of a list say.
pub open spec fn listed(items: Vec<Tag>) -> Seq<Node> {
    Tag::List(items)@->List_0
}

/// The text under `key`, which must be there.
pub open spec fn text_of(fields: Map<Seq<char>, Node>, key: Seq<char>, field: Field) -> Result<
    Seq<char>,
    Flaw,
> {
    if !fields.dom().contains(key) {
        Err(flaw(field, Fault::Missing))
    } else {
        match fields[key] {
            Node::Text(text) => Ok(text),
            _ => Err(flaw(field, Fault::WrongKind)),
        }
    }
}

/// The integer in `node`, which must lie between `low` and `high`.
pub open spec fn bounded_integer_of(node: Node, low: int, high: int, field: Field) -> Result<
    int,
    Flaw,
> {
    match node.integer() {
        None => Err(flaw(field, Fault::WrongKind)),
        Some(n) => if low <= n <= high {
            Ok(n)
        } else {
            Err(flaw(field, Fault::OutOfRange))
        },
    }
}

pub open spec fn all_doubles(items: Seq<Node>) -> bool {
    forall|i: int| 0 <= i < items.len() ==> (#[trigger] items[i]) is Double
}

pub open spec fn doubles_of(items: Seq<Node>) -> Seq<u64> {
    Seq::new(items.len(), |i: int| items[i]->Double_0)
}

/// The coordinates under `Pos`: a list, of any length, of doubles only.
pub open spec fn pos_of(fields: Map<Seq<char>, Node>) -> Result<Seq<u64>, Flaw> {
    if !fields.dom().contains(key_pos()) {
        Err(flaw(Field::Pos, Fault::Missing))
    } else {
        match fields[key_pos()] {
            Node::List(items) => if all_doubles(items) {
                Ok(doubles_of(items))
            } else {
                Err(flaw(Field::Pos, Fault::WrongKind))
            },
            _ => Err(flaw(Field::Pos, Fault::WrongKind)),
        }
    }
}

/// An item block: a compound with a text `id` and a `count` that fits a
/// signed byte.
pub open spec fn item_block_of(node: Node) -> Result<ItemBlockView, Flaw> {
    match node {
        Node::Compound(fields) => match text_of(fields, key_id(), Field::ItemId) {
            Err(f) => Err(f),
            Ok(id) => if !fields.dom().contains(key_count()) {
                Err(flaw(Field::ItemCount, Fault::Missing))
            } else {
                match bounded_integer_of(fields[key_count()], -128, 127, Field::ItemCount) {
                    Err(f) => Err(f),
                    Ok(n) => Ok(ItemBlockView { id, count: n as i8 }),
                }
            },
        },
        _ => Err(flaw(Field::Item, Fault::WrongKind)),
    }
}

/// The item block under `Item`, where the entity has one.
pub open spec fn item_of(fields: Map<Seq<char>, Node>) -> Result<Option<ItemBlockView>, Flaw> {
    if !fields.dom().contains(key_item()) {
        Ok(None)
    } else {
        match item_block_of(fields[key_item()]) {
            Err(f) => Err(f),
            Ok(block) => Ok(Some(block)),
        }
    }
}

/// The despawn timer under `Age`, where the entity has one: an integer that
/// fits sixteen bits.
pub open spec fn age_of(fields: Map<Seq<char>, Node>) -> Result<Option<i16>, Flaw> {
    if !fields.dom().contains(key_age()) {
        Ok(None)
    } else {
        match bounded_integer_of(fields[key_age()], -32768, 32767, Field::Age) {
            Err(f) => Err(f),
            Ok(n) => Ok(Some(n as i16)),
        }
    }
}

/// One entity. The fields are examined in the order `id`, `Pos`, `Item`,
/// `Age`, and the first that departs from the shape is the one reported.
pub open spec fn entity_of(node: Node) -> Result<EntityView, Flaw> {
    match node {
        Node::Compound(fields) => match text_of(fields, key_id(), Field::Id) {
            Err(f) => Err(f),
            Ok(id) => match pos_of(fields) {
                Err(f) => Err(f),
                Ok(pos) => match item_of(fields) {
                    Err(f) => Err(f),
                    Ok(item) => match age_of(fields) {
                        Err(f) => Err(f),
                        Ok(age) => Ok(EntityView { id, pos, item, age }),
                    },
                },
            },
        },
        _ => Err(flaw(Field::Entity, Fault::WrongKind)),
    }
}

/// Whether `i` is the first position of `list` that holds no entity.
pub open spec fn is_first_flawed(list: Seq<Node>, i: int) -> bool {
    &&& 0 <= i < list.len()
    &&& entity_of(list[i]) is Err
    &&& forall|j: int| 0 <= j < i ==> entity_of(#[trigger] list[j]) is Ok
}

/// A list of entities: every one of them, in order, or the first that is
/// flawed.
pub open spec fn entity_list_of(list: Seq<Node>) -> Result<Seq<EntityView>, SchemaError> {
    if exists|i: int| is_first_flawed(list, i) {
        let i = choose|i: int| is_first_flawed(list, i);
        let f = entity_of(list[i])->Err_0;
        Err(SchemaError { entity: Some(i as usize), field: f.field, fault: f.fault })
    } else {
        Ok(Seq::new(list.len(), |i: int| entity_of(list[i])->Ok_0))
    }
}

/// The entities of a chunk.
pub open spec fn entities_of(tree: Node) -> Result<Seq<EntityView>, SchemaError> {
    match tree {
        Node::Compound(fields) => if !fields.dom().contains(key_entities()) {
            Err(SchemaError { entity: None, field: Field::Entities, fault: Fault::Missing })
        } else {
            match fields[key_entities()] {
                Node::List(list) => entity_list_of(list),
                _ => Err(
                    SchemaError { entity: None, field: Field::Entities, fault: Fault::WrongKind },
                ),
            }
        },
        _ => Err(SchemaError { entity: None, field: Field::Root, fault: Fault::WrongKind }),
    }
}

/// The field names, held as strings so that a lookup can compare against
/// them.
struct Keys {
    entities: String,
    id: String,
    pos: String,
    item: String,
    count: String,
    age: String,
}

impl Keys {
    spec fn wf(&self) -> bool {
        &&& self.entities@ == key_entities()
        &&& self.id@ == key_id()
        &&& self.pos@ == key_pos()
        &&& self.item@ == key_item()
        &&& self.count@ == key_count()
        &&& self.age@ == key_age()
    }

    fn new() -> (keys: Keys)
        ensures
            keys.wf(),
    {
        Keys {
            entities: String::from_str("Entities"),
            id: String::from_str("id"),
            pos: String::from_str("Pos"),
            item: String::from_str("Item"),
            count: String::from_str("count"),
            age: String::from_str("Age"),
        }
    }
}

/// Looks a field up by name, and says what the lookup means for the
/// compound.
fn field_in<'a>(fields: &'a Vec<(String, Tag)>, key: &String) -> (found: Option<&'a Tag>)
    ensures
        match found {
            Some(tag) => said(*fields).dom().contains(key@) && said(*fields)[key@] == tag@,
            None => !said(*fields).dom().contains(key@),
        },
{
    proof {
        lemma_compound_says(*fields, key@);
    }
    find_field(fields, key)
}

fn text_in(fields: &Vec<(String, Tag)>, key: &String, field: Field) -> (r: Result<String, Flaw>)
    ensures
        match r {
            Ok(text) => text_of(said(*fields), key@, field) == Ok::<Seq<char>, Flaw>(text@),
            Err(f) => text_of(said(*fields), key@, field) == Err::<Seq<char>, Flaw>(f),
        },
{
    match field_in(fields, key) {
        None => Err(Flaw { field, fault: Fault::Missing }),
        Some(Tag::Text(text)) => Ok(text.clone()),
        Some(_) => Err(Flaw { field, fault: Fault::WrongKind }),
    }
}

fn bounded_integer_in(tag: &Tag, low: i64, high: i64, field: Field) -> (r: Result<i64, Flaw>)
    ensures
        match r {
            Ok(n) => bounded_integer_of(tag@, low as int, high as int, field) == Ok::<int, Flaw>(
                n as int,
            ),
            Err(f) => bounded_integer_of(tag@, low as int, high as int, field) == Err::<int, Flaw>(
                f,
            ),
        },
{
    match tag.as_integer() {
        None => Err(Flaw { field, fault: Fault::WrongKind }),
        Some(n) => if low <= n && n <= high {
            Ok(n)
        } else {
            Err(Flaw { field, fault: Fault::OutOfRange })
        },
    }
}

fn doubles_in(items: &Vec<Tag>) -> (r: Option<Vec<u64>>)
    ensures
        match r {
            Some(bits) => all_doubles(listed(*items)) && bits@ == doubles_of(listed(*items)),
            None => !all_doubles(listed(*items)),
        },
{
    proof {
        lemma_list_says(*items);
    }
    let ghost nodes = listed(*items);
    let mut bits: Vec<u64> = Vec::new();
    let mut i: usize = 0;
    while i < items.len()
        invariant
            i <= items.len(),
            nodes == listed(*items),
            nodes.len() == items@.len(),
            forall|j: int| 0 <= j < items@.len() ==> nodes[j] == (#[trigger] items@[j])@,
            bits@.len() == i,
            forall|j: int| 0 <= j < i ==> (#[trigger] nodes[j]) is Double,
            forall|j: int| 0 <= j < i ==> bits@[j] == nodes[j]->Double_0,
        decreases items.len() - i,
    {
        match &items[i] {
            Tag::Double(b) => {
                assert(nodes[i as int] == Node::Double(*b));
                bits.push(*b);
            },
            _ => {
                assert(!(nodes[i as int] is Double));
                return None;
            },
        }
        i += 1;
    }
    assert(bits@ =~= doubles_of(nodes));
    Some(bits)
}

fn pos_in(fields: &Vec<(String, Tag)>, keys: &Keys) -> (r: Result<Vec<u64>, Flaw>)
    requires
        keys.wf(),
    ensures
        match r {
            Ok(pos) => pos_of(said(*fields)) == Ok::<Seq<u64>, Flaw>(pos@),
            Err(f) => pos_of(said(*fields)) == Err::<Seq<u64>, Flaw>(f),
        },
{
    match field_in(fields, &keys.pos) {
        None => Err(Flaw { field: Field::Pos, fault: Fault::Missing }),
        Some(Tag::List(items)) => match doubles_in(items) {
            Some(bits) => Ok(bits),
            None => Err(Flaw { field: Field::Pos, fault: Fault::WrongKind }),
        },
        Some(_) => Err(Flaw { field: Field::Pos, fault: Fault::WrongKind }),
    }
}

fn item_block_in(tag: &Tag, keys: &Keys) -> (r: Result<ItemBlock, Flaw>)
    requires
        keys.wf(),
    ensures
        match r {
            Ok(block) => item_block_of(tag@) == Ok::<ItemBlockView, Flaw>(block@),
            Err(f) => item_block_of(tag@) == Err::<ItemBlockView, Flaw>(f),
        },
{
    match tag {
        Tag::Compound(fields) => {
            let id = match text_in(fields, &keys.id, Field::ItemId) {
                Err(f) => {
                    return Err(f);
                },
                Ok(id) => id,
            };
            match field_in(fields, &keys.count) {
                None => Err(Flaw { field: Field::ItemCount, fault: Fault::Missing }),
                Some(count) => match bounded_integer_in(count, -128, 127, Field::ItemCount) {
                    Err(f) => Err(f),
                    Ok(n) => Ok(ItemBlock { id, count: n as i8 }),
                },
            }
        },
        _ => Err(Flaw { field: Field::Item, fault: Fault::WrongKind }),
    }
}

fn entity_in(tag: &Tag, keys: &Keys) -> (r: Result<EntityRecord, Flaw>)
    requires
        keys.wf(),
    ensures
        match r {
            Ok(record) => entity_of(tag@) == Ok::<EntityView, Flaw>(record@),
            Err(f) => entity_of(tag@) == Err::<EntityView, Flaw>(f),
        },
{
    match tag {
        Tag::Compound(fields) => {
            let id = match text_in(fields, &keys.id, Field::Id) {
                Err(f) => {
                    return Err(f);
                },
                Ok(id) => id,
            };
            let pos = match pos_in(fields, keys) {
                Err(f) => {
                    return Err(f);
                },
                Ok(pos) => pos,
            };
            let item = match field_in(fields, &keys.item) {
                None => None,
                Some(block) => match item_block_in(block, keys) {
                    Err(f) => {
                        return Err(f);
                    },
                    Ok(block) => Some(block),
                },
            };
            let age = match field_in(fields, &keys.age) {
                None => None,
                Some(age) => match bounded_integer_in(age, -32768, 32767, Field::Age) {
                    Err(f) => {
                        return Err(f);
                    },
                    Ok(n) => Some(n as i16),
                },
            };
            Ok(EntityRecord { id, pos, item, age })
        },
        _ => Err(Flaw { field: Field::Entity, fault: Fault::WrongKind }),
    }
}

/// Reads a decoded chunk as its list of entities.
///
/// Every entity of the list is kept, whatever its kind. The chunk is refused
/// as soon as one place of it departs from the expected shape, and the error
/// names the first such place.
pub fn map_entities(tree: &Tag) -> (r: Result<Vec<EntityRecord>, SchemaError>)
    ensures
        match r {
            Ok(records) => entities_of(tree@) == Ok::<Seq<EntityView>, SchemaError>(
                entity_views(records@),
            ),
            Err(e) => entities_of(tree@) == Err::<Seq<EntityView>, SchemaError>(e),
        },
{
    let keys = Keys::new();
    let fields = match tree {
        Tag::Compound(fields) => fields,
        _ => {
            return Err(SchemaError { entity: None, field: Field::Root, fault: Fault::WrongKind });
        },
    };
    let list = match field_in(fields, &keys.entities) {
        None => {
            return Err(
                SchemaError { entity: None, field: Field::Entities, fault: Fault::Missing },
            );
        },
        Some(Tag::List(list)) => list,
        Some(_) => {
            return Err(
                SchemaError { entity: None, field: Field::Entities, fault: Fault::WrongKind },
            );
        },
    };
    proof {
        lemma_list_says(*list);
    }
    let ghost nodes = listed(*list);
    let mut records: Vec<EntityRecord> = Vec::new();
    let mut i: usize = 0;
    while i < list.len()
        invariant
            i <= list.len(),
            keys.wf(),
            entities_of(tree@) == entity_list_of(nodes),
            nodes.len() == list@.len(),
            forall|j: int| 0 <= j < list@.len() ==> nodes[j] == (#[trigger] list@[j])@,
            records@.len() == i,
            forall|j: int| 0 <= j < i ==> entity_of(#[trigger] nodes[j]) is Ok,
            forall|j: int| 0 <= j < i ==> entity_of(nodes[j])->Ok_0 == (#[trigger] records@[j])@,
        decreases list.len() - i,
    {
        match entity_in(&list[i], &keys) {
            Err(f) => {
                proof {
                    assert(nodes[i as int] == list@[i as int]@);
                    assert(is_first_flawed(nodes, i as int));
                    let c = choose|c: int| is_first_flawed(nodes, c);
                    assert(c == i);
                }
                return Err(SchemaError { entity: Some(i), field: f.field, fault: f.fault });
            },
            Ok(record) => {
                assert(nodes[i as int] == list@[i as int]@);
                records.push(record);
            },
        }
        i += 1;
    }
    proof {
        assert forall|c: int| !is_first_flawed(nodes, c) by {}
        assert(entity_views(records@) =~= Seq::new(
            nodes.len(),
            |i: int| entity_of(nodes[i])->Ok_0,
        ));
    }
    Ok(records)
}

} // verus!
