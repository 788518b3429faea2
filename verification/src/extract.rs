//! Selecting the item drops among the entities of a chunk.

use vstd::prelude::*;
use vstd::string::*;
use crate::schema::{entity_views, EntityRecord, EntityView};

verus! {

/// One item lying on the ground.
#[derive(Debug, PartialEq, Eq)]
pub struct DroppedItem {
    /// The namespaced identifier of the item.
    pub item_type: String,
    /// The coordinates x, y and z, each as the bit pattern of a double.
    pub position: (u64, u64, u64),
    /// The size of the stack.
    pub count: i32,
    /// The name of the archive file that the record was found in.
    pub entity_file: String,
    /// The despawn timer, where the entity carries one.
    pub age: Option<i16>,
}

pub struct DroppedItemView {
    pub item_type: Seq<char>,
    pub position: (u64, u64, u64),
    pub count: i32,
    pub entity_file: Seq<char>,
    pub age: Option<i16>,
}

impl View for DroppedItem {
    type V = DroppedItemView;

    open spec fn view(&self) -> DroppedItemView {
        DroppedItemView {
            item_type: self.item_type@,
            position: self.position,
            count: self.count,
            entity_file: self.entity_file@,
            age: self.age,
        }
    }
}

impl DroppedItem {
    /// A second record with the same contents.
    pub fn duplicate(&self) -> (copy: DroppedItem)
        ensures
            copy@ == self@,
    {
        DroppedItem {
            item_type: self.item_type.clone(),
            position: self.position,
            count: self.count,
            entity_file: self.entity_file.clone(),
            age: self.age,
        }
    }
}

/// The views of a run of records, in order.
pub open spec fn item_views(items: Seq<DroppedItem>) -> Seq<DroppedItemView> {
    items.map_values(|d: DroppedItem| d@)
}

/// The identifier that marks an entity as an item drop.
pub open spec fn item_drop_id() -> Seq<char> {
    "minecraft:item"@
}

/// An entity is reported when it is an item drop, carries an item block and
/// has at least three coordinates.
pub open spec fn qualifies(e: EntityView) -> bool {
    &&& e.id == item_drop_id()
    &&& e.item is Some
    &&& e.pos.len() >= 3
}

/// The record that a qualifying entity of the archive `file` gives.
pub open spec fn dropped_item_of(e: EntityView, file: Seq<char>) -> DroppedItemView {
    DroppedItemView {
        item_type: e.item->Some_0.id,
        position: (e.pos[0], e.pos[1], e.pos[2]),
        count: e.item->Some_0.count as i32,
        entity_file: file,
        age: e.age,
    }
}

pub open spec fn is_reported() -> spec_fn(EntityView) -> bool {
    |e: EntityView| qualifies(e)
}

pub open spec fn as_record(file: Seq<char>) -> spec_fn(EntityView) -> DroppedItemView {
    |e: EntityView| dropped_item_of(e, file)
}

/// The records of the qualifying entities, in the order of the entities.
pub open spec fn dropped_items_of(entities: Seq<EntityView>, file: Seq<char>) -> Seq<
    DroppedItemView,
> {
    entities.filter(is_reported()).map_values(as_record(file))
}

/// Adding one entity at the end adds its record at the end, or nothing.
pub proof fn lemma_dropped_items_push(entities: Seq<EntityView>, e: EntityView, file: Seq<char>)
    ensures
        dropped_items_of(entities.push(e), file) == if qualifies(e) {
            dropped_items_of(entities, file).push(dropped_item_of(e, file))
        } else {
            dropped_items_of(entities, file)
        },
{
    entities.lemma_filter_push(e, is_reported());
    assert(dropped_items_of(entities.push(e), file) =~= if qualifies(e) {
        dropped_items_of(entities, file).push(dropped_item_of(e, file))
    } else {
        dropped_items_of(entities, file)
    });
}

/// The records of a run of entities followed by another are those of the
/// first followed by those of the second.
pub proof fn lemma_dropped_items_concat(a: Seq<EntityView>, b: Seq<EntityView>, file: Seq<char>)
    ensures
        dropped_items_of(a + b, file) == dropped_items_of(a, file) + dropped_items_of(b, file),
{
    Seq::filter_distributes_over_add(a, b, is_reported());
    assert(dropped_items_of(a + b, file) =~= dropped_items_of(a, file) + dropped_items_of(
        b,
        file,
    ));
}

/// Selects the item drops among `entities` and turns each into a record
/// that names `entity_file` as its origin.
pub fn extract_dropped_items(entities: &Vec<EntityRecord>, entity_file: &str) -> (items: Vec<
    DroppedItem,
>)
    ensures
        item_views(items@) == dropped_items_of(entity_views(entities@), entity_file@),
{
    let wanted = String::from_str("minecraft:item");
    let mut items: Vec<DroppedItem> = Vec::new();
    let mut i: usize = 0;
    proof {
        assert(entity_views(entities@).take(0) =~= Seq::<EntityView>::empty());
        Seq::<EntityView>::empty().lemma_filter_len(is_reported());
        assert(item_views(items@) =~= dropped_items_of(Seq::<EntityView>::empty(), entity_file@));
    }
    while i < entities.len()
        invariant
            i <= entities.len(),
            wanted@ == item_drop_id(),
            item_views(items@) == dropped_items_of(
                entity_views(entities@).take(i as int),
                entity_file@,
            ),
        decreases entities.len() - i,
    {
        let entity = &entities[i];
        proof {
            let all = entity_views(entities@);
            assert(all.take(i as int + 1) =~= all.take(i as int).push(entity@));
            lemma_dropped_items_push(all.take(i as int), entity@, entity_file@);
        }
        let ghost before = items@;
        if entity.id == wanted && entity.pos.len() >= 3 {
            if let Some(block) = &entity.item {
                let item = DroppedItem {
                    item_type: block.id.clone(),
                    position: (entity.pos[0], entity.pos[1], entity.pos[2]),
                    count: block.count as i32,
                    entity_file: String::from_str(entity_file),
                    age: entity.age,
                };
                assert(item@ == dropped_item_of(entity@, entity_file@));
                items.push(item);
                assert(item_views(items@) =~= item_views(before).push(
                    dropped_item_of(entity@, entity_file@),
                ));
            }
        }
        i += 1;
    }
    assert(entity_views(entities@).take(entities@.len() as int) =~= entity_views(entities@));
    items
}

/// Where no entity is an item drop, nothing is reported.
pub proof fn lemma_no_item_drops_no_records(entities: Seq<EntityView>, file: Seq<char>)
    requires
        forall|i: int| 0 <= i < entities.len() ==> (#[trigger] entities[i]).id != item_drop_id(),
    ensures
        dropped_items_of(entities, file) == Seq::<DroppedItemView>::empty(),
    decreases entities.len(),
{
    if entities.len() == 0 {
        entities.lemma_filter_len(is_reported());
        assert(dropped_items_of(entities, file) =~= Seq::<DroppedItemView>::empty());
    } else {
        let rest = entities.drop_last();
        lemma_no_item_drops_no_records(rest, file);
        assert(entities =~= rest.push(entities.last()));
        lemma_dropped_items_push(rest, entities.last(), file);
    }
}

/// An entity that does not qualify leaves no trace: the records are those of
/// the entities without it.
pub proof fn lemma_unqualified_entity_leaves_no_trace(
    entities: Seq<EntityView>,
    i: int,
    file: Seq<char>,
)
    requires
        0 <= i < entities.len(),
        !qualifies(entities[i]),
    ensures
        dropped_items_of(entities, file) == dropped_items_of(entities.remove(i), file),
{
    let head = entities.take(i);
    let tail = entities.skip(i + 1);
    let e = entities[i];
    assert(entities =~= head.push(e) + tail);
    assert(entities.remove(i) =~= head + tail);
    lemma_dropped_items_push(head, e, file);
    lemma_dropped_items_concat(head.push(e), tail, file);
    lemma_dropped_items_concat(head, tail, file);
}

/// An entity of another kind is never reported, whatever its other fields
/// hold.
pub proof fn lemma_other_kinds_are_never_reported(
    entities: Seq<EntityView>,
    i: int,
    file: Seq<char>,
)
    requires
        0 <= i < entities.len(),
        entities[i].id != item_drop_id(),
    ensures
        !qualifies(entities[i]),
        dropped_items_of(entities, file) == dropped_items_of(entities.remove(i), file),
{
    lemma_unqualified_entity_leaves_no_trace(entities, i, file);
}

/// An item drop with fewer than three coordinates is left out.
pub proof fn lemma_short_positions_are_left_out(
    entities: Seq<EntityView>,
    i: int,
    file: Seq<char>,
)
    requires
        0 <= i < entities.len(),
        entities[i].id == item_drop_id(),
        entities[i].pos.len() < 3,
    ensures
        !qualifies(entities[i]),
        dropped_items_of(entities, file) == dropped_items_of(entities.remove(i), file),
{
    lemma_unqualified_entity_leaves_no_trace(entities, i, file);
}

/// The count of a record is the count of the item block, whatever value a
/// signed byte can hold, and the byte can be had back from it.
pub proof fn lemma_count_widening_is_exact(e: EntityView, file: Seq<char>)
    requires
        e.item is Some,
    ensures
        dropped_item_of(e, file).count as int == e.item->Some_0.count as int,
        -128 <= dropped_item_of(e, file).count <= 127,
        dropped_item_of(e, file).count as i8 == e.item->Some_0.count,
{
}

} // verus!
