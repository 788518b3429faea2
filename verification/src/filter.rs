//! Choosing the archive files of a directory, and gathering and filtering
//! the records found in them.

use vstd::prelude::*;
use vstd::string::*;
use crate::extract::{item_views, DroppedItem, DroppedItemView};

verus! {

/// The namespace that a bare item name belongs to.
pub open spec fn default_namespace() -> Seq<char> {
    "minecraft:"@
}

/// A bare name is one without a namespace separator.
pub open spec fn is_bare(name: Seq<char>) -> bool {
    !name.contains(':')
}

/// The namespaced form of an item name: a bare name gets the default
/// namespace in front, any other name stays as it is.
pub open spec fn normalized(name: Seq<char>) -> Seq<char> {
    if is_bare(name) {
        default_namespace() + name
    } else {
        name
    }
}

pub open spec fn texts(strings: Seq<String>) -> Seq<Seq<char>> {
    strings.map_values(|s: String| s@)
}

pub open spec fn filter_texts(filters: Option<Vec<String>>) -> Option<Seq<Seq<char>>> {
    match filters {
        Some(names) => Some(texts(names@)),
        None => None,
    }
}

/// Whether a record survives: always without a filter, else when its item
/// type is one of the filter's entries, letter for letter.
pub open spec fn survives(item: DroppedItemView, filters: Option<Seq<Seq<char>>>) -> bool {
    match filters {
        Some(names) => names.contains(item.item_type),
        None => true,
    }
}

pub open spec fn surviving(filters: Option<Seq<Seq<char>>>) -> spec_fn(DroppedItemView) -> bool {
    |item: DroppedItemView| survives(item, filters)
}

/// The records that survive the filter, in their order.
pub open spec fn filtered(items: Seq<DroppedItemView>, filters: Option<Seq<Seq<char>>>) -> Seq<
    DroppedItemView,
> {
    items.filter(surviving(filters))
}

pub open spec fn file_views(per_file: Seq<Vec<DroppedItem>>) -> Seq<Seq<DroppedItemView>> {
    per_file.map_values(|items: Vec<DroppedItem>| item_views(items@))
}

/// The records of all files, one file after the other, that survive the
/// filter.
pub open spec fn aggregated(
    per_file: Seq<Seq<DroppedItemView>>,
    filters: Option<Seq<Seq<char>>>,
) -> Seq<DroppedItemView> {
    filtered(per_file.flatten(), filters)
}

/// A file name marks an archive when it ends in `.mca` and has something
/// before that ending.
pub open spec fn is_archive(name: Seq<char>) -> bool {
    name.len() > 4 && name.subrange(name.len() - 4, name.len() as int) == ".mca"@
}

/// Brings an item name given on the command line to its namespaced form.
pub fn normalize_item_name(name: &str) -> (full: String)
    ensures
        full@ == normalized(name@),
{
    let n = name.unicode_len();
    let mut i: usize = 0;
    while i < n
        invariant
            n == name@.len(),
            i <= n,
            forall|j: int| 0 <= j < i ==> name@[j] != ':',
        decreases n - i,
    {
        if name.get_char(i) == ':' {
            assert(name@.contains(':'));
            return String::from_str(name);
        }
        i += 1;
    }
    let mut full = String::from_str("minecraft:");
    full.append(name);
    full
}

/// Brings every entry of a filter to its namespaced form.
pub fn normalize_filters(names: &Vec<String>) -> (full: Vec<String>)
    ensures
        full@.len() == names@.len(),
        forall|i: int| 0 <= i < names@.len() ==> (#[trigger] full@[i])@ == normalized(names@[i]@),
{
    let mut full: Vec<String> = Vec::new();
    let mut i: usize = 0;
    while i < names.len()
        invariant
            i <= names.len(),
            full@.len() == i,
            forall|j: int| 0 <= j < i ==> (#[trigger] full@[j])@ == normalized(names@[j]@),
        decreases names.len() - i,
    {
        full.push(normalize_item_name(names[i].as_str()));
        i += 1;
    }
    full
}

/// Whether `name` is the name of an archive file.
pub fn is_archive_name(name: &str) -> (yes: bool)
    ensures
        yes == is_archive(name@),
{
    let n = name.unicode_len();
    proof {
        reveal_strlit(".mca");
    }
    if n <= 4 {
        return false;
    }
    let yes = name.get_char(n - 4) == '.' && name.get_char(n - 3) == 'm' && name.get_char(n - 2)
        == 'c' && name.get_char(n - 1) == 'a';
    proof {
        let ending = name@.subrange(n - 4, n as int);
        if yes {
            assert(ending =~= ".mca"@);
        } else {
            assert(ending[0] == name@[n - 4]);
            assert(ending[1] == name@[n - 3]);
            assert(ending[2] == name@[n - 2]);
            assert(ending[3] == name@[n - 1]);
        }
    }
    yes
}

/// Whether a record survives the filter.
pub fn passes_filter(item: &DroppedItem, filters: &Option<Vec<String>>) -> (yes: bool)
    ensures
        yes == survives(item@, filter_texts(*filters)),
{
    match filters {
        None => true,
        Some(names) => {
            let mut i: usize = 0;
            while i < names.len()
                invariant
                    i <= names.len(),
                    filter_texts(*filters) == Some(texts(names@)),
                    forall|j: int| 0 <= j < i ==> texts(names@)[j] != item@.item_type,
                decreases names.len() - i,
            {
                if names[i] == item.item_type {
                    assert(texts(names@)[i as int] == item@.item_type);
                    assert(texts(names@).contains(item@.item_type));
                    return true;
                }
                i += 1;
            }
            false
        },
    }
}

/// Gathers the records of all files, one file after the other, and keeps
/// those that survive the filter.
pub fn aggregate(per_file: &Vec<Vec<DroppedItem>>, filters: &Option<Vec<String>>) -> (all: Vec<
    DroppedItem,
>)
    ensures
        item_views(all@) == aggregated(file_views(per_file@), filter_texts(*filters)),
{
    let ghost files = file_views(per_file@);
    let ghost chosen = filter_texts(*filters);
    let mut all: Vec<DroppedItem> = Vec::new();
    let mut k: usize = 0;
    proof {
        assert(files.take(0) =~= Seq::<Seq<DroppedItemView>>::empty());
        Seq::<DroppedItemView>::empty().lemma_filter_len(surviving(chosen));
        assert(item_views(all@) =~= filtered(files.take(0).flatten(), chosen));
    }
    while k < per_file.len()
        invariant
            k <= per_file.len(),
            files == file_views(per_file@),
            chosen == filter_texts(*filters),
            item_views(all@) == filtered(files.take(k as int).flatten(), chosen),
        decreases per_file.len() - k,
    {
        let items = &per_file[k];
        let ghost done = files.take(k as int).flatten();
        let mut j: usize = 0;
        proof {
            assert(item_views(items@).take(0) =~= Seq::<DroppedItemView>::empty());
            assert(done + item_views(items@).take(0) =~= done);
        }
        while j < items.len()
            invariant
                j <= items.len(),
                chosen == filter_texts(*filters),
                item_views(all@) == filtered(done + item_views(items@).take(j as int), chosen),
            decreases items.len() - j,
        {
            let ghost before = all@;
            proof {
                let seen = done + item_views(items@).take(j as int);
                assert(done + item_views(items@).take(j as int + 1) =~= seen.push(items@[j as int]@));
                seen.lemma_filter_push(items@[j as int]@, surviving(chosen));
            }
            if passes_filter(&items[j], filters) {
                all.push(items[j].duplicate());
                assert(item_views(all@) =~= item_views(before).push(items@[j as int]@));
            }
            j += 1;
        }
        proof {
            assert(item_views(items@).take(items@.len() as int) =~= item_views(items@));
            assert(files.take(k as int + 1) =~= files.take(k as int).push(item_views(items@)));
            files.take(k as int).lemma_flatten_push(item_views(items@));
        }
        k += 1;
    }
    assert(files.take(per_file@.len() as int) =~= files);
    all
}

/// A name that went through the normal form once is not changed by going
/// through it again: no namespace is ever put in front twice.
pub proof fn lemma_normalized_is_stable(name: Seq<char>)
    ensures
        !is_bare(normalized(name)),
        normalized(normalized(name)) == normalized(name),
{
    reveal_strlit("minecraft:");
    if is_bare(name) {
        let full = default_namespace() + name;
        assert(full[9] == ':');
    }
}

/// A name that carries a namespace is its own normal form.
pub proof fn lemma_namespaced_name_is_kept(name: Seq<char>)
    requires
        name.contains(':'),
    ensures
        normalized(name) == name,
{
}

/// A filter made of one bare name, brought to its normal form, lets through
/// the records whose item type is that name behind the default namespace,
/// and no others.
pub proof fn lemma_bare_filter_matches_namespaced(name: Seq<char>, item: DroppedItemView)
    requires
        is_bare(name),
    ensures
        survives(item, Some(seq![normalized(name)])) <==> item.item_type == default_namespace()
            + name,
{
    let names = seq![normalized(name)];
    if item.item_type == default_namespace() + name {
        assert(names[0] == item.item_type);
    }
}

/// A filter made of one name that carries a namespace lets through the
/// records whose item type is that very name, and no others.
pub proof fn lemma_namespaced_filter_matches_itself(name: Seq<char>, item: DroppedItemView)
    requires
        !is_bare(name),
    ensures
        survives(item, Some(seq![normalized(name)])) <==> item.item_type == name,
{
    let names = seq![normalized(name)];
    if item.item_type == name {
        assert(names[0] == item.item_type);
    }
}

/// Without a filter every record survives.
pub proof fn lemma_no_filter_keeps_all(items: Seq<DroppedItemView>)
    ensures
        filtered(items, None) == items,
    decreases items.len(),
{
    if items.len() == 0 {
        items.lemma_filter_len(surviving(None));
        assert(filtered(items, None) =~= items);
    } else {
        let rest = items.drop_last();
        lemma_no_filter_keeps_all(rest);
        assert(items =~= rest.push(items.last()));
        rest.lemma_filter_push(items.last(), surviving(None));
    }
}

/// Without a filter the result is the records of the first file, then those
/// of the second, and so on: nothing is lost, added or reordered.
pub proof fn lemma_unfiltered_aggregate_is_concatenation(per_file: Seq<Seq<DroppedItemView>>)
    ensures
        aggregated(per_file, None) == per_file.flatten(),
{
    lemma_no_filter_keeps_all(per_file.flatten());
}

/// Without a filter the records of each file stand in the result as one
/// unbroken run, in the order that the file gave them, after the records of
/// the files before it.
pub proof fn lemma_each_file_is_a_run(per_file: Seq<Seq<DroppedItemView>>, k: int)
    requires
        0 <= k < per_file.len(),
    ensures
        ({
            let start = per_file.take(k).flatten().len() as int;
            let all = aggregated(per_file, None);
            &&& start + per_file[k].len() <= all.len()
            &&& all.subrange(start, start + per_file[k].len()) == per_file[k]
        }),
{
    lemma_unfiltered_aggregate_is_concatenation(per_file);
    lemma_flatten_around(per_file, k);
    let before = per_file.take(k).flatten();
    let run = per_file[k];
    let after = per_file.skip(k + 1).flatten();
    lemma_middle_run(before, run, after);
}

/// The middle one of three sequences laid end to end can be cut out again.
proof fn lemma_middle_run(
    before: Seq<DroppedItemView>,
    run: Seq<DroppedItemView>,
    after: Seq<DroppedItemView>,
)
    ensures
        (before + run + after).len() == before.len() + run.len() + after.len(),
        (before + run + after).subrange(
            before.len() as int,
            before.len() as int + run.len() as int,
        ) == run,
{
    let start = before.len() as int;
    assert((before + run + after).subrange(start, start + run.len()) =~= run);
}

/// A flattened sequence is what comes before one of its parts, that part,
/// and what comes after it.
proof fn lemma_flatten_around(parts: Seq<Seq<DroppedItemView>>, k: int)
    requires
        0 <= k < parts.len(),
    ensures
        parts.flatten() == parts.take(k).flatten() + parts[k] + parts.skip(k + 1).flatten(),
{
    let head = parts.take(k);
    let tail = parts.skip(k + 1);
    assert(parts =~= head.push(parts[k]) + tail);
    head.lemma_flatten_push(parts[k]);
    vstd::seq_lib::lemma_flatten_concat(head.push(parts[k]), tail);
}

} // verus!
