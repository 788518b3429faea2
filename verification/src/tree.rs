//! The tagged tree that one chunk payload decodes to.

use vstd::prelude::*;

verus! {

/// One node of a decoded tagged tree.
///
/// The integer kinds keep their width. A double is held as the bit pattern
/// of its IEEE-754 encoding. A compound keeps its fields as pairs of a name
/// and a value; a lookup by name yields the first pair that carries it.
#[derive(Debug, PartialEq, Eq)]
pub enum Tag {
    Byte(i8),
    Short(i16),
    Int(i32),
    Long(i64),
    Double(u64),
    Text(String),
    List(Vec<Tag>),
    Compound(Vec<(String, Tag)>),
    /// A value of a kind that nothing here reads: a single-precision float
    /// or one of the packed arrays.
    Opaque,
}

/// What a tree says, apart from the order in which a compound keeps its
/// fields: a compound is a map from names to values.
pub enum Node {
    Byte(i8),
    Short(i16),
    Int(i32),
    Long(i64),
    Double(u64),
    Text(Seq<char>),
    List(Seq<Node>),
    Compound(Map<Seq<char>, Node>),
    Opaque,
}

/// The value of the first field called `name`, if any field is.
pub open spec fn field_of(fields: Seq<(String, Tag)>, name: Seq<char>) -> Option<Tag>
    decreases fields.len(),
{
    if fields.len() == 0 {
        None
    } else if fields[0].0@ == name {
        Some(fields[0].1)
    } else {
        field_of(fields.skip(1), name)
    }
}

/// Whether `value` is the value of the field at position `i`.
pub open spec fn is_value_at(fields: Seq<(String, Tag)>, value: Tag, i: int) -> bool {
    0 <= i < fields.len() && fields[i].1 == value
}

/// What a tree says. A name that several fields of a compound carry stands
/// for the first of them.
pub open spec fn node_of(tag: Tag) -> Node
    decreases tag,
{
    match tag {
        Tag::Byte(v) => Node::Byte(v),
        Tag::Short(v) => Node::Short(v),
        Tag::Int(v) => Node::Int(v),
        Tag::Long(v) => Node::Long(v),
        Tag::Double(v) => Node::Double(v),
        Tag::Text(s) => Node::Text(s@),
        Tag::List(items) => Node::List(
            Seq::new(
                items@.len(),
                |i: int|
                    if 0 <= i < items@.len() {
                        node_of(items@[i])
                    } else {
                        Node::Opaque
                    },
            ),
        ),
        Tag::Compound(fields) => Node::Compound(
            Map::new(
                |name: Seq<char>| field_of(fields@, name) is Some,
                |name: Seq<char>|
                    {
                        let value = field_of(fields@, name)->Some_0;
                        if exists|i: int| is_value_at(fields@, value, i) {
                            node_of(fields@[choose|i: int| is_value_at(fields@, value, i)].1)
                        } else {
                            Node::Opaque
                        }
                    },
            ),
        ),
        Tag::Opaque => Node::Opaque,
    }
}

impl View for Tag {
    type V = Node;

    open spec fn view(&self) -> Node {
        node_of(*self)
    }
}

impl Node {
    /// The number that an integer node holds, whatever its width.
    pub open spec fn integer(self) -> Option<int> {
        match self {
            Node::Byte(v) => Some(v as int),
            Node::Short(v) => Some(v as int),
            Node::Int(v) => Some(v as int),
            Node::Long(v) => Some(v as int),
            _ => None,
        }
    }
}

/// A field that a lookup finds is one of the fields.
pub proof fn lemma_found_field_is_a_field(fields: Seq<(String, Tag)>, name: Seq<char>)
    requires
        field_of(fields, name) is Some,
    ensures
        exists|i: int| is_value_at(fields, field_of(fields, name)->Some_0, i),
    decreases fields.len(),
{
    let value = field_of(fields, name)->Some_0;
    if fields[0].0@ == name {
        assert(is_value_at(fields, value, 0));
    } else {
        lemma_found_field_is_a_field(fields.skip(1), name);
        let i = choose|i: int| is_value_at(fields.skip(1), value, i);
        assert(is_value_at(fields, value, i + 1));
    }
}

/// A compound says of a name what the first field of that name says.
pub proof fn lemma_compound_says(fields: Vec<(String, Tag)>, name: Seq<char>)
    ensures
        Tag::Compound(fields)@ is Compound,
        Tag::Compound(fields)@->Compound_0.dom().contains(name) <==> field_of(fields@, name) is Some,
        field_of(fields@, name) is Some ==> Tag::Compound(fields)@->Compound_0[name] == field_of(
            fields@,
            name,
        )->Some_0@,
{
    if field_of(fields@, name) is Some {
        lemma_found_field_is_a_field(fields@, name);
    }
}

/// A list says, place by place, what its items say.
pub proof fn lemma_list_says(items: Vec<Tag>)
    ensures
        Tag::List(items)@ is List,
        Tag::List(items)@->List_0.len() == items@.len(),
        forall|i: int| 0 <= i < items@.len() ==> Tag::List(items)@->List_0[i] == (#[trigger] items@[i])@,
{
}

impl Tag {
    /// Reads an integer node of any width.
    pub fn as_integer(&self) -> (value: Option<i64>)
        ensures
            match value {
                Some(v) => self@.integer() == Some(v as int),
                None => self@.integer() is None,
            },
    {
        match self {
            Tag::Byte(v) => Some(*v as i64),
            Tag::Short(v) => Some(*v as i64),
            Tag::Int(v) => Some(*v as i64),
            Tag::Long(v) => Some(*v),
            _ => None,
        }
    }
}

/// Looks a field up by name.
pub fn find_field<'a>(fields: &'a Vec<(String, Tag)>, name: &String) -> (found: Option<&'a Tag>)
    ensures
        match found {
            Some(tag) => field_of(fields@, name@) == Some(*tag),
            None => field_of(fields@, name@) is None,
        },
{
    let mut i: usize = 0;
    assert(fields@.skip(0) =~= fields@);
    while i < fields.len()
        invariant
            i <= fields.len(),
            field_of(fields@, name@) == field_of(fields@.skip(i as int), name@),
        decreases fields.len() - i,
    {
        if fields[i].0 == *name {
            return Some(&fields[i].1);
        }
        assert(fields@.skip(i as int).skip(1) =~= fields@.skip(i as int + 1));
        i += 1;
    }
    None
}

} // verus!
