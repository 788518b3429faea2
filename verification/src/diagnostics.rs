//! The words in which a failed scan is reported.

use vstd::prelude::*;
use vstd::string::*;
use crate::schema::{Fault, Field, SchemaError};

verus! {

pub open spec fn digit_char(d: int) -> char {
    if d == 0 {
        '0'
    } else if d == 1 {
        '1'
    } else if d == 2 {
        '2'
    } else if d == 3 {
        '3'
    } else if d == 4 {
        '4'
    } else if d == 5 {
        '5'
    } else if d == 6 {
        '6'
    } else if d == 7 {
        '7'
    } else if d == 8 {
        '8'
    } else {
        '9'
    }
}

/// A number in decimal digits, without leading zeros.
pub open spec fn decimal_text(n: nat) -> Seq<char>
    decreases n,
{
    if n < 10 {
        seq![digit_char(n as int)]
    } else {
        decimal_text(n / 10).push(digit_char((n % 10) as int))
    }
}

pub open spec fn fault_text(fault: Fault) -> Seq<char> {
    match fault {
        Fault::Missing => "missing field "@,
        Fault::WrongKind => "unexpected kind of value for "@,
        Fault::OutOfRange => "value out of range for "@,
    }
}

pub open spec fn field_text(field: Field) -> Seq<char> {
    match field {
        Field::Root => "the root"@,
        Field::Entities => "`Entities`"@,
        Field::Entity => "an entity"@,
        Field::Id => "`id`"@,
        Field::Pos => "`Pos`"@,
        Field::Item => "`Item`"@,
        Field::ItemId => "`Item.id`"@,
        Field::ItemCount => "`Item.count`"@,
        Field::Age => "`Age`"@,
    }
}

/// The sentence that names an error: the fault, the place, and the position
/// of the entity where the error lies within one.
pub open spec fn description(error: SchemaError) -> Seq<char> {
    let place = fault_text(error.fault) + field_text(error.field);
    match error.entity {
        Some(i) => place + " at entity "@ + decimal_text(i as nat),
        None => place,
    }
}

/// The name of the file that the dump of a malformed chunk goes to.
pub open spec fn dump_name(stamp: Seq<char>) -> Seq<char> {
    "entity_structure_debug_"@ + stamp + ".json"@
}

/// What is said of a chunk that decodes but holds no list of entities.
pub open spec fn malformed_text(error: Seq<char>, dump_file: Seq<char>) -> Seq<char> {
    "Failed to parse entity data: "@ + error + ". Structure saved to file "@ + dump_file
}

/// What is said of a chunk that does not decode at all.
pub open spec fn undecodable_text(error: Seq<char>) -> Seq<char> {
    "Complete failure in parsing entity data: "@ + error
}

/// `chrono::Local::now`, written by `format` as year, month, day, an
/// underscore, hour, minute and second. The text depends on the clock and on
/// the time zone of the machine, so nothing is claimed of it.
#[verifier::external_body]
pub(crate) fn local_stamp() -> (stamp: String) {
    chrono::Local::now().format("%Y%m%d_%H%M%S").to_string()
}

fn digit_str(d: usize) -> (s: &'static str)
    requires
        d < 10,
    ensures
        s@ == seq![digit_char(d as int)],
{
    proof {
        reveal_strlit("0");
        reveal_strlit("1");
        reveal_strlit("2");
        reveal_strlit("3");
        reveal_strlit("4");
        reveal_strlit("5");
        reveal_strlit("6");
        reveal_strlit("7");
        reveal_strlit("8");
        reveal_strlit("9");
    }
    let s = if d == 0 {
        "0"
    } else if d == 1 {
        "1"
    } else if d == 2 {
        "2"
    } else if d == 3 {
        "3"
    } else if d == 4 {
        "4"
    } else if d == 5 {
        "5"
    } else if d == 6 {
        "6"
    } else if d == 7 {
        "7"
    } else if d == 8 {
        "8"
    } else {
        "9"
    };
    assert(s@ =~= seq![digit_char(d as int)]);
    s
}

/// Writes a number in decimal digits.
pub fn decimal(n: usize) -> (text: String)
    ensures
        text@ == decimal_text(n as nat),
    decreases n,
{
    if n < 10 {
        String::from_str(digit_str(n))
    } else {
        let mut text = decimal(n / 10);
        text.append(digit_str(n % 10));
        assert(text@ =~= decimal_text(n as nat));
        text
    }
}

fn fault_str(fault: Fault) -> (s: &'static str)
    ensures
        s@ == fault_text(fault),
{
    match fault {
        Fault::Missing => "missing field ",
        Fault::WrongKind => "unexpected kind of value for ",
        Fault::OutOfRange => "value out of range for ",
    }
}

fn field_str(field: Field) -> (s: &'static str)
    ensures
        s@ == field_text(field),
{
    match field {
        Field::Root => "the root",
        Field::Entities => "`Entities`",
        Field::Entity => "an entity",
        Field::Id => "`id`",
        Field::Pos => "`Pos`",
        Field::Item => "`Item`",
        Field::ItemId => "`Item.id`",
        Field::ItemCount => "`Item.count`",
        Field::Age => "`Age`",
    }
}

/// Puts an error into words.
pub fn describe(error: &SchemaError) -> (text: String)
    ensures
        text@ == description(*error),
{
    let mut text = String::from_str(fault_str(error.fault));
    text.append(field_str(error.field));
    match error.entity {
        Some(i) => {
            text.append(" at entity ");
            let number = decimal(i);
            text.append(number.as_str());
        },
        None => {},
    }
    text
}

/// The name of the file that the dump of a malformed chunk goes to, for a
/// given time stamp.
pub fn dump_file_name(stamp: &str) -> (name: String)
    ensures
        name@ == dump_name(stamp@),
{
    let mut name = String::from_str("entity_structure_debug_");
    name.append(stamp);
    name.append(".json");
    name
}

/// The message for a chunk that decodes but holds no list of entities.
pub fn malformed_message(error: &str, dump_file: &str) -> (message: String)
    ensures
        message@ == malformed_text(error@, dump_file@),
{
    let mut message = String::from_str("Failed to parse entity data: ");
    message.append(error);
    message.append(". Structure saved to file ");
    message.append(dump_file);
    message
}

/// The message for a chunk that does not decode at all.
pub fn undecodable_message(error: &str) -> (message: String)
    ensures
        message@ == undecodable_text(error@),
{
    let mut message = String::from_str("Complete failure in parsing entity data: ");
    message.append(error);
    message
}

} // verus!
