//! Names for the classes of a table.
//!
//! A class is named after its position, or after the label that a lookup
//! finds for its members.  The lookup itself is the caller's: this module
//! decides when it is asked and what is made of its answer.

use vstd::prelude::*;
use vstd::string::*;
use crate::clustering::Table;
use crate::decimal::{decimal, push_decimal};

verus! {

/// The name of class `bucket` by position alone: `Class 1` for the first.
pub open spec fn default_class_name(bucket: nat) -> Seq<char> {
    "Class "@ + decimal(bucket + 1)
}

/// The name of class `bucket` when it has no members: `Empty class (1)` for
/// the first.
pub open spec fn empty_class_name(bucket: nat) -> Seq<char> {
    "Empty class ("@ + decimal(bucket + 1) + ")"@
}

/// The name of class `bucket` given what the lookup found for its members:
/// the label followed by the position in brackets, as in `tench (1)`, and
/// nothing at all where no label was found.
pub open spec fn labelled_class_name(label: Option<Seq<char>>, bucket: nat) -> Seq<char> {
    match label {
        Some(label) => label + " ("@ + decimal(bucket + 1) + ")"@,
        None => Seq::empty(),
    }
}

/// What a lookup returned, as text.
pub open spec fn label_text(label: Option<String>) -> Option<Seq<char>> {
    match label {
        Some(label) => Some(label@),
        None => None,
    }
}

/// Whether `name` is what a nonempty class `bucket` is called after some
/// answer that `top_label` may give for its members.
pub open spec fn is_labelled_name<F: Fn(&Vec<usize>) -> Option<String>>(
    top_label: F,
    members: &Vec<usize>,
    bucket: nat,
    name: Seq<char>,
) -> bool {
    exists|label: Option<String>| #[trigger]
        call_ensures(top_label, (members,), label) && name == labelled_class_name(
            label_text(label),
            bucket,
        )
}

/// Names class `bucket` by its position.
pub fn position_name(bucket: usize) -> (name: String)
    requires
        bucket < usize::MAX,
    ensures
        name@ == default_class_name(bucket as nat),
{
    let mut name = String::from_str("Class ");
    push_decimal(&mut name, bucket + 1);
    name
}

/// Names the empty class `bucket`.
pub fn empty_name(bucket: usize) -> (name: String)
    requires
        bucket < usize::MAX,
    ensures
        name@ == empty_class_name(bucket as nat),
{
    let mut name = String::from_str("Empty class (");
    push_decimal(&mut name, bucket + 1);
    name.append(")");
    name
}

/// Names class `bucket` after the label that was found for it, if any.
pub fn labelled_name(label: Option<String>, bucket: usize) -> (name: String)
    requires
        bucket < usize::MAX,
    ensures
        name@ == labelled_class_name(label_text(label), bucket as nat),
{
    match label {
        Some(label) => {
            let mut name = label;
            name.append(" (");
            push_decimal(&mut name, bucket + 1);
            name.append(")");
            name
        },
        None => String::new(),
    }
}

/// Generates basic class names as a number representing order:
/// `Class 1`, `Class 2`, and so on up to `class_count`.
pub fn gen_default_class_names(class_count: usize) -> (class_names: Vec<String>)
    ensures
        class_names.len() == class_count,
        forall|i: int|
            0 <= i < class_count ==> (#[trigger] class_names[i])@ == default_class_name(i as nat),
{
    let mut class_names: Vec<String> = Vec::new();
    let mut i: usize = 0;
    while i < class_count
        invariant
            i <= class_count,
            class_names.len() == i,
            forall|j: int| 0 <= j < i ==> (#[trigger] class_names[j])@ == default_class_name(j as nat),
        decreases class_count - i,
    {
        class_names.push(position_name(i));
        i += 1;
    }
    class_names
}

/// Names every class of a table.  `top_label` is asked once for each class
/// that has members, in order, and is handed the members; an empty class is
/// named without asking.
pub fn gen_class_names<F: Fn(&Vec<usize>) -> Option<String>>(
    table: &Table<usize>,
    top_label: F,
) -> (class_names: Vec<String>)
    requires
        forall|i: int|
            0 <= i < table.len() && (#[trigger] table[i]).len() > 0 ==> call_requires(
                top_label,
                (&table[i],),
            ),
    ensures
        class_names.len() == table.len(),
        forall|i: int|
            0 <= i < table.len() && table[i].len() == 0 ==> (#[trigger] class_names[i])@
                == empty_class_name(i as nat),
        forall|i: int|
            0 <= i < table.len() && table[i].len() > 0 ==> is_labelled_name(
                top_label,
                &table[i],
                i as nat,
                (#[trigger] class_names[i])@,
            ),
{
    let class_count: usize = table.len();
    let mut class_names: Vec<String> = Vec::new();
    let mut i: usize = 0;
    while i < class_count
        invariant
            i <= class_count,
            class_count == table.len(),
            class_names.len() == i,
            forall|j: int|
                0 <= j < table.len() && (#[trigger] table[j]).len() > 0 ==> call_requires(
                    top_label,
                    (&table[j],),
                ),
            forall|j: int|
                0 <= j < i && table[j].len() == 0 ==> (#[trigger] class_names[j])@
                    == empty_class_name(j as nat),
            forall|j: int|
                0 <= j < i && table[j].len() > 0 ==> is_labelled_name(
                    top_label,
                    &table[j],
                    j as nat,
                    (#[trigger] class_names[j])@,
                ),
        decreases class_count - i,
    {
        let row: &Vec<usize> = &table[i];
        if row.len() == 0 {
            class_names.push(empty_name(i));
        } else {
            let label: Option<String> = top_label(row);
            class_names.push(labelled_name(label, i));
        }
        i += 1;
    }
    class_names
}

} // verus!
