//! How the target directory is rearranged after sorting.

use vstd::prelude::*;
use crate::clustering::Table;

verus! {

/// The number of classes that get a directory of their own: the classes
/// before the first empty one.  No class after an empty class is written
/// out, with or without members.
pub fn classes_to_write(table: &Table<usize>) -> (count: usize)
    ensures
        count <= table.len(),
        forall|c: int| 0 <= c < count ==> (#[trigger] table[c]).len() > 0,
        count < table.len() ==> table[count as int].len() == 0,
{
    let mut count: usize = 0;
    while count < table.len() && table[count].len() > 0
        invariant
            count <= table.len(),
            forall|c: int| 0 <= c < count ==> (#[trigger] table[c]).len() > 0,
        decreases table.len() - count,
    {
        count += 1;
    }
    count
}

} // verus!
