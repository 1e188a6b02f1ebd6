//! Names of entries in the run's scratch area.
use vstd::prelude::*;
use crate::support::{is_ascii_alnum, join_path, path_join_text, random_alphanumeric};

verus! {

/// Entries of the scratch area get random names of this many characters.
pub const NAME_LEN: usize = 30;

/// A name that the scratch area may give an entry.
pub open spec fn is_entry_name(name: Seq<char>) -> bool {
    &&& name.len() == NAME_LEN
    &&& forall|i: int| 0 <= i < name.len() ==> is_ascii_alnum(#[trigger] name[i])
}

/// A fresh path inside the scratch area `area`, under a random name.
pub fn fresh_entry(area: &str) -> (r: String)
    ensures
        exists|name: Seq<char>| is_entry_name(name) && r@ == path_join_text(area@, name),
{
    let name = random_alphanumeric(NAME_LEN);
    assert(is_entry_name(name@));
    join_path(area, name.as_str())
}

} // verus!
