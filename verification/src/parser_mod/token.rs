use vstd::prelude::*;

verus! {

/// The reserved words of the statement language.
#[derive(Clone, Copy, Debug, PartialEq, Eq, Structural)]
pub enum Reserved {
    SELECT,
    FROM,
    COUNT,
}

/// The reserved word that `token` spells exactly (upper case), if any.
pub open spec fn spec_reserved(token: Seq<char>) -> Option<Reserved> {
    if token == "SELECT"@ {
        Some(Reserved::SELECT)
    } else if token == "FROM"@ {
        Some(Reserved::FROM)
    } else if token == "COUNT"@ {
        Some(Reserved::COUNT)
    } else {
        None
    }
}

/// Tells whether `token` is a reserved word, and which.
pub fn is_reserved(token: &String) -> (res: Option<Reserved>)
    ensures
        res == spec_reserved(token@),
{
    if *token == String::from_str("SELECT") {
        Some(Reserved::SELECT)
    } else if *token == String::from_str("FROM") {
        Some(Reserved::FROM)
    } else if *token == String::from_str("COUNT") {
        Some(Reserved::COUNT)
    } else {
        None
    }
}

} // verus!
