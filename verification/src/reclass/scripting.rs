//! The verified half of the base-address mini-language: resolving the
//! base of the one read-only mapping backed by a named file.  The
//! expression engine itself is an outside collaborator and runs at the
//! caller's side.
use crate::error::{BetrayalError, BetrayalResult};
use crate::region::{AddressInfo, MapPath, Region};
use vstd::prelude::*;
use vstd::string::*;

verus! {

/// A region backed by exactly the named file and not writable.
pub open spec fn names_file(entry: (AddressInfo, Region), file: Seq<char>) -> bool {
    match entry.1.pathname {
        MapPath::MappedFile(s) => s@ == file && !entry.1.writable,
        _ => false,
    }
}

/// The base of the unique read-only mapping whose pathname equals `file`:
/// an error when no mapping matches or when more than one does.
pub fn static_address_lookup(maps: &Vec<(AddressInfo, Region)>, file: &str) -> (r: BetrayalResult<
    usize,
>)
    ensures
        match r {
            Ok(base) => exists|j: int|
                0 <= j < maps@.len() && names_file(#[trigger] maps@[j], file@) && maps@[j].1.base
                    == base,
            Err(e) => e is ScriptingError,
        },
        r is Ok ==> forall|p: int, q: int|
            0 <= p < q < maps@.len() && names_file(#[trigger] maps@[p], file@) && names_file(
                #[trigger] maps@[q],
                file@,
            ) ==> false,
        ((exists|j: int| 0 <= j < maps@.len() && names_file(#[trigger] maps@[j], file@)) && (
        forall|p: int, q: int|
            0 <= p < q < maps@.len() ==> !(names_file(#[trigger] maps@[p], file@) && names_file(
                #[trigger] maps@[q],
                file@,
            )))) ==> r is Ok,
{
    let n = maps.len();
    let mut found: Option<usize> = None;
    let mut i: usize = 0;
    while i < n
        invariant
            0 <= i <= n,
            n == maps@.len(),
            match found {
                Some(j) => j < i && names_file(maps@[j as int], file@) && forall|k: int|
                    0 <= k < i && k != j ==> !names_file(#[trigger] maps@[k], file@),
                None => forall|k: int| 0 <= k < i ==> !names_file(#[trigger] maps@[k], file@),
            },
        decreases n - i,
    {
        let matches_here = match &maps[i].1.pathname {
            MapPath::MappedFile(s) => crate::numtext::str_eq(s.as_str(), file)
                && !maps[i].1.writable,
            _ => false,
        };
        if matches_here {
            match found {
                Some(_j) => {
                    return Err(
                        BetrayalError::ScriptingError(
                            String::from_str("more than one memory entry with that name found"),
                        ),
                    );
                },
                None => {
                    found = Some(i);
                },
            }
        }
        i = i + 1;
    }
    match found {
        Some(j) => Ok(maps[j].1.base),
        None => Err(BetrayalError::ScriptingError(String::from_str("no such section"))),
    }
}

} // verus!
