//! Actor records: where their files are named.

use vstd::prelude::*;
use vstd::string::StringSliceAdditionalSpecFns;
use crate::text::{fields, split_fields};

verus! {

/// The identifier that an actor record's file name `<id>.dat` carries: the
/// name must split at dots into exactly the identifier and `dat`.
pub open spec fn player_file_spec(s: Seq<u8>) -> Option<Seq<u8>> {
    let f = fields(s, 46u8);
    if f.len() == 2 && f[1] == seq![100u8, 97u8, 116u8] {
        Some(f[0])
    } else {
        None
    }
}

/// The bytes of the identifier in an actor record's file name `<id>.dat`, or
/// `None` for a file that is no actor record.
pub fn player_file_id(name: &str) -> (r: Option<Vec<u8>>)
    ensures
        r matches Some(id) ==> player_file_spec(name.spec_bytes()) == Some(id@),
        r is None ==> player_file_spec(name.spec_bytes()) is None,
{
    let mut parts = split_fields(name.as_bytes(), 46u8);
    let ghost f = fields(name.spec_bytes(), 46u8);
    let ghost dat = seq![100u8, 97u8, 116u8];
    assert(dat.len() == 3 && dat[0] == 100u8 && dat[1] == 97u8 && dat[2] == 116u8);
    if parts.len() != 2 || parts[1].len() != 3 || parts[1][0] != 100u8 || parts[1][1] != 97u8
        || parts[1][2] != 116u8 {
        proof {
            if parts@.len() == 2 {
                assert(parts@[1]@ == f[1]);
                assert(f[1] != dat);
            }
        }
        return None;
    }
    assert(f[1] =~= dat);
    parts.pop();
    parts.pop()
}

} // verus!
