//! The dimensions of a world: names, stored identifiers and directories.

use vstd::prelude::*;
use vstd::string::StringSliceAdditionalSpecFns;

verus! {

/// An independent world-space with its own region storage.
#[derive(Copy, Clone, Debug, PartialEq, Eq, Hash, Structural)]
pub enum Kind {
    Overworld,
    Nether,
    End,
}

/// A stored dimension identifier that names no known dimension.
#[derive(Copy, Clone, Debug, PartialEq, Eq, Structural)]
pub struct UnknownDimension;

/// The dimension that a stored identifier names, checked in the order
/// overworld, nether, end.
pub open spec fn kind_of_identifier(b: Seq<u8>) -> Result<Kind, UnknownDimension> {
    if b == "minecraft:overworld".spec_bytes() {
        Ok(Kind::Overworld)
    } else if b == "minecraft:the_nether".spec_bytes() {
        Ok(Kind::Nether)
    } else if b == "minecraft:the_end".spec_bytes() {
        Ok(Kind::End)
    } else {
        Err(UnknownDimension)
    }
}

proof fn lemma_identifiers_distinct()
    ensures
        "minecraft:overworld".spec_bytes().len() == 19,
        "minecraft:the_nether".spec_bytes().len() == 20,
        "minecraft:the_end".spec_bytes().len() == 17,
{
    reveal_strlit("minecraft:overworld");
    reveal_strlit("minecraft:the_nether");
    reveal_strlit("minecraft:the_end");
    vstd::string::is_ascii_spec_bytes("minecraft:overworld");
    vstd::string::is_ascii_spec_bytes("minecraft:the_nether");
    vstd::string::is_ascii_spec_bytes("minecraft:the_end");
}

/// Whether two byte strings are equal.
pub fn bytes_eq(a: &[u8], b: &[u8]) -> (r: bool)
    ensures
        r == (a@ == b@),
{
    if a.len() != b.len() {
        return false;
    }
    let mut i: usize = 0;
    while i < a.len()
        invariant
            i <= a@.len(),
            a@.len() == b@.len(),
            forall|k: int| 0 <= k < i ==> a@[k] == b@[k],
        decreases a@.len() - i,
    {
        if a[i] != b[i] {
            return false;
        }
        i += 1;
    }
    assert(a@ =~= b@);
    true
}

impl Kind {
    /// The name used in configuration and messages.
    pub fn name(&self) -> (r: &'static str)
        ensures
            *self == Kind::Overworld ==> r == "overworld",
            *self == Kind::Nether ==> r == "nether",
            *self == Kind::End ==> r == "end",
    {
        match self {
            Kind::Overworld => "overworld",
            Kind::Nether => "nether",
            Kind::End => "end",
        }
    }

    /// The identifier written into an actor record when moving it here;
    /// reading it back names this dimension again.
    pub fn identifier(&self) -> (r: &'static str)
        ensures
            *self == Kind::Overworld ==> r == "minecraft:overworld",
            *self == Kind::Nether ==> r == "minecraft:the_nether",
            *self == Kind::End ==> r == "minecraft:the_end",
            kind_of_identifier(r.spec_bytes()) == Ok::<Kind, UnknownDimension>(*self),
    {
        proof {
            lemma_identifiers_distinct();
        }
        match self {
            Kind::Overworld => "minecraft:overworld",
            Kind::Nether => "minecraft:the_nether",
            Kind::End => "minecraft:the_end",
        }
    }

    /// The dimension that an identifier read from an actor record names.
    pub fn from_identifier(id: &str) -> (r: Result<Kind, UnknownDimension>)
        ensures
            r == kind_of_identifier(id.spec_bytes()),
    {
        let b = id.as_bytes();
        if bytes_eq(b, "minecraft:overworld".as_bytes()) {
            Ok(Kind::Overworld)
        } else if bytes_eq(b, "minecraft:the_nether".as_bytes()) {
            Ok(Kind::Nether)
        } else if bytes_eq(b, "minecraft:the_end".as_bytes()) {
            Ok(Kind::End)
        } else {
            Err(UnknownDimension)
        }
    }

    /// The subdirectory of the world directory that holds this dimension,
    /// or `None` where it is the world directory itself.
    pub fn subdirectory(&self) -> (r: Option<&'static str>)
        ensures
            *self == Kind::Overworld ==> r is None,
            *self == Kind::Nether ==> r == Some("DIM-1"),
            *self == Kind::End ==> r == Some("DIM1"),
    {
        match self {
            Kind::Overworld => None,
            Kind::Nether => Some("DIM-1"),
            Kind::End => Some("DIM1"),
        }
    }
}

} // verus!
