//! The namespaces of the store that the workload writes to.

use vstd::prelude::*;

verus! {

/// A named namespace of the store. Each one is created once, when the
/// environment is initialised, and lives for the whole run.
#[derive(Clone, Copy, Debug, PartialEq, Eq, Structural)]
pub enum Table {
    Small,
    Large,
    Ballast,
}

impl Table {
    /// The name under which the store knows the namespace.
    pub open spec fn name(self) -> Seq<char> {
        match self {
            Table::Small => "small"@,
            Table::Large => "large"@,
            Table::Ballast => "ballast"@,
        }
    }

    pub fn as_str(&self) -> (name: &'static str)
        ensures
            name@ == self.name(),
    {
        match self {
            Self::Small => "small",
            Self::Large => "large",
            Self::Ballast => "ballast",
        }
    }
}

/// No two namespaces share a name.
pub proof fn lemma_names_distinct(a: Table, b: Table)
    requires
        a.name() == b.name(),
    ensures
        a == b,
{
    reveal_strlit("small");
    reveal_strlit("large");
    reveal_strlit("ballast");
    assert("small"@.len() == 5 && "large"@.len() == 5 && "ballast"@.len() == 7);
    assert("small"@[0] == 's' && "large"@[0] == 'l');
}

} // verus!
