//! The positions of columns by their names, kept in a hash map.

use vstd::prelude::*;

verus! {

/// Where each named column stands.
///
/// Trusted: the map behind it is a `hashbrown::HashMap`.
#[verifier::external_body]
#[derive(Debug)]
pub struct ColumnNames {
    names: hashbrown::HashMap<String, usize>,
}

/// What a map of column names holds.
pub uninterp spec fn name_positions(names: ColumnNames) -> Map<Seq<char>, usize>;

impl ColumnNames {
    /// A map that holds nothing.
    ///
    /// Trusted: this is `hashbrown::HashMap::new`.
    #[verifier::external_body]
    pub(crate) fn new() -> (names: Self)
        ensures
            (name_positions(names) == Map::<Seq<char>, usize>::empty()),
    {
        ColumnNames { names: hashbrown::HashMap::new() }
    }

    /// A map that holds the same.
    ///
    /// Trusted: this is `hashbrown::HashMap::clone`, which holds a clone of each entry.
    #[verifier::external_body]
    pub(crate) fn copied(&self) -> (copy: Self)
        ensures
            name_positions(copy) == name_positions(*self),
    {
        ColumnNames { names: self.names.clone() }
    }

    /// Where the column of the given name stands, if there is one.
    ///
    /// Trusted: this is `hashbrown::HashMap::get`, which finds what is held under the key.
    #[verifier::external_body]
    pub(crate) fn get(&self, name: &str) -> (position: Option<usize>)
        ensures
            position is Some <==> name_positions(*self).contains_key(name@),
            position matches Some(p) ==> p == name_positions(*self)[name@],
    {
        self.names.get(name).copied()
    }

    /// Files a position under a name.
    ///
    /// Trusted: this is `hashbrown::HashMap::insert`, which sets what is held under the key and
    /// leaves the rest as it is.
    #[verifier::external_body]
    pub(crate) fn insert(&mut self, name: String, position: usize)
        ensures
            name_positions(*final(self)) == name_positions(*old(self)).insert(name@, position),
    {
        self.names.insert(name, position);
    }

    /// Every name with its position, in no particular order.
    ///
    /// Trusted: this is `hashbrown::HashMap::iter`, which visits each entry exactly once, in an
    /// order that is left open.
    #[verifier::external_body]
    pub(crate) fn entries(&self) -> (entries: Vec<(&String, usize)>)
        ensures
            lists_positions(entries@, name_positions(*self)),
    {
        self.names.iter().map(|(name, position)| (name, *position)).collect()
    }
}

/// The entries are those of the map, each exactly once.
pub open spec fn lists_positions(
    entries: Seq<(&String, usize)>,
    positions: Map<Seq<char>, usize>,
) -> bool {
    &&& forall|i: int|
        0 <= i < entries.len() ==> {
            &&& positions.contains_key((#[trigger] entries[i]).0@)
            &&& positions[entries[i].0@] == entries[i].1
        }
    &&& forall|i: int, j: int|
        0 <= i < j < entries.len() ==> (#[trigger] entries[i]).0@ != (#[trigger] entries[j]).0@
    &&& forall|name: Seq<char>| #[trigger] positions.contains_key(name) ==> is_listed(entries, name)
}

/// One of the entries has the name.
pub open spec fn is_listed(entries: Seq<(&String, usize)>, name: Seq<char>) -> bool {
    exists|i: int| 0 <= i < entries.len() && (#[trigger] entries[i]).0@ == name
}

} // verus!
