//! The lookup table from parameter alias to parameter origin, kept in a
//! `hashbrown::HashMap` over borrowed strings.

use vstd::prelude::*;

verus! {

/// A hash table from parameter alias to parameter origin. The strings are
/// borrowed from the record and the arguments that the table is built from.
#[verifier::external_body]
pub struct Table<'a> {
    inner: hashbrown::HashMap<&'a str, &'a str>,
}

/// The entries of a table, each string taken by its characters.
pub uninterp spec fn table_entries(t: Table) -> Map<Seq<char>, Seq<char>>;

/// The table that a list of `(alias, origin)` pairs spells when they are
/// entered from first to last: of two pairs with one alias the later stays.
pub open spec fn mapping_table(pairs: Seq<(Seq<char>, Seq<char>)>) -> Map<Seq<char>, Seq<char>>
    decreases pairs.len(),
{
    if pairs.len() == 0 {
        Map::empty()
    } else {
        mapping_table(pairs.drop_last()).insert(pairs.last().0, pairs.last().1)
    }
}

/// Whether no alias stands twice in a list of `(alias, origin)` pairs.
pub open spec fn distinct_keys(pairs: Seq<(Seq<char>, Seq<char>)>) -> bool {
    forall|i: int, j: int| 0 <= i < j < pairs.len() ==> pairs[i].0 != pairs[j].0
}

impl<'a> Table<'a> {
    /// `hashbrown::HashMap::with_capacity`: a table without entries, with
    /// room for `capacity` of them.
    #[verifier::external_body]
    pub(crate) fn with_capacity(capacity: usize) -> (table: Table<'a>)
        ensures
            table_entries(table) == mapping_table(Seq::empty()),
    {
        Table { inner: hashbrown::HashMap::with_capacity(capacity) }
    }

    /// `hashbrown::HashMap::insert`: afterwards `key` leads to `value`, in
    /// place of what it led to before; the other entries stay.
    #[verifier::external_body]
    pub(crate) fn insert(&mut self, key: &'a str, value: &'a str)
        ensures
            table_entries(*final(self)) == table_entries(*old(self)).insert(key@, value@),
    {
        self.inner.insert(key, value);
    }

    /// `hashbrown::HashMap::get`: what `key` leads to, if the table holds it.
    #[verifier::external_body]
    pub(crate) fn get(&self, key: &str) -> (r: Option<&'a str>)
        ensures
            match r {
                Some(value) => table_entries(*self).contains_key(key@) && table_entries(
                    *self,
                )[key@] == value@,
                None => !table_entries(*self).contains_key(key@),
            },
    {
        self.inner.get(key).copied()
    }

    /// `hashbrown::HashMap::remove`: afterwards the table does not hold
    /// `key`; the other entries stay.
    #[verifier::external_body]
    pub(crate) fn remove(&mut self, key: &str)
        ensures
            table_entries(*final(self)) == table_entries(*old(self)).remove(key@),
    {
        self.inner.remove(key);
    }

    /// `hashbrown::HashMap::into_iter`, each entry copied into owned strings:
    /// every entry of the table comes out once, in an order that the hasher
    /// decides, so the list spells the table and holds no alias twice.
    #[verifier::external_body]
    pub(crate) fn into_pairs(self) -> (pairs: Vec<(String, String)>)
        ensures
            distinct_keys(pairs.deep_view()),
            mapping_table(pairs.deep_view()) == table_entries(self),
    {
        self.inner.into_iter().map(|(key, value)| (key.to_owned(), value.to_owned())).collect()
    }
}

} // verus!
