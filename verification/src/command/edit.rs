//! Changes to a record that the store already holds.

use crate::database::{
    params_added, params_removed, without_record, DbOperation, EXCLUDED_CHARS,
};
use crate::error::Error;
use crate::util::{alias_to_pair, contains_char, split_first, ALIAS_DELIMITER};
use vstd::prelude::*;

verus! {

/// What to do with the record.
#[derive(Debug, Clone, PartialEq, Eq)]
pub enum Action {
    /// Add parameter aliases, each given as `<origin>=<alias>`.
    Add { params: Vec<String> },
    /// Remove parameter aliases.
    Rmv { params: Vec<String> },
    /// Remove the record.
    Del,
}

/// A change to the record that carries `alias`.
#[derive(Debug, Clone, PartialEq, Eq)]
pub struct Edit {
    /// The alias of the record to change.
    pub alias: String,
    /// The change.
    pub action: Action,
}

/// Whether `s` holds a carriage return or a line feed.
pub open spec fn has_excluded(s: Seq<char>) -> bool {
    s.contains(EXCLUDED_CHARS[0]) || s.contains(EXCLUDED_CHARS[1])
}

/// The `(origin, alias)` pairs that a list of definitions spells, in their
/// order. A definition that holds a carriage return or a line feed is passed
/// over. `None` when one of the others lacks the `=`.
pub open spec fn definitions(params: Seq<Seq<char>>) -> Option<Seq<(Seq<char>, Seq<char>)>>
    decreases params.len(),
{
    if params.len() == 0 {
        Some(Seq::empty())
    } else {
        match definitions(params.drop_last()) {
            None => None,
            Some(pairs) => if has_excluded(params.last()) {
                Some(pairs)
            } else {
                match split_first(params.last(), ALIAS_DELIMITER) {
                    Some(pair) => Some(pairs.push(pair)),
                    None => None,
                }
            },
        }
    }
}

/// Once a prefix of the definitions spells nothing, the whole list spells nothing.
proof fn lemma_definitions_prefix(params: Seq<Seq<char>>, k: int)
    requires
        0 <= k <= params.len(),
        definitions(params.take(k)) is None,
    ensures
        definitions(params) is None,
    decreases params.len() - k,
{
    if k < params.len() {
        assert(params.drop_last().take(k) =~= params.take(k));
        lemma_definitions_prefix(params.drop_last(), k);
    } else {
        assert(params.take(k) =~= params);
    }
}

/// Whether `s` holds a carriage return or a line feed.
pub fn is_excluded(s: &str) -> (r: bool)
    ensures
        r == has_excluded(s@),
{
    contains_char(s, EXCLUDED_CHARS[0]) || contains_char(s, EXCLUDED_CHARS[1])
}

/// The strings of `params` as borrowed text.
fn borrowed(params: &Vec<String>) -> (keys: Vec<&str>)
    ensures
        keys.deep_view() == params.deep_view(),
{
    let mut keys: Vec<&str> = Vec::with_capacity(params.len());
    let mut k: usize = 0;
    while k < params.len()
        invariant
            0 <= k <= params.len(),
            keys.len() == k,
            forall|j: int| 0 <= j < k ==> keys@[j]@ == params@[j]@,
        decreases params.len() - k,
    {
        keys.push(params[k].as_str());
        k = k + 1;
    }
    assert(keys.deep_view() =~= params.deep_view());
    keys
}

impl Edit {
    /// Applies the change to `db`.
    ///
    /// `Add` enters the definitions into the mappings of the record; when one
    /// of them lacks the `=`, nothing is entered and the call fails. `Rmv`
    /// takes the named entries out. `Del` removes the record. Where no record
    /// carries the alias, nothing changes and the call succeeds.
    pub fn execute<D: DbOperation>(&self, db: &mut D) -> (r: Result<(), Error>)
        ensures
            match self.action {
                Action::Add { params } => match definitions(params.deep_view()) {
                    Some(pairs) => r is Ok && params_added(
                        old(db).contents(),
                        final(db).contents(),
                        self.alias@,
                        pairs,
                    ),
                    None => r matches Err(Error::InvalidAliasFormat) && final(db).contents() == old(db).contents(),
                },
                Action::Rmv { params } => r is Ok && params_removed(
                    old(db).contents(),
                    final(db).contents(),
                    self.alias@,
                    params.deep_view(),
                ),
                Action::Del => r is Ok && final(db).contents() == without_record(old(db).contents(), self.alias@),
            },
    {
        match &self.action {
            Action::Add { params } => {
                let ghost all = params.deep_view();
                let mut mappings: Vec<(&str, &str)> = Vec::with_capacity(params.len());
                let mut k: usize = 0;
                assert(all.take(0) =~= Seq::<Seq<char>>::empty());
                assert(mappings.deep_view() =~= Seq::<(Seq<char>, Seq<char>)>::empty());
                while k < params.len()
                    invariant
                        0 <= k <= params.len(),
                        all == params.deep_view(),
                        definitions(all.take(k as int)) == Some(mappings.deep_view()),
                        db.contents() == old(db).contents(),
                        self.action == (Action::Add { params: *params }),
                    decreases params.len() - k,
                {
                    let param = params[k].as_str();
                    let ghost before = mappings.deep_view();
                    proof {
                        assert(all.take(k + 1).drop_last() =~= all.take(k as int));
                        assert(all.take(k + 1).last() == param@);
                    }
                    if !is_excluded(param) {
                        match alias_to_pair(param) {
                            Ok(pair) => {
                                mappings.push(pair);
                                assert(mappings.deep_view() =~= before.push((pair.0@, pair.1@)));
                            },
                            Err(e) => {
                                proof {
                                    lemma_definitions_prefix(all, k + 1);
                                }
                                return Err(e);
                            },
                        }
                    }
                    k = k + 1;
                }
                assert(all.take(k as int) =~= all);
                db.add_params(self.alias.as_str(), mappings.as_slice());
            },
            Action::Rmv { params } => {
                let keys = borrowed(params);
                db.rem_params(self.alias.as_str(), keys.as_slice());
            },
            Action::Del => {
                db.del_record(self.alias.as_str());
            },
        }
        Ok(())
    }
}

} // verus!
