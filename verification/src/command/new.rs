//! Definition of a new alias.

use crate::database::{with_record, DbOperation, Record, RecordView};
use crate::error::Error;
use crate::util::{alias_to_pair, split_first, ALIAS_DELIMITER};
use vstd::prelude::*;

verus! {

/// A new alias for a command, with aliases for its parameters.
#[derive(Debug, Clone, PartialEq, Eq)]
pub struct New {
    /// The command and its alias, as `<origin>=<alias>`.
    pub command: String,
    /// Parameters and their aliases, each as `<origin>=<alias>`.
    pub params: Vec<String>,
}

/// The mappings that a list of definitions `<origin>=<alias>` spells, as
/// `(alias, origin)` pairs in their order. A definition without the `=` is
/// passed over.
pub open spec fn mappings_of(params: Seq<Seq<char>>) -> Seq<(Seq<char>, Seq<char>)>
    decreases params.len(),
{
    if params.len() == 0 {
        Seq::empty()
    } else {
        match split_first(params.last(), ALIAS_DELIMITER) {
            Some((origin, alias)) => mappings_of(params.drop_last()).push((alias, origin)),
            None => mappings_of(params.drop_last()),
        }
    }
}

/// The record that a definition and its parameter definitions spell; `None`
/// when the definition lacks the `=`.
pub open spec fn record_for(command: Seq<char>, params: Seq<Seq<char>>) -> Option<RecordView> {
    match split_first(command, ALIAS_DELIMITER) {
        Some((origin, alias)) => Some(RecordView { origin, alias, mappings: mappings_of(params) }),
        None => None,
    }
}

impl New {
    /// Adds the record that this definition spells to `db`, in the place of
    /// the record with the same alias where there is one. Fails, with `db` as
    /// it was, when the definition lacks the `=`.
    pub fn execute<D: DbOperation>(&self, db: &mut D) -> (r: Result<(), Error>)
        ensures
            match record_for(self.command@, self.params.deep_view()) {
                Some(record) => r is Ok && final(db).contents() == with_record(old(db).contents(), record),
                None => r matches Err(Error::InvalidAliasFormat) && final(db).contents() == old(db).contents(),
            },
    {
        let (origin, alias) = match alias_to_pair(self.command.as_str()) {
            Ok(pair) => pair,
            Err(e) => {
                return Err(e);
            },
        };
        let ghost all = self.params.deep_view();
        let mut mappings: Vec<(String, String)> = Vec::with_capacity(self.params.len());
        let mut k: usize = 0;
        assert(all.take(0) =~= Seq::<Seq<char>>::empty());
        assert(mappings.deep_view() =~= Seq::<(Seq<char>, Seq<char>)>::empty());
        while k < self.params.len()
            invariant
                0 <= k <= self.params.len(),
                all == self.params.deep_view(),
                mappings.deep_view() == mappings_of(all.take(k as int)),
            decreases self.params.len() - k,
        {
            let param = self.params[k].as_str();
            let ghost before = mappings.deep_view();
            proof {
                assert(all.take(k + 1).drop_last() =~= all.take(k as int));
                assert(all.take(k + 1).last() == param@);
            }
            match alias_to_pair(param) {
                Ok((param_origin, param_alias)) => {
                    mappings.push((param_alias.to_owned(), param_origin.to_owned()));
                    assert(mappings.deep_view() =~= before.push((param_alias@, param_origin@)));
                },
                Err(_) => {},
            }
            k = k + 1;
        }
        assert(all.take(k as int) =~= all);
        let record = Record { origin: origin.to_owned(), alias: alias.to_owned(), mappings };
        db.add_record(record);
        Ok(())
    }
}

} // verus!
