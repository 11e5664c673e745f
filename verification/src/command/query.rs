//! Expansion of an alias and its arguments into the tokens of a command line.

use crate::database::{
    find_alias, index_of_alias, records_view, table_of, DbOperation, Record, RecordView,
};
use crate::error::Error;
use crate::table::{mapping_table, table_entries};
use crate::util::{group_reference, join, joined, param_to_pair};
use vstd::prelude::*;

verus! {

/// `tokens`, then what `rest` holds, unless `rest` is a failure.
pub open spec fn followed_by(
    tokens: Seq<Seq<char>>,
    rest: Result<Seq<Seq<char>>, Seq<char>>,
) -> Result<Seq<Seq<char>>, Seq<char>> {
    match rest {
        Ok(more) => Ok(tokens + more),
        Err(arg) => Err(arg),
    }
}

/// The tokens that `args` expand to under `table`, read from left to right.
///
/// An argument that the table holds gives its origin. Otherwise a grouped
/// reference `key/count` gives the origin of `key` (or `key` itself where the
/// table does not hold it) and then the next `count` arguments as they
/// stand. Any other argument gives itself. A grouped reference that asks for
/// more arguments than follow it is the failure, and comes back as `Err`.
pub open spec fn expand(table: Map<Seq<char>, Seq<char>>, args: Seq<Seq<char>>) -> Result<
    Seq<Seq<char>>,
    Seq<char>,
>
    decreases args.len(),
{
    if args.len() == 0 {
        Ok(Seq::empty())
    } else if table.contains_key(args[0]) {
        followed_by(seq![table[args[0]]], expand(table, args.drop_first()))
    } else {
        match group_reference(args[0]) {
            Some((key, count)) => {
                if count >= args.len() {
                    Err(args[0])
                } else {
                    let name = if table.contains_key(key) {
                        table[key]
                    } else {
                        key
                    };
                    followed_by(
                        seq![name] + args.subrange(1, 1 + count as int),
                        expand(table, args.skip(1 + count as int)),
                    )
                }
            },
            None => followed_by(seq![args[0]], expand(table, args.drop_first())),
        }
    }
}

/// How a query ends.
pub enum Resolution {
    /// No record carries the alias.
    NotFound,
    /// This argument is a grouped reference that asks for too much.
    Malformed(Seq<char>),
    /// The tokens of the command line, the origin first.
    Tokens(Seq<Seq<char>>),
}

/// What `alias` with `args` resolves to in `records`.
pub open spec fn resolution(
    records: Seq<RecordView>,
    alias: Seq<char>,
    args: Seq<Seq<char>>,
) -> Resolution {
    match index_of_alias(records, alias) {
        None => Resolution::NotFound,
        Some(i) => match expand(mapping_table(records[i].mappings), args) {
            Ok(tokens) => Resolution::Tokens(seq![records[i].origin] + tokens),
            Err(arg) => Resolution::Malformed(arg),
        },
    }
}

/// Steps of `followed_by` can be taken one after the other.
proof fn lemma_followed_by_twice(
    first: Seq<Seq<char>>,
    second: Seq<Seq<char>>,
    rest: Result<Seq<Seq<char>>, Seq<char>>,
)
    ensures
        followed_by(first, followed_by(second, rest)) == followed_by(first + second, rest),
{
    match rest {
        Ok(more) => {
            assert(first + (second + more) =~= (first + second) + more);
        },
        Err(_) => {},
    }
}

/// Resolves `alias` with `args` against `records`: the origin of the record
/// that carries `alias`, then the expansion of `args` under its mappings.
pub fn resolve<'s>(records: &'s [Record], alias: &str, args: &'s [String]) -> (r: Result<
    Vec<&'s str>,
    Error,
>)
    ensures
        match resolution(records_view(records@), alias@, args.deep_view()) {
            Resolution::Tokens(tokens) => r matches Ok(order) && order.deep_view() == tokens,
            Resolution::NotFound => r matches Err(Error::AliasNotFound(name)) && name@ == alias@,
            Resolution::Malformed(arg) => r matches Err(Error::MalformedGroup(found)) && found@
                == arg,
        },
{
    let i = match find_alias(records, alias) {
        Some(i) => i,
        None => {
            return Err(Error::AliasNotFound(alias.to_owned()));
        },
    };
    let record = &records[i];
    let table = table_of(&record.mappings);
    let ghost entries = table_entries(table);
    let ghost all = args.deep_view();
    let ghost mut out: Seq<Seq<char>> = Seq::empty();
    assert(records_view(records@)[i as int] == record@);

    let room = if args.len() < usize::MAX {
        args.len() + 1
    } else {
        args.len()
    };
    let mut order: Vec<&'s str> = Vec::with_capacity(room);
    order.push(record.origin.as_str());
    assert(order.deep_view() =~= seq![record.origin@] + out);
    assert(all.skip(0) =~= all);

    let mut idx: usize = 0;
    while idx < args.len()
        invariant
            0 <= idx <= args.len(),
            all == args.deep_view(),
            entries == table_entries(table),
            entries == mapping_table(record@.mappings),
            index_of_alias(records_view(records@), alias@) == Some(i as int),
            records_view(records@)[i as int] == record@,
            order.deep_view() == seq![record.origin@] + out,
            expand(entries, all) == followed_by(out, expand(entries, all.skip(idx as int))),
        decreases args.len() - idx,
    {
        let param: &'s str = args[idx].as_str();
        let ghost here = all.skip(idx as int);
        let ghost before = order.deep_view();
        assert(here[0] == param@);
        assert(here.drop_first() =~= all.skip(idx + 1));
        match table.get(param) {
            Some(origin) => {
                order.push(origin);
                proof {
                    lemma_followed_by_twice(out, seq![origin@], expand(entries, all.skip(idx + 1)));
                    out = out + seq![origin@];
                    assert(order.deep_view() =~= before.push(origin@));
                    assert(order.deep_view() =~= seq![record.origin@] + out);
                }
                idx = idx + 1;
            },
            None => match param_to_pair(param) {
                Some((key, amount)) => {
                    if amount >= args.len() - idx {
                        assert(here.len() == args.len() - idx);
                        return Err(Error::MalformedGroup(param.to_owned()));
                    }
                    let name = match table.get(key) {
                        Some(origin) => origin,
                        None => key,
                    };
                    order.push(name);
                    assert(order.deep_view() =~= before.push(name@));
                    let mut k: usize = 1;
                    assert(all.subrange(idx + 1, idx + 1) =~= Seq::<Seq<char>>::empty());
                    while k <= amount
                        invariant
                            1 <= k <= amount + 1,
                            idx + amount < args.len(),
                            all == args.deep_view(),
                            order.deep_view() == before.push(name@) + all.subrange(
                                idx + 1,
                                idx + k,
                            ),
                        decreases amount + 1 - k,
                    {
                        let ghost so_far = order.deep_view();
                        let token: &'s str = args[idx + k].as_str();
                        order.push(token);
                        proof {
                            assert(order.deep_view() =~= so_far.push(token@));
                            assert(all.subrange(idx + 1, idx + k + 1) =~= all.subrange(
                                idx + 1,
                                idx + k,
                            ).push(token@));
                        }
                        k = k + 1;
                    }
                    proof {
                        let taken = seq![name@] + all.subrange(idx + 1, idx + 1 + amount);
                        assert(here.subrange(1, 1 + amount) =~= all.subrange(
                            idx + 1,
                            idx + 1 + amount,
                        ));
                        assert(here.skip(1 + amount) =~= all.skip(idx + 1 + amount));
                        lemma_followed_by_twice(
                            out,
                            taken,
                            expand(entries, all.skip(idx + 1 + amount)),
                        );
                        out = out + taken;
                        assert(order.deep_view() =~= seq![record.origin@] + out);
                    }
                    idx = idx + amount + 1;
                },
                None => {
                    order.push(param);
                    proof {
                        lemma_followed_by_twice(
                            out,
                            seq![param@],
                            expand(entries, all.skip(idx + 1)),
                        );
                        out = out + seq![param@];
                        assert(order.deep_view() =~= before.push(param@));
                        assert(order.deep_view() =~= seq![record.origin@] + out);
                    }
                    idx = idx + 1;
                },
            },
        }
    }
    assert(out + Seq::<Seq<char>>::empty() =~= out);
    Ok(order)
}

/// A request to expand an alias.
#[derive(Debug, Clone, PartialEq, Eq)]
pub struct Query {
    /// The alias to expand.
    pub alias: String,
    /// The arguments that follow it.
    pub params: Vec<String>,
}

impl Query {
    /// The tokens of the command line that this query stands for in `db`.
    pub fn build_order<'s, D: DbOperation>(&'s self, db: &'s D) -> (r: Result<
        Vec<&'s str>,
        Error,
    >)
        ensures
            match resolution(db.contents(), self.alias@, self.params.deep_view()) {
                Resolution::Tokens(tokens) => r matches Ok(order) && order.deep_view() == tokens,
                Resolution::NotFound => r matches Err(Error::AliasNotFound(name)) && name@
                    == self.alias@,
                Resolution::Malformed(arg) => r matches Err(Error::MalformedGroup(found))
                    && found@ == arg,
            },
    {
        resolve(db.records(), self.alias.as_str(), self.params.as_slice())
    }

    /// The command line that this query stands for in `db`, as one line for
    /// the shell.
    pub fn execute<D: DbOperation>(&self, db: &D) -> (r: Result<String, Error>)
        ensures
            match resolution(db.contents(), self.alias@, self.params.deep_view()) {
                Resolution::Tokens(tokens) => r matches Ok(line) && line@ == joined(tokens),
                Resolution::NotFound => r matches Err(Error::AliasNotFound(name)) && name@
                    == self.alias@,
                Resolution::Malformed(arg) => r matches Err(Error::MalformedGroup(found))
                    && found@ == arg,
            },
    {
        match self.build_order(db) {
            Ok(order) => Ok(join(order.as_slice())),
            Err(e) => Err(e),
        }
    }
}

} // verus!
