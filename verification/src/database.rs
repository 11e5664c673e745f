//! The record store: alias definitions in insertion order, and the
//! operations that change them in memory.

use crate::table::{distinct_keys, mapping_table, table_entries, Table};
use crate::util::str_eq;
use vstd::prelude::*;

verus! {

/// Characters that no parameter definition may hold.
pub const EXCLUDED_CHARS: [char; 2] = ['\r', '\n'];

/// One alias definition.
#[derive(Debug, Clone, PartialEq, Eq)]
pub struct Record {
    /// The command that the alias stands for.
    pub origin: String,
    /// The short name, by which the record is found.
    pub alias: String,
    /// Parameter aliases with their origins, as `(alias, origin)` pairs.
    pub mappings: Vec<(String, String)>,
}

/// A record as plain text.
pub struct RecordView {
    pub origin: Seq<char>,
    pub alias: Seq<char>,
    pub mappings: Seq<(Seq<char>, Seq<char>)>,
}

impl View for Record {
    type V = RecordView;

    open spec fn view(&self) -> RecordView {
        RecordView {
            origin: self.origin@,
            alias: self.alias@,
            mappings: self.mappings.deep_view(),
        }
    }
}

/// The records of a list, each as plain text.
pub open spec fn records_view(records: Seq<Record>) -> Seq<RecordView> {
    Seq::new(records.len(), |i: int| records[i]@)
}

/// Position of the first record that carries `alias`.
pub open spec fn index_of_alias(records: Seq<RecordView>, alias: Seq<char>) -> Option<int>
    decreases records.len(),
{
    if records.len() == 0 {
        None
    } else {
        match index_of_alias(records.drop_last(), alias) {
            Some(i) => Some(i),
            None => if records.last().alias == alias {
                Some(records.len() - 1)
            } else {
                None
            },
        }
    }
}

/// Whether no two records share an alias.
pub open spec fn unique_aliases(records: Seq<RecordView>) -> bool {
    forall|i: int, j: int| 0 <= i < j < records.len() ==> records[i].alias != records[j].alias
}

/// The store after `new` is added: in the place of the record with the same
/// alias where there is one, at the end otherwise.
pub open spec fn with_record(records: Seq<RecordView>, new: RecordView) -> Seq<RecordView> {
    match index_of_alias(records, new.alias) {
        Some(i) => records.update(i, new),
        None => records.push(new),
    }
}

/// The store without the record that carries `alias`; the others keep their order.
pub open spec fn without_record(records: Seq<RecordView>, alias: Seq<char>) -> Seq<RecordView> {
    match index_of_alias(records, alias) {
        Some(i) => records.remove(i),
        None => records,
    }
}

/// A table after `(origin, alias)` pairs are entered from first to last, each
/// under its alias.
pub open spec fn with_params(
    table: Map<Seq<char>, Seq<char>>,
    params: Seq<(Seq<char>, Seq<char>)>,
) -> Map<Seq<char>, Seq<char>>
    decreases params.len(),
{
    if params.len() == 0 {
        table
    } else {
        with_params(table, params.drop_last()).insert(params.last().1, params.last().0)
    }
}

/// A table without the entries under `keys`.
pub open spec fn without_params(table: Map<Seq<char>, Seq<char>>, keys: Seq<Seq<char>>) -> Map<
    Seq<char>,
    Seq<char>,
> {
    Map::new(|k: Seq<char>| table.contains_key(k) && !keys.contains(k), |k: Seq<char>| table[k])
}

/// Whether `after` is `before` but for the mappings of the record at `i`,
/// which now spell `table` and hold no alias twice.
pub open spec fn remapped(
    before: Seq<RecordView>,
    after: Seq<RecordView>,
    i: int,
    table: Map<Seq<char>, Seq<char>>,
) -> bool {
    &&& after.len() == before.len()
    &&& forall|j: int| 0 <= j < before.len() && j != i ==> after[j] == before[j]
    &&& after[i].origin == before[i].origin
    &&& after[i].alias == before[i].alias
    &&& distinct_keys(after[i].mappings)
    &&& mapping_table(after[i].mappings) == table
}

/// Whether `after` is `before` with `(origin, alias)` pairs entered into the
/// mappings of the record that carries `alias`; without such a record
/// nothing may differ.
pub open spec fn params_added(
    before: Seq<RecordView>,
    after: Seq<RecordView>,
    alias: Seq<char>,
    params: Seq<(Seq<char>, Seq<char>)>,
) -> bool {
    match index_of_alias(before, alias) {
        Some(i) => remapped(before, after, i, with_params(mapping_table(before[i].mappings), params)),
        None => after == before,
    }
}

/// Whether `after` is `before` with the entries under `keys` taken out of
/// the mappings of the record that carries `alias`; without such a record
/// nothing may differ.
pub open spec fn params_removed(
    before: Seq<RecordView>,
    after: Seq<RecordView>,
    alias: Seq<char>,
    keys: Seq<Seq<char>>,
) -> bool {
    match index_of_alias(before, alias) {
        Some(i) => remapped(
            before,
            after,
            i,
            without_params(mapping_table(before[i].mappings), keys),
        ),
        None => after == before,
    }
}

/// What `index_of_alias` finds is the first record with that alias.
pub proof fn lemma_index_of_alias(records: Seq<RecordView>, alias: Seq<char>)
    ensures
        match index_of_alias(records, alias) {
            Some(i) => {
                &&& 0 <= i < records.len()
                &&& records[i].alias == alias
                &&& forall|j: int| 0 <= j < i ==> records[j].alias != alias
            },
            None => forall|j: int| 0 <= j < records.len() ==> records[j].alias != alias,
        },
    decreases records.len(),
{
    if records.len() > 0 {
        let front = records.drop_last();
        lemma_index_of_alias(front, alias);
        assert forall|j: int| 0 <= j < front.len() implies front[j] == records[j] by {}
        match index_of_alias(front, alias) {
            Some(i) => {
                assert(records[i].alias == alias);
            },
            None => {
                assert forall|j: int| 0 <= j < records.len() - 1 implies records[j].alias
                    != alias by {
                    assert(front[j].alias != alias);
                }
            },
        }
    }
}

/// Position of the first record of `records` that carries `alias`.
pub fn find_alias(records: &[Record], alias: &str) -> (found: Option<usize>)
    ensures
        match found {
            Some(i) => index_of_alias(records_view(records@), alias@) == Some(i as int) && i
                < records@.len(),
            None => index_of_alias(records_view(records@), alias@) is None,
        },
{
    let ghost all = records_view(records@);
    let mut i: usize = 0;
    assert(all.take(0) =~= Seq::<RecordView>::empty());
    while i < records.len()
        invariant
            0 <= i <= records.len(),
            all == records_view(records@),
            index_of_alias(all.take(i as int), alias@) is None,
        decreases records.len() - i,
    {
        assert(all.take(i + 1).drop_last() =~= all.take(i as int));
        if str_eq(records[i].alias.as_str(), alias) {
            proof {
                lemma_index_prefix(all, alias@, i + 1);
            }
            return Some(i);
        }
        i = i + 1;
    }
    assert(all.take(i as int) =~= all);
    None
}

/// The lookup table that a list of `(alias, origin)` pairs spells.
pub fn table_of<'a>(pairs: &'a Vec<(String, String)>) -> (table: Table<'a>)
    ensures
        table_entries(table) == mapping_table(pairs.deep_view()),
{
    let ghost all = pairs.deep_view();
    let mut table = Table::with_capacity(pairs.len());
    let mut k: usize = 0;
    assert(all.take(0) =~= Seq::<(Seq<char>, Seq<char>)>::empty());
    while k < pairs.len()
        invariant
            0 <= k <= pairs.len(),
            all == pairs.deep_view(),
            table_entries(table) == mapping_table(all.take(k as int)),
        decreases pairs.len() - k,
    {
        let pair = &pairs[k];
        table.insert(pair.0.as_str(), pair.1.as_str());
        proof {
            assert(all.take(k + 1).drop_last() =~= all.take(k as int));
            assert(all.take(k + 1).last() == (pair.0@, pair.1@));
        }
        k = k + 1;
    }
    assert(all.take(k as int) =~= all);
    table
}

/// The mappings `pairs` after `(origin, alias)` pairs are entered, as a list
/// without a repeated alias.
fn merged_pairs(pairs: &Vec<(String, String)>, params: &[(&str, &str)]) -> (merged: Vec<
    (String, String),
>)
    ensures
        distinct_keys(merged.deep_view()),
        mapping_table(merged.deep_view()) == with_params(
            mapping_table(pairs.deep_view()),
            params.deep_view(),
        ),
{
    let ghost before = mapping_table(pairs.deep_view());
    let ghost entered = params.deep_view();
    let mut table = table_of(pairs);
    let mut k: usize = 0;
    assert(entered.take(0) =~= Seq::<(Seq<char>, Seq<char>)>::empty());
    while k < params.len()
        invariant
            0 <= k <= params.len(),
            entered == params.deep_view(),
            table_entries(table) == with_params(before, entered.take(k as int)),
        decreases params.len() - k,
    {
        let (origin, name) = params[k];
        table.insert(name, origin);
        proof {
            assert(entered.take(k + 1).drop_last() =~= entered.take(k as int));
            assert(entered.take(k + 1).last() == (origin@, name@));
        }
        k = k + 1;
    }
    assert(entered.take(k as int) =~= entered);
    table.into_pairs()
}

/// The mappings `pairs` without the entries under `keys`, as a list without
/// a repeated alias.
fn reduced_pairs(pairs: &Vec<(String, String)>, keys: &[&str]) -> (reduced: Vec<(String, String)>)
    ensures
        distinct_keys(reduced.deep_view()),
        mapping_table(reduced.deep_view()) == without_params(
            mapping_table(pairs.deep_view()),
            keys.deep_view(),
        ),
{
    let ghost before = mapping_table(pairs.deep_view());
    let ghost dropped = keys.deep_view();
    let mut table = table_of(pairs);
    let mut k: usize = 0;
    assert(table_entries(table) =~= without_params(before, dropped.take(0)));
    while k < keys.len()
        invariant
            0 <= k <= keys.len(),
            dropped == keys.deep_view(),
            table_entries(table) == without_params(before, dropped.take(k as int)),
        decreases keys.len() - k,
    {
        let key = keys[k];
        table.remove(key);
        proof {
            let shorter = dropped.take(k as int);
            let longer = dropped.take(k + 1);
            assert forall|x: Seq<char>| longer.contains(x) <==> (shorter.contains(x) || x
                == key@) by {
                if longer.contains(x) {
                    let j = choose|j: int| 0 <= j < longer.len() && longer[j] == x;
                    if j < k {
                        assert(shorter[j] == x);
                    }
                }
                if shorter.contains(x) {
                    let j = choose|j: int| 0 <= j < shorter.len() && shorter[j] == x;
                    assert(longer[j] == x);
                }
                if x == key@ {
                    assert(longer[k as int] == x);
                }
            }
            assert(table_entries(table) =~= without_params(before, longer));
        }
        k = k + 1;
    }
    assert(dropped.take(k as int) =~= dropped);
    table.into_pairs()
}

/// What a store of records offers: the records in their order, and the
/// changes to them in memory.
pub trait DbOperation {
    /// The records of the store as plain text, in store order.
    spec fn contents(&self) -> Seq<RecordView>;

    /// Adds `new`: it takes the place of the record with the same alias where
    /// there is one, and goes to the end otherwise.
    fn add_record(&mut self, new: Record)
        ensures
            final(self).contents() == with_record(old(self).contents(), new@),
            unique_aliases(old(self).contents()) ==> unique_aliases(final(self).contents()),
    ;

    /// Enters `(origin, alias)` pairs into the mappings of the record that
    /// carries `alias`, each under its parameter alias; an entry that was
    /// there under that alias gives way. Nothing changes when no record
    /// carries `alias`.
    fn add_params(&mut self, alias: &str, params: &[(&str, &str)])
        ensures
            params_added(old(self).contents(), final(self).contents(), alias@, params.deep_view()),
            unique_aliases(old(self).contents()) ==> unique_aliases(final(self).contents()),
    ;

    /// Takes the entries under `keys` out of the mappings of the record that
    /// carries `alias`. Nothing changes when no record carries `alias`, and a
    /// key without an entry is passed over.
    fn rem_params(&mut self, alias: &str, keys: &[&str])
        ensures
            params_removed(old(self).contents(), final(self).contents(), alias@, keys.deep_view()),
            unique_aliases(old(self).contents()) ==> unique_aliases(final(self).contents()),
    ;

    /// Removes the record that carries `alias`, if there is one. The other
    /// records keep their order.
    fn del_record(&mut self, alias: &str)
        ensures
            final(self).contents() == without_record(old(self).contents(), alias@),
            unique_aliases(old(self).contents()) ==> unique_aliases(final(self).contents()),
    ;

    /// The records, in store order.
    fn records(&self) -> (records: &[Record])
        ensures
            records_view(records@) == self.contents(),
    ;
}

/// The store: records in insertion order.
pub struct Database {
    records: Vec<Record>,
}

impl View for Database {
    type V = Seq<RecordView>;

    closed spec fn view(&self) -> Seq<RecordView> {
        records_view(self.records@)
    }
}

impl Database {
    /// A store without records.
    pub fn new() -> (db: Database)
        ensures
            db@ == Seq::<RecordView>::empty(),
    {
        let db = Database { records: Vec::new() };
        assert(db@ =~= Seq::<RecordView>::empty());
        db
    }

    /// A store that holds `records` in their order.
    pub fn from_records(records: Vec<Record>) -> (db: Database)
        ensures
            db@ == records_view(records@),
    {
        Database { records }
    }

    /// Position of the first record that carries `alias`.
    pub fn position(&self, alias: &str) -> (found: Option<usize>)
        ensures
            match found {
                Some(i) => index_of_alias(self@, alias@) == Some(i as int) && i < self@.len(),
                None => index_of_alias(self@, alias@) is None,
            },
    {
        find_alias(self.records.as_slice(), alias)
    }

    /// Removes the record at `idx` and puts the last record in its place.
    pub fn swap_remove(&mut self, idx: usize)
        requires
            idx < old(self)@.len(),
        ensures
            final(self)@ == old(self)@.update(idx as int, old(self)@.last()).drop_last(),
            unique_aliases(old(self)@) ==> unique_aliases(final(self)@),
    {
        self.records.swap_remove(idx);
        assert(self@ =~= old(self)@.update(idx as int, old(self)@.last()).drop_last());
    }
}

impl DbOperation for Database {
    open spec fn contents(&self) -> Seq<RecordView> {
        self@
    }

    fn add_record(&mut self, new: Record) {
        proof {
            if unique_aliases(self@) {
                lemma_add_record_unique(self@, new@);
            }
        }
        match self.position(new.alias.as_str()) {
            Some(i) => {
                self.records[i] = new;
                assert(self@ =~= old(self)@.update(i as int, new@));
            },
            None => {
                self.records.push(new);
                assert(self@ =~= old(self)@.push(new@));
            },
        }
    }

    fn del_record(&mut self, alias: &str) {
        proof {
            if unique_aliases(self@) {
                lemma_del_record_unique(self@, alias@);
            }
        }
        match self.position(alias) {
            Some(i) => {
                self.records.remove(i);
                assert(self@ =~= old(self)@.remove(i as int));
            },
            None => {},
        }
    }

    fn add_params(&mut self, alias: &str, params: &[(&str, &str)]) {
        if let Some(i) = self.position(alias) {
            let record = Record {
                origin: self.records[i].origin.clone(),
                alias: self.records[i].alias.clone(),
                mappings: merged_pairs(&self.records[i].mappings, params),
            };
            self.records[i] = record;
            proof {
                if unique_aliases(old(self)@) {
                    lemma_remapped_unique(
                        old(self)@,
                        self@,
                        i as int,
                        with_params(mapping_table(old(self)@[i as int].mappings), params.deep_view()),
                    );
                }
            }
        }
    }

    fn rem_params(&mut self, alias: &str, keys: &[&str]) {
        if let Some(i) = self.position(alias) {
            let record = Record {
                origin: self.records[i].origin.clone(),
                alias: self.records[i].alias.clone(),
                mappings: reduced_pairs(&self.records[i].mappings, keys),
            };
            self.records[i] = record;
            proof {
                if unique_aliases(old(self)@) {
                    lemma_remapped_unique(
                        old(self)@,
                        self@,
                        i as int,
                        without_params(
                            mapping_table(old(self)@[i as int].mappings),
                            keys.deep_view(),
                        ),
                    );
                }
            }
        }
    }

    fn records(&self) -> (records: &[Record]) {
        self.records.as_slice()
    }
}

/// A position found in a prefix is the position in the whole list.
pub proof fn lemma_index_prefix(records: Seq<RecordView>, alias: Seq<char>, k: int)
    requires
        0 <= k <= records.len(),
        index_of_alias(records.take(k), alias) is Some,
    ensures
        index_of_alias(records, alias) == index_of_alias(records.take(k), alias),
    decreases records.len() - k,
{
    if k < records.len() {
        assert(records.drop_last().take(k) =~= records.take(k));
        lemma_index_prefix(records.drop_last(), alias, k);
    } else {
        assert(records.take(k) =~= records);
    }
}

/// The first record with an alias is what `index_of_alias` finds.
pub proof fn lemma_index_is_first(records: Seq<RecordView>, alias: Seq<char>, i: int)
    requires
        0 <= i < records.len(),
        records[i].alias == alias,
        forall|j: int| 0 <= j < i ==> records[j].alias != alias,
    ensures
        index_of_alias(records, alias) == Some(i),
{
    lemma_index_of_alias(records, alias);
}

/// The store after `added` are added to `start` one after the other.
pub open spec fn with_records(start: Seq<RecordView>, added: Seq<RecordView>) -> Seq<RecordView>
    decreases added.len(),
{
    if added.len() == 0 {
        start
    } else {
        with_record(with_records(start, added.drop_last()), added.last())
    }
}

/// Adding a record a second time changes nothing: the store holds as many
/// records as after the first time, and the same ones.
pub proof fn lemma_add_record_twice(records: Seq<RecordView>, new: RecordView)
    ensures
        with_record(with_record(records, new), new) == with_record(records, new),
{
    let once = with_record(records, new);
    lemma_index_of_alias(records, new.alias);
    match index_of_alias(records, new.alias) {
        Some(i) => {
            lemma_index_is_first(once, new.alias, i);
            assert(once.update(i, new) =~= once);
        },
        None => {
            lemma_index_is_first(once, new.alias, records.len() as int);
            assert(once.update(records.len() as int, new) =~= once);
        },
    }
}

/// Adding a record to a store without a repeated alias leaves it without
/// one, and adds at most one record.
pub proof fn lemma_add_record_unique(records: Seq<RecordView>, new: RecordView)
    requires
        unique_aliases(records),
    ensures
        unique_aliases(with_record(records, new)),
        records.len() <= with_record(records, new).len() <= records.len() + 1,
{
    lemma_index_of_alias(records, new.alias);
}

/// After any sequence of additions to the empty store, no two records share
/// an alias.
pub proof fn lemma_additions_unique(added: Seq<RecordView>)
    ensures
        unique_aliases(with_records(Seq::empty(), added)),
    decreases added.len(),
{
    if added.len() > 0 {
        lemma_additions_unique(added.drop_last());
        lemma_add_record_unique(with_records(Seq::empty(), added.drop_last()), added.last());
    }
}

/// Removing a record from a store without a repeated alias leaves it
/// without one, and without that alias.
pub proof fn lemma_del_record_unique(records: Seq<RecordView>, alias: Seq<char>)
    requires
        unique_aliases(records),
    ensures
        unique_aliases(without_record(records, alias)),
        index_of_alias(without_record(records, alias), alias) is None,
{
    lemma_index_of_alias(records, alias);
    lemma_index_of_alias(without_record(records, alias), alias);
}

/// A change to the mappings of one record leaves the aliases as they were.
pub proof fn lemma_remapped_unique(
    before: Seq<RecordView>,
    after: Seq<RecordView>,
    i: int,
    table: Map<Seq<char>, Seq<char>>,
)
    requires
        0 <= i < before.len(),
        remapped(before, after, i, table),
        unique_aliases(before),
    ensures
        unique_aliases(after),
{
    assert forall|j: int| 0 <= j < after.len() implies after[j].alias == before[j].alias by {}
}

} // verus!
