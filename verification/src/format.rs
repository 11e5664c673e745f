//! The store file: a version tag of four bytes, then the records as
//! `bincode` writes them.

use crate::database::{records_view, Database, DbOperation, Record, RecordView};
use crate::error::Error;
use vstd::prelude::*;

verus! {

/// The version of the file format that this library reads and writes.
pub const VERSION: u32 = 8;

/// Bytes that the version tag takes.
pub const VERSION_SIZE: usize = 4;

/// The largest store file that is read: 32 MiB.
pub const MAX_SIZE: usize = 33554432;

/// A record as the file holds it: origin, alias, then the mappings.
pub type Row = (String, String, Vec<(String, String)>);

#[verifier::external_type_specification]
#[verifier::external_body]
pub struct ExErrorKind(bincode::ErrorKind);

/// The bytes that `bincode` writes for a list of rows, with its integers at
/// fixed width and in little-endian order.
pub uninterp spec fn encoded_rows(
    rows: Seq<(Seq<char>, Seq<char>, Seq<(Seq<char>, Seq<char>)>)>,
) -> Seq<u8>;

/// The four bytes of a version tag, lowest byte first.
pub open spec fn tag_bytes(v: u32) -> Seq<u8> {
    seq![
        (v & 0xff) as u8,
        ((v >> 8) & 0xff) as u8,
        ((v >> 16) & 0xff) as u8,
        ((v >> 24) & 0xff) as u8,
    ]
}

/// The version that four bytes spell, lowest byte first.
pub open spec fn tag_value(bytes: Seq<u8>) -> u32 {
    (bytes[0] as u32) | (bytes[1] as u32) << 8 | (bytes[2] as u32) << 16 | (bytes[3] as u32) << 24
}

/// A record as a row.
pub open spec fn row_of(record: RecordView) -> (Seq<char>, Seq<char>, Seq<(Seq<char>, Seq<char>)>) {
    (record.origin, record.alias, record.mappings)
}

/// A row as a record.
pub open spec fn record_of(row: (Seq<char>, Seq<char>, Seq<(Seq<char>, Seq<char>)>)) -> RecordView {
    RecordView { origin: row.0, alias: row.1, mappings: row.2 }
}

/// The records of a store as rows, in store order.
pub open spec fn rows_of(records: Seq<RecordView>) -> Seq<
    (Seq<char>, Seq<char>, Seq<(Seq<char>, Seq<char>)>),
> {
    Seq::new(records.len(), |i: int| row_of(records[i]))
}

/// The records that a list of rows holds, in their order.
pub open spec fn records_of(
    rows: Seq<(Seq<char>, Seq<char>, Seq<(Seq<char>, Seq<char>)>)>,
) -> Seq<RecordView> {
    Seq::new(rows.len(), |i: int| record_of(rows[i]))
}

/// The bytes of the store file that holds `records`.
pub open spec fn file_image(records: Seq<RecordView>) -> Seq<u8> {
    tag_bytes(VERSION) + encoded_rows(rows_of(records))
}

/// Whether `outcome` is what reading `bytes` as a store file gives.
///
/// A file shorter than the tag is corrupted. A tag other than `VERSION` is
/// an unsupported version, whatever follows it. A file over `MAX_SIZE` is too
/// large. Otherwise the bytes after the tag decode to the one list of
/// records that they are the encoding of, and fail to decode when they are
/// the encoding of none.
pub open spec fn is_decoding(bytes: Seq<u8>, outcome: Result<Seq<RecordView>, Error>) -> bool {
    if bytes.len() < VERSION_SIZE {
        outcome matches Err(Error::Corrupted)
    } else if tag_value(bytes.take(VERSION_SIZE as int)) != VERSION {
        outcome matches Err(Error::UnsupportedVersion(found)) && found == tag_value(
            bytes.take(VERSION_SIZE as int),
        )
    } else if bytes.len() > MAX_SIZE {
        outcome matches Err(Error::TooLarge)
    } else {
        let payload = bytes.skip(VERSION_SIZE as int);
        &&& outcome matches Ok(records) ==> payload == encoded_rows(rows_of(records))
        &&& outcome matches Err(e) ==> e is DecodeFailed
        &&& forall|rows: Seq<(Seq<char>, Seq<char>, Seq<(Seq<char>, Seq<char>)>)>|
            payload == #[trigger] encoded_rows(rows) ==> outcome == Ok::<Seq<RecordView>, Error>(
                records_of(rows),
            )
    }
}

/// What reading the store file from disk gave.
#[derive(Debug, Clone, PartialEq, Eq)]
pub enum FileRead {
    /// The file was read; these are its bytes.
    Contents(Vec<u8>),
    /// There is no such file.
    Missing,
    /// The file is there and could not be read.
    Failed,
}

/// What opening a store returned, with the records as plain text.
pub open spec fn opened_view(r: Result<Database, Error>) -> Result<Seq<RecordView>, Error> {
    match r {
        Ok(db) => Ok(db@),
        Err(e) => Err(e),
    }
}

/// What a decoding returned, with the records as plain text.
pub open spec fn outcome_view(r: Result<Vec<Record>, Error>) -> Result<Seq<RecordView>, Error> {
    match r {
        Ok(records) => Ok(records_view(records@)),
        Err(e) => Err(e),
    }
}

/// A tag is read back as it was written.
pub proof fn lemma_tag_round_trip(v: u32)
    ensures
        tag_bytes(v).len() == 4,
        tag_value(tag_bytes(v)) == v,
{
    assert({
        &&& v & 0xff < 256
        &&& (v >> 8) & 0xff < 256
        &&& (v >> 16) & 0xff < 256
        &&& (v >> 24) & 0xff < 256
    }) by (bit_vector);
    assert(v == ((v & 0xff) | ((v >> 8) & 0xff) << 8 | ((v >> 16) & 0xff) << 16 | ((v >> 24)
        & 0xff) << 24)) by (bit_vector);
}

/// Rows and records stand for each other.
pub proof fn lemma_rows_records(records: Seq<RecordView>)
    ensures
        records_of(rows_of(records)) == records,
{
    assert(records_of(rows_of(records)) =~= records);
}

/// `bincode::serialized_size` on a list of rows: the number of bytes that
/// writing the rows takes. It counts without a size limit, and every list
/// in the rows knows its length, so the call succeeds.
#[verifier::external_body]
fn encoded_size(rows: &Vec<Row>) -> (r: Result<u64, bincode::Error>)
    ensures
        r is Ok,
        r matches Ok(n) ==> n == encoded_rows(rows.deep_view()).len(),
{
    bincode::serialized_size(rows)
}

/// `bincode::serialize_into` on a list of rows: their encoding is written
/// behind what the buffer held. It writes without a size limit into a
/// buffer that grows, and every list in the rows knows its length, so the
/// call succeeds.
#[verifier::external_body]
fn encode_into(buffer: &mut Vec<u8>, rows: &Vec<Row>) -> (r: Result<(), bincode::Error>)
    ensures
        r is Ok,
        final(buffer)@ == old(buffer)@ + encoded_rows(rows.deep_view()),
{
    bincode::serialize_into(buffer, rows)
}

/// `bincode::Options::deserialize` for a list of rows, with integers at
/// fixed width and no byte left over. It reads back exactly what writing
/// produces: bytes that are the encoding of some rows give those rows, and
/// no other bytes give any. No byte limit is handed over: `bincode` sets one
/// aside when it reads from a slice, whose length bounds what is read.
#[verifier::external_body]
fn decode(bytes: &[u8]) -> (r: Result<Vec<Row>, bincode::Error>)
    ensures
        r matches Ok(found) ==> bytes@ == encoded_rows(found.deep_view()),
        forall|rows: Seq<(Seq<char>, Seq<char>, Seq<(Seq<char>, Seq<char>)>)>|
            bytes@ == #[trigger] encoded_rows(rows) ==> (r is Ok && r->Ok_0.deep_view() == rows),
{
    bincode::Options::deserialize(bincode::Options::with_fixint_encoding(bincode::options()), bytes)
}

/// Appends the tag bytes of `v` to `buffer`.
pub fn write_tag(buffer: &mut Vec<u8>, v: u32)
    ensures
        final(buffer)@ == old(buffer)@ + tag_bytes(v),
{
    assert({
        &&& v & 0xff < 256
        &&& (v >> 8) & 0xff < 256
        &&& (v >> 16) & 0xff < 256
        &&& (v >> 24) & 0xff < 256
    }) by (bit_vector);
    buffer.push((v & 0xff) as u8);
    buffer.push(((v >> 8) & 0xff) as u8);
    buffer.push(((v >> 16) & 0xff) as u8);
    buffer.push(((v >> 24) & 0xff) as u8);
    assert(buffer@ =~= old(buffer)@ + tag_bytes(v));
}

/// Reads the tag that the first four bytes of `bytes` spell.
pub fn read_tag(bytes: &[u8]) -> (v: u32)
    requires
        bytes@.len() >= 4,
    ensures
        v == tag_value(bytes@.take(4)),
{
    let b0 = bytes[0] as u32;
    let b1 = bytes[1] as u32;
    let b2 = bytes[2] as u32;
    let b3 = bytes[3] as u32;
    b0 | b1 << 8 | b2 << 16 | b3 << 24
}

/// Copies a list of `(alias, origin)` pairs.
fn copy_pairs(pairs: &Vec<(String, String)>) -> (copy: Vec<(String, String)>)
    ensures
        copy.deep_view() == pairs.deep_view(),
{
    let mut copy: Vec<(String, String)> = Vec::with_capacity(pairs.len());
    let mut k: usize = 0;
    while k < pairs.len()
        invariant
            0 <= k <= pairs.len(),
            copy.len() == k,
            forall|j: int| 0 <= j < k ==> copy@[j].deep_view() == pairs@[j].deep_view(),
        decreases pairs.len() - k,
    {
        copy.push((pairs[k].0.clone(), pairs[k].1.clone()));
        k = k + 1;
    }
    assert(copy.deep_view() =~= pairs.deep_view());
    copy
}

/// The rows that stand for `records`.
fn to_rows(records: &[Record]) -> (rows: Vec<Row>)
    ensures
        rows.deep_view() == rows_of(records_view(records@)),
{
    let mut rows: Vec<Row> = Vec::with_capacity(records.len());
    let mut i: usize = 0;
    while i < records.len()
        invariant
            0 <= i <= records.len(),
            rows.len() == i,
            forall|j: int| 0 <= j < i ==> rows@[j].deep_view() == row_of(records@[j]@),
        decreases records.len() - i,
    {
        let record = &records[i];
        rows.push((record.origin.clone(), record.alias.clone(), copy_pairs(&record.mappings)));
        i = i + 1;
    }
    assert(rows.deep_view() =~= rows_of(records_view(records@)));
    rows
}

/// The records that `rows` stand for.
fn to_records(rows: Vec<Row>) -> (records: Vec<Record>)
    ensures
        records_view(records@) == records_of(rows.deep_view()),
{
    let mut rows = rows;
    let ghost all = rows.deep_view();
    let mut records: Vec<Record> = Vec::with_capacity(rows.len());
    while rows.len() > 0
        invariant
            rows.len() <= all.len(),
            rows.deep_view() == all.take(rows.len() as int),
            records.len() == all.len() - rows.len(),
            forall|j: int|
                0 <= j < records.len() ==> records@[j]@ == record_of(all[all.len() - 1 - j]),
        decreases rows.len(),
    {
        let ghost before = rows.deep_view();
        let row = rows.pop().unwrap();
        assert(row.deep_view() == before[before.len() - 1]);
        assert(rows.deep_view() =~= all.take(rows.len() as int));
        let (origin, alias, mappings) = row;
        records.push(Record { origin, alias, mappings });
    }
    reverse(&mut records);
    assert(records_view(records@) =~= records_of(all));
    records
}

/// Reverses `records` in place.
fn reverse(records: &mut Vec<Record>)
    ensures
        final(records)@ == old(records)@.reverse(),
{
    let mut turned: Vec<Record> = Vec::with_capacity(records.len());
    while records.len() > 0
        invariant
            records.len() <= old(records)@.len(),
            records@ == old(records)@.take(records.len() as int),
            turned.len() == old(records)@.len() - records.len(),
            forall|j: int|
                0 <= j < turned.len() ==> turned@[j] == old(records)@[old(records)@.len() - 1 - j],
        decreases records.len(),
    {
        let record = records.pop().unwrap();
        turned.push(record);
    }
    *records = turned;
    assert(records@ =~= old(records)@.reverse());
}

/// A buffer for a payload of the size that `bincode` reported, with the
/// version tag written; no buffer when it reported a failure.
pub fn tagged_buffer(payload_size: Result<u64, bincode::Error>) -> (r: Result<Vec<u8>, Error>)
    ensures
        match payload_size {
            Ok(_) => r matches Ok(buffer) && buffer@ == tag_bytes(VERSION),
            Err(_) => r matches Err(Error::EncodeFailed),
        },
{
    match payload_size {
        Ok(size) => {
            let room: usize = if size <= (usize::MAX - VERSION_SIZE) as u64 {
                VERSION_SIZE + size as usize
            } else {
                VERSION_SIZE
            };
            let mut buffer: Vec<u8> = Vec::with_capacity(room);
            write_tag(&mut buffer, VERSION);
            Ok(buffer)
        },
        Err(_) => Err(Error::EncodeFailed),
    }
}

/// The file bytes in `buffer` when `bincode` wrote the payload, the failure
/// when it did not.
pub fn sealed(buffer: Vec<u8>, written: Result<(), bincode::Error>) -> (r: Result<Vec<u8>, Error>)
    ensures
        match written {
            Ok(_) => r == Ok::<Vec<u8>, Error>(buffer),
            Err(_) => r matches Err(Error::EncodeFailed),
        },
{
    match written {
        Ok(_) => Ok(buffer),
        Err(_) => Err(Error::EncodeFailed),
    }
}

/// The records that stand in the rows that `bincode` read, the failure when
/// it read none.
pub fn decoded(found: Result<Vec<Row>, bincode::Error>) -> (r: Result<Vec<Record>, Error>)
    ensures
        match found {
            Ok(rows) => r matches Ok(records) && records_view(records@) == records_of(
                rows.deep_view(),
            ),
            Err(_) => r matches Err(Error::DecodeFailed),
        },
{
    match found {
        Ok(rows) => Ok(to_records(rows)),
        Err(_) => Err(Error::DecodeFailed),
    }
}

impl Database {
    /// The bytes of the store file that holds `records`: the version tag,
    /// then the records as `bincode` writes them. Every list of records has
    /// such bytes, so the call succeeds.
    pub fn serialize(records: &[Record]) -> (r: Result<Vec<u8>, Error>)
        ensures
            r is Ok,
            r matches Ok(bytes) ==> bytes@ == file_image(records_view(records@)),
    {
        let rows = to_rows(records);
        let mut buffer = match tagged_buffer(encoded_size(&rows)) {
            Ok(buffer) => buffer,
            Err(e) => {
                return Err(e);
            },
        };
        let written = encode_into(&mut buffer, &rows);
        sealed(buffer, written)
    }

    /// Opens the store from what reading its file gave: the records that the
    /// file holds, the empty store where there is no file yet, and a failure
    /// where the file could not be read. Where the file is missing, the
    /// caller creates the data directory; the file itself is written when
    /// the store is first saved.
    pub fn open_dir(read: FileRead) -> (r: Result<Database, Error>)
        ensures
            match read {
                FileRead::Contents(bytes) => is_decoding(bytes@, opened_view(r)),
                FileRead::Missing => r matches Ok(db) && db@ == Seq::<RecordView>::empty(),
                FileRead::Failed => r matches Err(Error::ReadFailed),
            },
    {
        match read {
            FileRead::Contents(bytes) => match Database::deserialize(bytes.as_slice()) {
                Ok(records) => Ok(Database::from_records(records)),
                Err(e) => Err(e),
            },
            FileRead::Missing => Ok(Database::new()),
            FileRead::Failed => Err(Error::ReadFailed),
        }
    }

    /// Reads the bytes of a store file.
    pub fn deserialize(bytes: &[u8]) -> (r: Result<Vec<Record>, Error>)
        ensures
            is_decoding(bytes@, outcome_view(r)),
    {
        if bytes.len() < VERSION_SIZE {
            return Err(Error::Corrupted);
        }
        let version = read_tag(bytes);
        if version != VERSION {
            return Err(Error::UnsupportedVersion(version));
        }
        if bytes.len() > MAX_SIZE {
            return Err(Error::TooLarge);
        }
        let (_, payload) = bytes.split_at(VERSION_SIZE);
        assert(payload@ =~= bytes@.skip(VERSION_SIZE as int));
        let found = decode(payload);
        let ghost rows = found;
        let r = decoded(found);
        proof {
            if rows is Ok {
                let read = rows->Ok_0.deep_view();
                let records = records_view(r->Ok_0@);
                assert(rows_of(records) =~= read);
                assert forall|other: Seq<(Seq<char>, Seq<char>, Seq<(Seq<char>, Seq<char>)>)>|
                    payload@ == #[trigger] encoded_rows(other) implies outcome_view(r) == Ok::<
                    Seq<RecordView>,
                    Error,
                >(records_of(other)) by {
                    assert(other == read);
                }
            }
        }
        r
    }
}

/// Encoding then decoding gives the records back: whatever reading the file
/// image of `records` returns, it is those records, provided the image is
/// within the size that is read.
pub proof fn lemma_round_trip(records: Seq<RecordView>, outcome: Result<Seq<RecordView>, Error>)
    requires
        file_image(records).len() <= MAX_SIZE,
        is_decoding(file_image(records), outcome),
    ensures
        outcome == Ok::<Seq<RecordView>, Error>(records),
{
    let bytes = file_image(records);
    lemma_tag_round_trip(VERSION);
    assert(bytes.take(VERSION_SIZE as int) =~= tag_bytes(VERSION));
    assert(bytes.skip(VERSION_SIZE as int) =~= encoded_rows(rows_of(records)));
    lemma_rows_records(records);
}

/// A file with another version tag is refused as such, whatever it holds
/// after the tag.
pub proof fn lemma_other_version_refused(bytes: Seq<u8>, outcome: Result<Seq<RecordView>, Error>)
    requires
        bytes.len() >= VERSION_SIZE,
        tag_value(bytes.take(VERSION_SIZE as int)) != VERSION,
        is_decoding(bytes, outcome),
    ensures
        outcome matches Err(Error::UnsupportedVersion(found)) && found == tag_value(
            bytes.take(VERSION_SIZE as int),
        ),
{
}

} // verus!
