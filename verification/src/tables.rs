//! The tables of the embedded database, as seen inside one write transaction.
//!
//! A [`ByteTable`] maps byte strings to byte strings, a [`CounterTable`] maps
//! byte strings to numbers. Both are handles of `redb` tables. What a handle
//! holds is named by [`byte_rows`] and [`counter_rows`]; the functions of this
//! module state what each table operation does to those rows. When an operation
//! reports an error, nothing is said about the rows afterwards: the transaction
//! is then to be given up.

use redb::ReadableTable;
use vstd::prelude::*;
use crate::keys::{lists, precedes, within};

verus! {

/// A write transaction of `redb`.
#[verifier::external_type_specification]
#[verifier::external_body]
pub struct ExWriteTransaction(redb::WriteTransaction);

/// The error of a table operation of `redb`.
#[verifier::external_type_specification]
#[verifier::external_body]
pub struct ExStorageError(redb::StorageError);

/// The error of opening a table of `redb`.
#[verifier::external_type_specification]
#[verifier::external_body]
pub struct ExTableError(redb::TableError);

/// A table from byte strings to byte strings, open in a write transaction.
#[verifier::external_body]
pub struct ByteTable<'txn> {
    table: redb::Table<'txn, &'static [u8], &'static [u8]>,
}

/// A table from byte strings to numbers, open in a write transaction.
#[verifier::external_body]
pub struct CounterTable<'txn> {
    table: redb::Table<'txn, &'static [u8], u64>,
}

/// The rows that a byte table holds.
pub uninterp spec fn byte_rows(table: ByteTable<'_>) -> Map<Seq<u8>, Seq<u8>>;

/// The rows that a counter table holds.
pub uninterp spec fn counter_rows(table: CounterTable<'_>) -> Map<Seq<u8>, u64>;

/// The rows that a byte table held when it was opened.
pub uninterp spec fn byte_rows_opened(table: ByteTable<'_>) -> Map<Seq<u8>, Seq<u8>>;

/// The rows that a counter table held when it was opened.
pub uninterp spec fn counter_rows_opened(table: CounterTable<'_>) -> Map<Seq<u8>, u64>;

/// The name under which a byte table was opened.
pub uninterp spec fn byte_table_name(table: ByteTable<'_>) -> Seq<char>;

/// The name under which a counter table was opened.
pub uninterp spec fn counter_table_name(table: CounterTable<'_>) -> Seq<char>;

/// A row of a byte table.
#[derive(Debug, Clone, PartialEq, Eq)]
pub struct Row {
    pub key: Vec<u8>,
    pub value: Vec<u8>,
}

/// The keys of some rows.
pub open spec fn row_keys(rows: Seq<Row>) -> Seq<Seq<u8>> {
    rows.map_values(|row: Row| row.key@)
}

/// Each of `rows` stands in `table`.
pub open spec fn rows_of(rows: Seq<Row>, table: Map<Seq<u8>, Seq<u8>>) -> bool {
    forall|i: int|
        0 <= i < rows.len() ==> table.contains_key((#[trigger] rows[i]).key@) && table[rows[i].key@]
            == rows[i].value@
}

/// The keys of a table from `low` to `high`, both included.
pub open spec fn keys_within(table: Map<Seq<u8>, Seq<u8>>, low: Seq<u8>, high: Seq<u8>) -> Set<Seq<u8>> {
    Set::new(|key: Seq<u8>| table.contains_key(key) && within(low, key, high))
}

/// `items` is the listing of `members`, or a beginning of it that a failure to read
/// cuts off. A key stands for itself, `None` for the failure.
pub open spec fn scans(items: Seq<Option<Seq<u8>>>, members: Set<Seq<u8>>) -> bool {
    exists|keys: Seq<Seq<u8>>| #[trigger] lists(keys, members) && is_beginning(items, keys)
}

/// `items` is all of `keys`, or a beginning of them and then one failure.
pub open spec fn is_beginning(items: Seq<Option<Seq<u8>>>, keys: Seq<Seq<u8>>) -> bool {
    let read = read_count(items);
    &&& read <= keys.len()
    &&& forall|i: int| 0 <= i < read ==> #[trigger] items[i] == Some(keys[i])
    &&& read == items.len() ==> read == keys.len()
}

/// How many items there are before a failure at the end.
pub open spec fn read_count(items: Seq<Option<Seq<u8>>>) -> int {
    if items.len() > 0 && items.last() is None {
        items.len() - 1
    } else {
        items.len() as int
    }
}

/// The keys that a scan handed out.
pub open spec fn scanned_keys(items: Seq<Result<Vec<u8>, redb::StorageError>>) -> Seq<Option<Seq<u8>>> {
    items.map_values(
        |item: Result<Vec<u8>, redb::StorageError>|
            match item {
                Ok(key) => Some(key@),
                Err(_) => None,
            },
    )
}

/// The keys of the rows that a scan handed out.
pub open spec fn scanned_row_keys(items: Seq<Result<Row, redb::StorageError>>) -> Seq<Option<Seq<u8>>> {
    items.map_values(
        |item: Result<Row, redb::StorageError>|
            match item {
                Ok(row) => Some(row.key@),
                Err(_) => None,
            },
    )
}

/// Each row that a scan handed out stands in `table`.
pub open spec fn scanned_rows_of(
    items: Seq<Result<Row, redb::StorageError>>,
    table: Map<Seq<u8>, Seq<u8>>,
) -> bool {
    forall|i: int|
        0 <= i < items.len() ==> (#[trigger] items[i] matches Ok(row) ==> table.contains_key(row.key@)
            && table[row.key@] == row.value@)
}

/// Opens a byte table with `redb::WriteTransaction::open_table`, which creates
/// it where it does not exist. Claims that the handle is one of the table with
/// that name, and that its rows are still those that it was opened with. Which
/// they are is whatever was committed or written under the name, and is not
/// claimed. An empty name makes `redb::TableDefinition::new` panic.
#[verifier::external_body]
pub(crate) fn open_byte_table<'txn>(
    txn: &'txn redb::WriteTransaction,
    name: &str,
) -> (result: Result<ByteTable<'txn>, redb::TableError>)
    requires
        name@.len() > 0,
    ensures
        result matches Ok(table) ==> byte_table_name(table) == name@,
        result matches Ok(table) ==> byte_rows(table) == byte_rows_opened(table),
{
    Ok(ByteTable { table: txn.open_table(redb::TableDefinition::new(name))? })
}

/// Opens a counter table with `redb::WriteTransaction::open_table`, as
/// `open_byte_table` does.
#[verifier::external_body]
pub(crate) fn open_counter_table<'txn>(
    txn: &'txn redb::WriteTransaction,
    name: &str,
) -> (result: Result<CounterTable<'txn>, redb::TableError>)
    requires
        name@.len() > 0,
    ensures
        result matches Ok(table) ==> counter_table_name(table) == name@,
        result matches Ok(table) ==> counter_rows(table) == counter_rows_opened(table),
{
    Ok(CounterTable { table: txn.open_table(redb::TableDefinition::new(name))? })
}

/// Calls `redb::Table::insert`. Claims that on success the key is mapped to the
/// value, in place of an earlier value if there was one, and that no other row
/// changes.
#[verifier::external_body]
pub(crate) fn byte_table_insert(
    table: &mut ByteTable<'_>,
    key: &[u8],
    value: &[u8],
) -> (result: Result<(), redb::StorageError>)
    ensures
        byte_table_name(*final(table)) == byte_table_name(*old(table)),
        byte_rows_opened(*final(table)) == byte_rows_opened(*old(table)),
        result is Ok ==> byte_rows(*final(table)) == byte_rows(*old(table)).insert(key@, value@),
{
    table.table.insert(key, value).map(|_| ())
}

/// Calls `redb::Table::remove`. Claims that on success the key is gone, that no
/// other row changes, and that the value that the key had is returned.
#[verifier::external_body]
pub(crate) fn byte_table_remove(
    table: &mut ByteTable<'_>,
    key: &[u8],
) -> (result: Result<Option<Vec<u8>>, redb::StorageError>)
    ensures
        byte_table_name(*final(table)) == byte_table_name(*old(table)),
        byte_rows_opened(*final(table)) == byte_rows_opened(*old(table)),
        result is Ok ==> byte_rows(*final(table)) == byte_rows(*old(table)).remove(key@),
        result matches Ok(found) ==> (found is Some <==> byte_rows(*old(table)).contains_key(key@)),
        result matches Ok(Some(value)) ==> value@ == byte_rows(*old(table))[key@],
{
    Ok(table.table.remove(key)?.map(|value| value.value().to_vec()))
}

/// Calls `redb::ReadableTable::range` on an inclusive range and takes the keys.
/// Claims that on success they are the keys of the table in that range, each
/// once, in ascending byte order, or a beginning of them and then one error: the
/// iterator ends after the first row that it cannot read.
#[verifier::external_body]
pub(crate) fn byte_table_range_keys(
    table: &ByteTable<'_>,
    low: &[u8],
    high: &[u8],
) -> (result: Result<Vec<Result<Vec<u8>, redb::StorageError>>, redb::StorageError>)
    ensures
        result matches Ok(items) ==> scans(
            scanned_keys(items@),
            keys_within(byte_rows(*table), low@, high@),
        ),
{
    Ok(table.table.range(low..=high)?.map(|row| row.map(|(key, _)| key.value().to_vec())).collect())
}

/// Calls `redb::ReadableTable::range` on an inclusive range. Claims that on
/// success the rows handed out are those of the table in that range, each once,
/// in ascending byte order of their keys.
#[verifier::external_body]
pub(crate) fn byte_table_range(
    table: &ByteTable<'_>,
    low: &[u8],
    high: &[u8],
) -> (result: Result<Vec<Row>, redb::StorageError>)
    ensures
        result matches Ok(rows) ==> rows_of(rows@, byte_rows(*table)) && lists(
            row_keys(rows@),
            keys_within(byte_rows(*table), low@, high@),
        ),
{
    table.table.range(low..=high)?
        .map(|row| row.map(|(key, value)| Row { key: key.value().to_vec(), value: value.value().to_vec() }))
        .collect()
}

/// Calls `redb::ReadableTable::iter`. Claims that on success the rows handed out
/// are all rows of the table, each once, in ascending byte order of their keys, or
/// a beginning of them and then one error: the iterator ends after the first row
/// that it cannot read.
#[verifier::external_body]
pub(crate) fn byte_table_iter(
    table: &ByteTable<'_>,
) -> (result: Result<Vec<Result<Row, redb::StorageError>>, redb::StorageError>)
    ensures
        result matches Ok(items) ==> scanned_rows_of(items@, byte_rows(*table)) && scans(
            scanned_row_keys(items@),
            byte_rows(*table).dom(),
        ),
{
    Ok(
        table.table.iter()?
            .map(|row| row.map(|(key, value)| Row { key: key.value().to_vec(), value: value.value().to_vec() }))
            .collect(),
    )
}

/// Calls `redb::ReadableTable::get`. Claims that on success it returns the number
/// that the key is mapped to, or `None` where the key does not occur.
#[verifier::external_body]
pub(crate) fn counter_table_get(
    table: &CounterTable<'_>,
    key: &[u8],
) -> (result: Result<Option<u64>, redb::StorageError>)
    ensures
        result matches Ok(found) ==> (found is Some <==> counter_rows(*table).contains_key(key@)),
        result matches Ok(Some(count)) ==> count == counter_rows(*table)[key@],
{
    Ok(table.table.get(key)?.map(|count| count.value()))
}

/// Calls `redb::Table::insert`. Claims of a counter table what
/// `byte_table_insert` claims of a byte table.
#[verifier::external_body]
pub(crate) fn counter_table_insert(
    table: &mut CounterTable<'_>,
    key: &[u8],
    count: u64,
) -> (result: Result<(), redb::StorageError>)
    ensures
        counter_table_name(*final(table)) == counter_table_name(*old(table)),
        counter_rows_opened(*final(table)) == counter_rows_opened(*old(table)),
        result is Ok ==> counter_rows(*final(table)) == counter_rows(*old(table)).insert(key@, count),
{
    table.table.insert(key, count).map(|_| ())
}

// ---------------------------------------------------------------------------
// What scans hand out
// ---------------------------------------------------------------------------

/// A range holds the keys of the table that come neither before its lower nor after
/// its upper end; the keys of rows, and of what a scan handed out, are the rows' own,
/// one for one.
pub proof fn law_rows(
    table: Map<Seq<u8>, Seq<u8>>,
    low: Seq<u8>,
    key: Seq<u8>,
    high: Seq<u8>,
    rows: Seq<Row>,
    keys: Seq<Result<Vec<u8>, redb::StorageError>>,
    items: Seq<Result<Row, redb::StorageError>>,
    i: int,
)
    ensures
        keys_within(table, low, high).contains(key) <==> table.contains_key(key) && !precedes(key, low)
            && !precedes(high, key),
        row_keys(rows).len() == rows.len(),
        0 <= i < rows.len() ==> row_keys(rows)[i] == rows[i].key@,
        rows_of(rows, table) && 0 <= i < rows.len() ==> table.contains_key(rows[i].key@)
            && table[rows[i].key@] == rows[i].value@,
        scanned_keys(keys).len() == keys.len(),
        0 <= i < keys.len() ==> {
            &&& keys[i] matches Ok(found) ==> scanned_keys(keys)[i] == Some(found@)
            &&& keys[i] is Err ==> scanned_keys(keys)[i] is None
        },
        scanned_row_keys(items).len() == items.len(),
        0 <= i < items.len() ==> {
            &&& items[i] matches Ok(row) ==> scanned_row_keys(items)[i] == Some(row.key@)
            &&& items[i] is Err ==> scanned_row_keys(items)[i] is None
            &&& scanned_rows_of(items, table) ==> (items[i] matches Ok(row) ==> table.contains_key(row.key@)
                && table[row.key@] == row.value@)
        },
{
}

/// A scan in which nothing fails hands out every key once, in byte order; one that
/// fails hands out the first of them, and the failure stands at its end.
pub proof fn law_scan(items: Seq<Option<Seq<u8>>>, members: Set<Seq<u8>>, i: int, j: int)
    requires
        scans(items, members),
        0 <= i < j < items.len(),
    ensures
        items[i] matches Some(key) && members.contains(key),
        items[j] matches Some(key) ==> members.contains(key) && precedes(items[i]->0, key),
        items[j] is None ==> j == items.len() - 1,
        items.last() is Some ==> forall|key: Seq<u8>| #[trigger]
            members.contains(key) ==> items.contains(Some(key)),
{
    let keys = choose|keys: Seq<Seq<u8>>| #[trigger] lists(keys, members) && is_beginning(items, keys);
    assert(keys.contains(keys[i]));
    assert(items[i] == Some(keys[i]));
    if items[j] is Some {
        assert(items[j] == Some(keys[j]));
        assert(keys.contains(keys[j]));
    }
    if items.last() is Some {
        assert forall|key: Seq<u8>| #[trigger] members.contains(key) implies items.contains(Some(key)) by {
            assert(keys.contains(key));
            let k = choose|k: int| 0 <= k < keys.len() && keys[k] == key;
            assert(items[k] == Some(key));
        }
    }
}

} // verus!
