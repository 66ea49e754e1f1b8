//! Where a table's partitions lie, and where its servers listen.
use crate::text::chars_string;
use crate::text::decimal;
use crate::text::push_decimal;
use crate::text::push_str;
use crate::text::str_chars;
use vstd::prelude::*;

verus! {

/// The port of the meta service.
pub const META_SERVER_PORT: i32 = 50051;

/// The port of the storage service.
pub const DROPPLET_SERVER_PORT: i32 = 50052;

/// `/tmp/droplet/tables/`
pub open spec fn tables_root() -> Seq<char> {
    seq![
        '/',
        't',
        'm',
        'p',
        '/',
        'd',
        'r',
        'o',
        'p',
        'l',
        'e',
        't',
        '/',
        't',
        'a',
        'b',
        'l',
        'e',
        's',
        '/',
    ]
}

/// The path of `table`.
pub open spec fn table_path(table: Seq<char>) -> Seq<char> {
    tables_root() + table
}

/// The path of partition `index` of `table` on the day `date`.
pub open spec fn partition_path(table: Seq<char>, date: nat, index: nat) -> Seq<char> {
    table_path(table) + seq!['/'] + decimal(date) + seq!['/'] + decimal(index)
}

/// The address at which the server on `host` listens on `port`.
pub open spec fn endpoint(host: Seq<char>, port: nat) -> Seq<char> {
    host + seq![':'] + decimal(port)
}

fn push_tables_root(text: &mut Vec<char>)
    ensures
        final(text)@ == old(text)@ + tables_root(),
{
    push_str(text, "/tmp/droplet/tables/");
    proof {
        reveal_strlit("/tmp/droplet/tables/");
        assert("/tmp/droplet/tables/"@ =~= tables_root());
    }
}

/// The path of `table`: `/tmp/droplet/tables/<table>`.
pub fn get_path_by_table(table: &str) -> (path: String)
    ensures
        path@ == table_path(table@),
{
    let mut text: Vec<char> = Vec::new();
    push_tables_root(&mut text);
    push_str(&mut text, table);
    assert(text@ =~= table_path(table@));
    chars_string(&text)
}

/// The path of partition `partition_index` of `table` on the day
/// `partition_date`: `/tmp/droplet/tables/<table>/<date>/<index>`.
pub fn get_partition_path(table: &str, partition_date: u32, partition_index: u32) -> (path: String)
    ensures
        path@ == partition_path(table@, partition_date as nat, partition_index as nat),
{
    let mut text: Vec<char> = Vec::new();
    push_tables_root(&mut text);
    push_str(&mut text, table);
    text.push('/');
    push_decimal(&mut text, partition_date as u64);
    text.push('/');
    push_decimal(&mut text, partition_index as u64);
    assert(text@ =~= partition_path(table@, partition_date as nat, partition_index as nat));
    chars_string(&text)
}

/// The paths in `paths`, as values.
pub open spec fn paths_view(paths: Seq<String>) -> Seq<Seq<char>> {
    Seq::new(paths.len(), |i: int| paths[i]@)
}

/// The paths of all partitions of `table` on the day `partition_date`,
/// where the table has `partition_count_per_day` partitions per day.
pub fn get_table_paths_by_date(table: &str, partition_date: u32, partition_count_per_day: u32) -> (paths:
    Vec<String>)
    ensures
        paths_view(paths@) == Seq::new(
            partition_count_per_day as nat,
            |i: int| partition_path(table@, partition_date as nat, i as nat),
        ),
{
    let mut paths: Vec<String> = Vec::new();
    let mut index: u32 = 0;
    while index < partition_count_per_day
        invariant
            index <= partition_count_per_day,
            paths.len() == index,
            forall|k: int|
                0 <= k < index ==> (#[trigger] paths@[k])@ == partition_path(
                    table@,
                    partition_date as nat,
                    k as nat,
                ),
        decreases partition_count_per_day - index,
    {
        paths.push(get_partition_path(table, partition_date, index));
        index += 1;
    }
    assert(paths_view(paths@) =~= Seq::new(
        partition_count_per_day as nat,
        |i: int| partition_path(table@, partition_date as nat, i as nat),
    ));
    paths
}

/// The address of the storage server on `hostname`: `<hostname>:50052`.
pub fn get_default_server_endpoint(hostname: &str) -> (address: String)
    ensures
        address@ == endpoint(hostname@, DROPPLET_SERVER_PORT as nat),
{
    let mut text = str_chars(hostname);
    text.push(':');
    push_decimal(&mut text, DROPPLET_SERVER_PORT as u64);
    assert(text@ =~= endpoint(hostname@, DROPPLET_SERVER_PORT as nat));
    chars_string(&text)
}

/// The address of the server on `host` at `port`: `<host>:<port>`.
pub fn server_endpoint(host: &str, port: u32) -> (address: String)
    ensures
        address@ == endpoint(host@, port as nat),
{
    let mut text = str_chars(host);
    text.push(':');
    push_decimal(&mut text, port as u64);
    assert(text@ =~= endpoint(host@, port as nat));
    chars_string(&text)
}

/// The id under which a key is known, given what the store says before and
/// after the key was written to it: the id that the store had, else the id
/// that it has now, else 0.
pub fn key_id_or_zero(found: Option<u32>, after_insert: Option<u32>) -> (id: u32)
    ensures
        id == match found {
            Some(id) => id,
            None => match after_insert {
                Some(id) => id,
                None => 0,
            },
        },
{
    match found {
        Some(id) => id,
        None => match after_insert {
            Some(id) => id,
            None => 0,
        },
    }
}

/// The year, month and day of a date given as the number `YYYYMMDD`.
pub fn parse_date_from_u32(p_date: u32) -> (date: (u32, u32, u32))
    ensures
        date.0 == p_date / 10000,
        date.1 == (p_date % 10000) / 100,
        date.2 == p_date % 100,
        date.0 * 10000 + date.1 * 100 + date.2 == p_date,
{
    (p_date / 10000, (p_date % 10000) / 100, p_date % 100)
}

} // verus!
