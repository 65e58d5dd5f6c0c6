use vstd::prelude::*;

use crate::files::texts;
use crate::stamp::{stamp_of, Timestamp};

verus! {

/// A stored watermark that holds no `YYYYMMDDHHMMSS` timestamp.
#[derive(Clone, Copy, Debug, PartialEq, Eq, Structural)]
pub enum ParseError {
    MalformedWatermark,
}

/// The watermark that the stored value `stored` of the `last_applied` row
/// stands for: the epoch where it is empty, else the timestamp in its first
/// fourteen characters. A value that holds none is an error, not repaired.
pub fn get_last_applied(stored: &str) -> (r: Result<Timestamp, ParseError>)
    ensures
        stored@.len() == 0 ==> (r matches Ok(t) && t.fields() == (1970int, 1int, 1int, 0int, 0int, 0int)),
        stored@.len() > 0 ==> r == match stamp_of(stored@) {
            Some(t) => Ok(t),
            None => Err(ParseError::MalformedWatermark),
        },
{
    if stored.unicode_len() == 0 {
        return Ok(Timestamp::epoch());
    }
    match Timestamp::parse_prefix(stored) {
        Some(t) => Ok(t),
        None => Err(ParseError::MalformedWatermark),
    }
}

/// The query that tells whether the bookkeeping table exists.
pub fn info_exists_query() -> (r: &'static str)
    ensures
        r@ == "SELECT EXISTS ( SELECT 1 FROM information_schema.tables WHERE table_name = 'pig_database_info');"@,
{
    "SELECT EXISTS ( SELECT 1 FROM information_schema.tables WHERE table_name = 'pig_database_info');"
}

/// The query that reads the stored value of a key of the bookkeeping table,
/// the key being its one parameter.
pub fn read_value_query() -> (r: &'static str)
    ensures
        r@ == "SELECT value FROM pig_database_info WHERE key=$1"@,
{
    "SELECT value FROM pig_database_info WHERE key=$1"
}

/// The key of the watermark row.
pub fn last_applied_key() -> (r: &'static str)
    ensures
        r@ == "last_applied"@,
{
    "last_applied"
}

/// The statement that writes the watermark, given as its one parameter.
pub fn record_watermark_statement() -> (r: &'static str)
    ensures
        r@ == "UPDATE pig_database_info SET value=$1 WHERE key='last_applied';"@,
{
    "UPDATE pig_database_info SET value=$1 WHERE key='last_applied';"
}

/// The statements that set up the bookkeeping table, in order: none where it
/// exists already; else the table, its two text columns and the watermark
/// row with an empty value.
pub fn schema_statements(info_exists: bool) -> (r: Vec<String>)
    ensures
        info_exists ==> r@.len() == 0,
        !info_exists ==> texts(r@) == seq![
            "CREATE TABLE IF NOT EXISTS pig_database_info ()"@,
            "ALTER TABLE pig_database_info ADD COLUMN IF NOT EXISTS key TEXT"@,
            "ALTER TABLE pig_database_info ADD COLUMN IF NOT EXISTS value TEXT"@,
            "INSERT INTO pig_database_info (key,value) VALUES ('last_applied','')"@,
        ],
{
    let mut r: Vec<String> = Vec::new();
    if !info_exists {
        r.push(String::from_str("CREATE TABLE IF NOT EXISTS pig_database_info ()"));
        r.push(String::from_str("ALTER TABLE pig_database_info ADD COLUMN IF NOT EXISTS key TEXT"));
        r.push(
            String::from_str("ALTER TABLE pig_database_info ADD COLUMN IF NOT EXISTS value TEXT"),
        );
        r.push(
            String::from_str(
                "INSERT INTO pig_database_info (key,value) VALUES ('last_applied','')",
            ),
        );
        assert(texts(r@) =~= seq![
            "CREATE TABLE IF NOT EXISTS pig_database_info ()"@,
            "ALTER TABLE pig_database_info ADD COLUMN IF NOT EXISTS key TEXT"@,
            "ALTER TABLE pig_database_info ADD COLUMN IF NOT EXISTS value TEXT"@,
            "INSERT INTO pig_database_info (key,value) VALUES ('last_applied','')"@,
        ]);
    }
    r
}

} // verus!
