use vstd::prelude::*;

use crate::files::{get_latest_project_file, is_latest, ProjectFile};
use crate::stamp::Timestamp;

verus! {

/// What to do with a statement to append to the current migration.
#[derive(Clone, Copy, Debug, PartialEq, Eq, Structural)]
pub enum AppendDecision {
    /// There is no migration file yet: one must be created first.
    NoMigrations,
    /// The latest file, at this position, is applied already: a new one must
    /// be created, and that file stays as it is.
    AlreadyDeployed(usize),
    /// Append to the latest file, at this position.
    AppendTo(usize),
}

/// Whether `file` is still to be applied, given the watermark: its timestamp
/// lies strictly after it.
pub fn is_current_migration_unused(file: &ProjectFile, last_applied: &Timestamp) -> (r: bool)
    ensures
        r == (file.date.rank() > last_applied.rank()),
{
    file.date.is_after(last_applied)
}

/// Decides where a statement to append goes: to the latest migration file of
/// `files`, where that file is not applied yet.
pub fn append_to_latest_migration(files: &Vec<ProjectFile>, last_applied: &Timestamp) -> (r:
    AppendDecision)
    ensures
        files@.len() == 0 <==> r == AppendDecision::NoMigrations,
        r matches AppendDecision::AlreadyDeployed(i) ==> is_latest(files@, i as int)
            && files@[i as int].date.rank() <= last_applied.rank(),
        r matches AppendDecision::AppendTo(i) ==> is_latest(files@, i as int)
            && files@[i as int].date.rank() > last_applied.rank(),
{
    match get_latest_project_file(files) {
        None => AppendDecision::NoMigrations,
        Some(i) => {
            if is_current_migration_unused(&files[i], last_applied) {
                AppendDecision::AppendTo(i)
            } else {
                AppendDecision::AlreadyDeployed(i)
            }
        },
    }
}

/// The text appended to the migration file for statement `sql`: a newline,
/// then the statement.
pub fn append_text(sql: &str) -> (r: String)
    ensures
        r@ == seq!['\n'] + sql@,
{
    let r = String::from_str("\n");
    proof {
        reveal_strlit("\n");
    }
    r.concat(sql)
}

/// The statement that adds table `table_name`, with no columns, where it
/// does not exist.
pub fn add_table(table_name: &str) -> (r: String)
    ensures
        r@ == "CREATE TABLE IF NOT EXISTS "@ + table_name@ + " ();"@,
{
    String::from_str("CREATE TABLE IF NOT EXISTS ").concat(table_name).concat(" ();")
}

/// The statement that adds column `column_name` of type `column_type` to
/// table `table_name`, where the table has no such column.
pub fn add_table_column(table_name: &str, column_name: &str, column_type: &str) -> (r: String)
    ensures
        r@ == "\nIF NOT EXISTS( SELECT NULL\n        FROM INFORMATION_SCHEMA.COLUMNS\n       WHERE table_name = '"@
            + table_name@ + "'\n         AND column_name = '"@ + column_name@
            + "')  THEN\n         ALTER TABLE `"@ + table_name@ + "` ADD `"@ + column_name@
            + "` "@ + column_type@ + ";\nEND IF;\n    "@,
{
    String::from_str(
        "\nIF NOT EXISTS( SELECT NULL\n        FROM INFORMATION_SCHEMA.COLUMNS\n       WHERE table_name = '",
    ).concat(table_name).concat("'\n         AND column_name = '").concat(column_name).concat(
        "')  THEN\n         ALTER TABLE `",
    ).concat(table_name).concat("` ADD `").concat(column_name).concat("` ").concat(
        column_type,
    ).concat(";\nEND IF;\n    ")
}

} // verus!
