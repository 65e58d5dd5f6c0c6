use pig::append::{add_table, add_table_column, append_text, append_to_latest_migration, AppendDecision};
use pig::apply::{Action, ApplySession, Phase};
use pig::files::{get_latest_project_file, get_project_files, ProjectFile};
use pig::naming::{migration_file_name, migration_header, slug, slug_of_lowered};
use pig::plan::plan;
use pig::script::{concat_script, split_statements};
use pig::stamp::Timestamp;
use pig::state::{get_last_applied, schema_statements, ParseError};

fn names(list: &[&str]) -> Vec<String> {
    list.iter().map(|s| s.to_string()).collect()
}

fn stamp(text: &str) -> Timestamp {
    Timestamp::parse_prefix(text).expect("a valid timestamp")
}

fn file_names(files: &[ProjectFile]) -> Vec<String> {
    files.iter().map(|f| f.file.clone()).collect()
}

/// Runs a session to its end, answering each step with the next outcome
/// (true once they run out), and returns the actions it asked for.
fn drive(session: &mut ApplySession, first: Action, outcomes: &[bool]) -> Vec<Action> {
    let mut actions = vec![first];
    let mut k = 0;
    while *actions.last().unwrap() != Action::Finish {
        let ok = if k < outcomes.len() { outcomes[k] } else { true };
        k += 1;
        actions.push(session.step(ok));
    }
    actions
}

#[test]
fn parse_prefix_reads_fourteen_digits() {
    let t = stamp("20230102030405_create_users.sql");
    assert_eq!(
        (t.year(), t.month(), t.day(), t.hour(), t.minute(), t.second()),
        (2023, 1, 2, 3, 4, 5)
    );
}

#[test]
fn parse_prefix_refuses_bad_names() {
    assert!(Timestamp::parse_prefix("notadate_x.sql").is_none());
    assert!(Timestamp::parse_prefix("20231301000000_x.sql").is_none());
    assert!(Timestamp::parse_prefix("20230230000000_x.sql").is_none());
    assert!(Timestamp::parse_prefix("20230101250000_x.sql").is_none());
    assert!(Timestamp::parse_prefix("2023").is_none());
    assert!(Timestamp::parse_prefix("").is_none());
}

#[test]
fn parse_prefix_knows_leap_years() {
    assert!(Timestamp::parse_prefix("20240229000000_x.sql").is_some());
    assert!(Timestamp::parse_prefix("21000229000000_x.sql").is_none());
    assert!(Timestamp::parse_prefix("20000229000000_x.sql").is_some());
}

#[test]
fn format_writes_fourteen_digits() {
    let t = Timestamp::new(987, 3, 4, 5, 6, 7).unwrap();
    assert_eq!(t.to_stamp_string(), "09870304050607");
    assert_eq!(Timestamp::epoch().to_stamp_string(), "19700101000000");
}

#[test]
fn format_then_parse_round_trip() {
    for (y, mo, d, h, mi, s) in [
        (2023, 1, 2, 3, 4, 5),
        (1970, 1, 1, 0, 0, 0),
        (9999, 12, 31, 23, 59, 59),
        (0, 1, 1, 0, 0, 0),
        (2024, 2, 29, 12, 30, 45),
    ] {
        let t = Timestamp::new(y, mo, d, h, mi, s).unwrap();
        let text = t.to_stamp_string();
        assert_eq!(Timestamp::parse_prefix(&text), Some(t));
    }
}

#[test]
fn new_checks_the_calendar() {
    assert!(Timestamp::new(2023, 4, 31, 0, 0, 0).is_none());
    assert!(Timestamp::new(10000, 1, 1, 0, 0, 0).is_none());
    assert!(Timestamp::new(2023, 0, 1, 0, 0, 0).is_none());
    assert!(Timestamp::new(2023, 1, 1, 0, 60, 0).is_none());
    assert!(Timestamp::new(2023, 1, 1, 0, 0, 60).is_none());
    assert!(Timestamp::new(2023, 4, 30, 23, 59, 59).is_some());
}

#[test]
fn key_and_order() {
    let a = stamp("20230101000000");
    let b = stamp("20230102000000");
    assert_eq!(a.key(), 20230101000000);
    assert!(b.is_after(&a));
    assert!(!a.is_after(&b));
    assert!(!a.is_after(&a));
}

#[test]
fn scan_excludes_names_without_timestamp() {
    let (files, unknown) = get_project_files(&names(&[
        "20230101000000_a.sql",
        "notadate_x.sql",
        "20230102000000_b.sql",
    ]));
    assert_eq!(file_names(&files), names(&["20230101000000_a.sql", "20230102000000_b.sql"]));
    assert_eq!(unknown, names(&["notadate_x.sql"]));
    assert_eq!(files[1].date, stamp("20230102000000"));
}

#[test]
fn plan_keeps_newer_files_in_order() {
    let (files, _) = get_project_files(&names(&[
        "20230103000000_c.sql",
        "20230101000000_a.sql",
        "20230102000000_b.sql",
        "20230102000000_b2.sql",
    ]));
    let pending = plan(&files, &stamp("20230101000000"));
    assert_eq!(
        file_names(&pending),
        names(&["20230102000000_b.sql", "20230102000000_b2.sql", "20230103000000_c.sql"])
    );
    let again = plan(&files, &stamp("20230101000000"));
    assert_eq!(file_names(&again), file_names(&pending));
}

#[test]
fn plan_of_nothing_is_empty() {
    let pending = plan(&Vec::new(), &Timestamp::epoch());
    assert!(pending.is_empty());
    let (files, _) = get_project_files(&names(&["20230101000000_a.sql"]));
    assert!(plan(&files, &stamp("20230101000000")).is_empty());
}

#[test]
fn two_files_plan_and_apply() {
    let (files, _) = get_project_files(&names(&["20230101000000_a.sql", "20230102000000_b.sql"]));
    let pending = plan(&files, &Timestamp::epoch());
    assert_eq!(file_names(&pending), names(&["20230101000000_a.sql", "20230102000000_b.sql"]));
    let contents = names(&["CREATE TABLE a();", "CREATE TABLE b();"]);
    let (mut session, first) = ApplySession::start(&pending, &contents);
    assert_eq!(first, Action::Begin);
    assert_eq!(session.statement_count(), 2);
    assert_eq!(session.statement(0), "CREATE TABLE a()");
    assert_eq!(session.statement(1), "\nCREATE TABLE b()");
    let actions = drive(&mut session, first, &[]);
    assert_eq!(
        actions,
        vec![
            Action::Begin,
            Action::Execute(0),
            Action::Execute(1),
            Action::RecordWatermark,
            Action::Commit,
            Action::Finish
        ]
    );
    assert_eq!(session.phase(), Phase::Done(true));
    assert_eq!(session.watermark_text(), "20230102000000");
    assert_eq!(session.watermark(), Some(stamp("20230102000000")));
    let new_mark = get_last_applied(session.watermark_text()).unwrap();
    assert!(plan(&files, &new_mark).is_empty());
}

#[test]
fn watermark_is_the_latest_pending() {
    let (files, _) = get_project_files(&names(&[
        "20230105000000_e.sql",
        "20230103000000_c.sql",
        "20230104000000_d.sql",
    ]));
    let pending = plan(&files, &stamp("20230103000000"));
    let contents = names(&["SELECT 1;", "SELECT 2;"]);
    let (session, _) = ApplySession::start(&pending, &contents);
    assert_eq!(session.watermark_text(), "20230105000000");
}

#[test]
fn apply_of_nothing_does_nothing() {
    let (mut session, first) = ApplySession::start(&Vec::new(), &Vec::new());
    assert_eq!(first, Action::Finish);
    assert_eq!(session.phase(), Phase::Done(true));
    assert_eq!(session.watermark(), None);
    assert_eq!(session.step(true), Action::Finish);
    assert_eq!(session.step(false), Action::Finish);
}

#[test]
fn failed_statement_rolls_back() {
    let (files, _) = get_project_files(&names(&["20230101000000_a.sql"]));
    let pending = plan(&files, &Timestamp::epoch());
    let contents = names(&["CREATE TABLE a(); CREATE TABLE broken(; CREATE TABLE c();"]);
    let (mut session, first) = ApplySession::start(&pending, &contents);
    let actions = drive(&mut session, first, &[true, true, false]);
    assert_eq!(
        actions,
        vec![
            Action::Begin,
            Action::Execute(0),
            Action::Execute(1),
            Action::Rollback,
            Action::Finish
        ]
    );
    assert!(!actions.contains(&Action::Commit));
    assert!(!actions.contains(&Action::RecordWatermark));
    assert_eq!(session.phase(), Phase::Done(false));
}

#[test]
fn failed_watermark_write_rolls_back() {
    let (files, _) = get_project_files(&names(&["20230101000000_a.sql"]));
    let pending = plan(&files, &Timestamp::epoch());
    let (mut session, first) = ApplySession::start(&pending, &names(&["SELECT 1;"]));
    let actions = drive(&mut session, first, &[true, true, false]);
    assert_eq!(
        actions,
        vec![
            Action::Begin,
            Action::Execute(0),
            Action::RecordWatermark,
            Action::Rollback,
            Action::Finish
        ]
    );
}

#[test]
fn failed_begin_ends_without_rollback() {
    let (files, _) = get_project_files(&names(&["20230101000000_a.sql"]));
    let pending = plan(&files, &Timestamp::epoch());
    let (mut session, first) = ApplySession::start(&pending, &names(&["SELECT 1;"]));
    assert_eq!(session.step(false), Action::Finish);
    assert_eq!(first, Action::Begin);
    assert_eq!(session.phase(), Phase::Done(false));
}

#[test]
fn blank_script_still_records_watermark() {
    let (files, _) = get_project_files(&names(&["20230101000000_a.sql"]));
    let pending = plan(&files, &Timestamp::epoch());
    let (mut session, first) = ApplySession::start(&pending, &names(&["  \n"]));
    let actions = drive(&mut session, first, &[]);
    assert_eq!(
        actions,
        vec![Action::Begin, Action::RecordWatermark, Action::Commit, Action::Finish]
    );
}

#[test]
fn concat_adds_a_newline_after_each_file() {
    assert_eq!(concat_script(&names(&["A;", "B;"])), "A;\nB;\n");
    assert_eq!(concat_script(&Vec::new()), "");
}

#[test]
fn split_on_plain_semicolons() {
    assert_eq!(
        split_statements("CREATE TABLE a();\nCREATE TABLE b();\n"),
        names(&["CREATE TABLE a()", "\nCREATE TABLE b()"])
    );
    assert_eq!(split_statements("SELECT 'a;b';"), names(&["SELECT 'a", "b'"]));
    assert_eq!(split_statements(" ;\n;\t"), Vec::<String>::new());
    assert_eq!(split_statements(""), Vec::<String>::new());
    assert_eq!(split_statements("SELECT 1"), names(&["SELECT 1"]));
}

#[test]
fn append_to_unapplied_latest() {
    let (files, _) = get_project_files(&names(&["20230101000000_a.sql", "20230102000000_b.sql"]));
    assert_eq!(
        append_to_latest_migration(&files, &stamp("20230101000000")),
        AppendDecision::AppendTo(1)
    );
}

#[test]
fn append_refused_when_latest_deployed() {
    let (files, _) = get_project_files(&names(&["20230101000000_a.sql", "20230102000000_b.sql"]));
    assert_eq!(
        append_to_latest_migration(&files, &stamp("20230102000000")),
        AppendDecision::AlreadyDeployed(1)
    );
    assert_eq!(
        append_to_latest_migration(&files, &stamp("20230105000000")),
        AppendDecision::AlreadyDeployed(1)
    );
}

#[test]
fn append_without_migrations() {
    assert_eq!(
        append_to_latest_migration(&Vec::new(), &Timestamp::epoch()),
        AppendDecision::NoMigrations
    );
}

#[test]
fn latest_file_is_the_newest() {
    let (files, _) = get_project_files(&names(&[
        "20230102000000_b.sql",
        "20230103000000_c.sql",
        "20230101000000_a.sql",
    ]));
    assert_eq!(get_latest_project_file(&files), Some(1));
    assert_eq!(get_latest_project_file(&Vec::new()), None);
}

#[test]
fn sql_builders() {
    assert_eq!(add_table("users"), "CREATE TABLE IF NOT EXISTS users ();");
    assert_eq!(append_text("SELECT 1;"), "\nSELECT 1;");
    assert_eq!(
        add_table_column("users", "email", "TEXT"),
        "\nIF NOT EXISTS( SELECT NULL\n        FROM INFORMATION_SCHEMA.COLUMNS\n       WHERE table_name = 'users'\n         AND column_name = 'email')  THEN\n         ALTER TABLE `users` ADD `email` TEXT;\nEND IF;\n    "
    );
}

#[test]
fn stored_watermark() {
    assert_eq!(get_last_applied(""), Ok(Timestamp::epoch()));
    assert_eq!(get_last_applied("20230102000000"), Ok(stamp("20230102000000")));
    assert_eq!(get_last_applied("20230102000000 extra"), Ok(stamp("20230102000000")));
    assert_eq!(get_last_applied("garbage"), Err(ParseError::MalformedWatermark));
}

#[test]
fn schema_setup() {
    assert!(schema_statements(true).is_empty());
    assert_eq!(
        schema_statements(false),
        names(&[
            "CREATE TABLE IF NOT EXISTS pig_database_info ()",
            "ALTER TABLE pig_database_info ADD COLUMN IF NOT EXISTS key TEXT",
            "ALTER TABLE pig_database_info ADD COLUMN IF NOT EXISTS value TEXT",
            "INSERT INTO pig_database_info (key,value) VALUES ('last_applied','')",
        ])
    );
}

#[test]
fn slug_and_file_name() {
    assert_eq!(slug("Add Users Table"), "add_users_table");
    assert_eq!(slug_of_lowered("a b"), "a_b");
    assert_eq!(slug("ABCDEFGHIJ KLMNOPQRST UVWXYZ 0123456789"), "abcdefghij_klmnopqrst_uvwxyz_0");
    assert_eq!(slug(""), "");
    let t = Timestamp::new(2023, 1, 2, 3, 4, 5).unwrap();
    assert_eq!(migration_file_name(&t, "Create Users"), "20230102030405_create_users.sql");
    assert_eq!(migration_header("Create Users"), "-- Create Users\n\n");
}
