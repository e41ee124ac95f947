use mailtempest::errors::EmailError;
use mailtempest::mail_reader::IdleEvent;
use mailtempest::mail_reader::IdleStep;
use mailtempest::mail_reader::MailReader;
use mailtempest::mail_reader::contains_substr;
use mailtempest::mail_reader::fields_of;
use mailtempest::mail_reader::join_comma;
use mailtempest::mail_reader::split_char;
use mailtempest::mail_reader::split_ws;

#[test]
fn mail_reader_get_exists_from_idle_with_2_lines() {
    assert_eq!(MailReader::get_exists_from_idle("   * 18 EXISTS
        * 1 RECENT
        ").unwrap(), vec!["18"]);
}

#[test]
fn imap_client_get_exists_from_idle_with_2_lines() {
    // both workers of the engine share one extraction routine
    assert_eq!(MailReader::get_exists_from_idle("   * 18 EXISTS
        * 1 RECENT
        ").unwrap(), vec!["18"]);
}

#[test]
fn get_exists_ignores_lines_without_the_token() {
    assert_eq!(
        MailReader::get_exists_from_idle("* 1 RECENT\n* OK still here\n").unwrap(),
        vec![] as Vec<String>
    );
    assert_eq!(MailReader::get_exists_from_idle("").unwrap(), vec![] as Vec<String>);
}

#[test]
fn get_exists_collects_all_matches_in_encounter_order() {
    assert_eq!(
        MailReader::get_exists_from_idle("* 3 EXISTS\n* 1 RECENT\n* 7 EXISTS\n").unwrap(),
        vec!["3", "7"]
    );
}

#[test]
fn get_exists_surfaces_malformed_line() {
    // a line containing the token but no second field is a defect, not a value
    assert_eq!(MailReader::get_exists_from_idle("EXISTS\n"), None);
    assert_eq!(MailReader::get_exists_from_idle("* 2 EXISTS\nEXISTS\n"), None);
    // a tab is whitespace, never a field: this line still has one field only
    assert_eq!(MailReader::get_exists_from_idle("\t EXISTS"), None);
}

#[test]
fn get_exists_fields_are_split_on_any_whitespace() {
    // a leading tab separates fields like a space would; "18" stays second
    assert_eq!(MailReader::get_exists_from_idle("\t * 18 EXISTS").unwrap(), vec!["18"]);
    assert_eq!(MailReader::get_exists_from_idle("*\t18\tEXISTS").unwrap(), vec!["18"]);
}

#[test]
fn get_exists_handles_crlf_line_ends() {
    assert_eq!(
        MailReader::get_exists_from_idle("* 18 EXISTS\r\n* 1 RECENT\r\n").unwrap(),
        vec!["18"]
    );
}

#[test]
fn idle_cycle_fetches_exactly_the_reported_sequence_number() {
    let step = MailReader::handle_idle_event(&IdleEvent::ServerData("* 5 EXISTS".to_string()));
    match step {
        Ok(IdleStep::Fetch { seq_set }) => assert_eq!(seq_set, "5"),
        other => panic!("expected a fetch of 5, got {:?}", other),
    }
}

#[test]
fn idle_cycle_joins_several_sequence_numbers() {
    let step = MailReader::handle_idle_event(&IdleEvent::ServerData(
        "* 4 EXISTS\n* 9 EXISTS\n".to_string(),
    ));
    match step {
        Ok(IdleStep::Fetch { seq_set }) => assert_eq!(seq_set, "4,9"),
        other => panic!("expected a fetch of 4,9, got {:?}", other),
    }
}

#[test]
fn idle_interrupt_never_fetches() {
    assert_eq!(
        MailReader::handle_idle_event(&IdleEvent::Interrupted),
        Ok(IdleStep::Rewatch)
    );
}

#[test]
fn idle_data_without_exists_rewatches_instead_of_empty_fetch() {
    // a RECENT-only push carries no sequence number: no fetch is issued
    assert_eq!(
        MailReader::handle_idle_event(&IdleEvent::ServerData("* 1 RECENT\n".to_string())),
        Ok(IdleStep::Rewatch)
    );
    assert_eq!(
        MailReader::handle_idle_event(&IdleEvent::ServerData(String::new())),
        Ok(IdleStep::Rewatch)
    );
}

#[test]
fn idle_malformed_notification_is_an_imap_error() {
    let step = MailReader::handle_idle_event(&IdleEvent::ServerData("EXISTS".to_string()));
    match step {
        Err(EmailError::Imap(_)) => {},
        other => panic!("expected an IMAP protocol error, got {:?}", other),
    }
}

#[test]
fn split_char_keeps_empty_segments() {
    assert_eq!(split_char("a,,b,", ','), vec!["a", "", "b", ""]);
    assert_eq!(split_char("", ','), vec![""]);
    assert_eq!(split_char("plain", ','), vec!["plain"]);
}

#[test]
fn fields_of_are_the_whitespace_free_runs() {
    assert_eq!(fields_of(&"  * 18 EXISTS  ".to_string()), vec!["*", "18", "EXISTS"]);
    assert_eq!(fields_of(&"   ".to_string()), vec![] as Vec<String>);
    assert_eq!(fields_of(&"\t a\tb \r".to_string()), vec!["a", "b"]);
}

#[test]
fn split_ws_splits_at_every_whitespace_character() {
    assert_eq!(split_ws("a b\tc"), vec!["a", "b", "c"]);
    assert_eq!(split_ws(" x"), vec!["", "x"]);
    assert_eq!(split_ws(""), vec![""]);
}

#[test]
fn contains_substr_finds_runs_anywhere() {
    assert!(contains_substr("* 18 EXISTS", "EXISTS"));
    assert!(!contains_substr("* 1 RECENT", "EXISTS"));
    assert!(contains_substr("anything", ""));
    assert!(!contains_substr("", "EXISTS"));
}

#[test]
fn join_comma_builds_a_sequence_set() {
    assert_eq!(join_comma(&vec![]), "");
    assert_eq!(join_comma(&vec!["5".to_string()]), "5");
    assert_eq!(join_comma(&vec!["4".to_string(), "9".to_string(), "12".to_string()]), "4,9,12");
}

#[test]
fn mail_reader_keeps_its_host() {
    let reader = MailReader::new("imap.example.test");
    assert_eq!(reader.imap_host, "imap.example.test");
}
