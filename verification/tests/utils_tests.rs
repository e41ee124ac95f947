use mailtempest::account::MailAccount;
use mailtempest::message::MailAddr;
use mailtempest::message::RecipientHeader;
use mailtempest::utils::get_domain_name;
use mailtempest::utils::get_recipients;
use mailtempest::utils::prepare_contents;
use mailtempest::utils::replace;
use mailtempest::utils::rewrite_recipients;

#[test]
fn search_replace_bytes() {
    assert_eq!(replace("Date: Thu,  7 Sep 2023 15:16:52 +0000
        Message-ID: <id>
        X-Mailer: Thunderbird".as_bytes(), "id".as_bytes(), "this_is_a_new_id".as_bytes()),
               "Date: Thu,  7 Sep 2023 15:16:52 +0000
        Message-ID: <this_is_a_new_id>
        X-Mailer: Thunderbird".as_bytes())
}

#[test]
fn replace_absent_pattern_is_noop() {
    let source = b"nothing to see here".to_vec();
    let out = replace(&source, b"zzz", b"yyy");
    assert_eq!(out, source);
}

#[test]
fn replace_same_length_keeps_length() {
    let source = b"one id, two id, red id".to_vec();
    let out = replace(&source, b"id", b"no");
    assert_eq!(out, b"one no, two no, red no".to_vec());
    assert_eq!(out.len(), source.len());
}

#[test]
fn replace_length_changes_by_delta_times_count() {
    let source = b"a--b--c".to_vec();
    let out = replace(&source, b"--", b"+");
    assert_eq!(out, b"a+b+c".to_vec());
    // two occurrences, each one byte shorter
    assert_eq!(out.len(), source.len() - 2);
    let longer = replace(&source, b"--", b"====");
    assert_eq!(longer, b"a====b====c".to_vec());
    assert_eq!(longer.len(), source.len() + 4);
}

#[test]
fn replace_finds_target_at_expected_offset() {
    let source = b"Message-ID: <old>".to_vec();
    let out = replace(&source, b"old", b"fresh");
    // the first occurrence of "old" starts at offset 13; "fresh" stands there
    assert_eq!(&out[13..13 + 5], b"fresh");
    assert_eq!(out, b"Message-ID: <fresh>".to_vec());
}

#[test]
fn replace_never_rescans_inserted_text() {
    // the replacement contains the pattern, yet is inserted only once
    assert_eq!(replace(b"id", b"id", b"idid"), b"idid".to_vec());
    // overlapping occurrences are taken leftmost, non-overlapping
    assert_eq!(replace(b"aaa", b"aa", b"a"), b"aa".to_vec());
    assert_eq!(replace(b"abab", b"ab", b"b"), b"bb".to_vec());
}

#[test]
fn test_get_domain_name() {
    assert_eq!(get_domain_name(&"foo@bar.com".to_string()).unwrap(), "bar.com".to_string());
    assert_eq!(get_domain_name(&"not_email".to_string()), None);
}

#[test]
fn get_domain_name_splits_at_first_at_sign() {
    assert_eq!(get_domain_name(&"a@b@c".to_string()).unwrap(), "b@c".to_string());
    assert_eq!(get_domain_name(&"@leading".to_string()).unwrap(), "leading".to_string());
    assert_eq!(get_domain_name(&"trailing@".to_string()).unwrap(), "".to_string());
    assert_eq!(get_domain_name(&"".to_string()), None);
}

#[test]
fn get_recipients_no_recipients() {
    assert_eq!(get_recipients(
        &RecipientHeader::List(vec![])),
               vec![] as Vec<String>)
}

#[test]
fn get_recipients_one_recipient() {
    assert_eq!(get_recipients(
        &RecipientHeader::Single(
            MailAddr { name: None, address: Some("foo@bar.com".to_string()) },
        )),
               vec!["foo@bar.com"])
}

#[test]
fn get_recipients_two_recipients() {
    assert_eq!(get_recipients(
        &RecipientHeader::List(vec![
            MailAddr { name: Some("Foo".to_string()), address: Some("foo@bar.com".to_string()) },
            MailAddr { name: None, address: Some("baz@bar.com".to_string()) },
        ])),
               vec!["foo@bar.com", "baz@bar.com"])
}

#[test]
fn get_recipients_skips_entry_without_address() {
    assert_eq!(get_recipients(
        &RecipientHeader::List(vec![
            MailAddr { name: Some("No Address".to_string()), address: None },
            MailAddr { name: None, address: Some("kept@bar.com".to_string()) },
        ])),
               vec!["kept@bar.com"]);
    assert_eq!(get_recipients(
        &RecipientHeader::Single(MailAddr { name: None, address: None })),
               vec![] as Vec<String>);
}

#[test]
fn get_recipients_other_shape_is_empty() {
    assert_eq!(get_recipients(&RecipientHeader::Other), vec![] as Vec<String>);
}

#[test]
fn prepare_contents_rewrites_each_recipient_in_the_bytes() {
    let contents = b"Message-ID: <p@c>\nTo: a@x.test\nCc: b@x.test\n\nbody\n".to_vec();
    let accounts = vec![
        MailAccount::new("u1@y.test", "s1"),
        MailAccount::new("u2@y.test", "s2"),
    ];
    let (out, next) = prepare_contents(&contents, &accounts, 0).unwrap();
    assert_eq!(out, b"Message-ID: <p@c>\nTo: u1@y.test\nCc: u2@y.test\n\nbody\n".to_vec());
    assert_eq!(next, 0);
}

#[test]
fn prepare_contents_rejects_unparseable_bytes() {
    let accounts = vec![MailAccount::new("u@y.test", "s")];
    assert_eq!(prepare_contents(&Vec::new(), &accounts, 0), None);
}

#[test]
fn rewrite_recipients_cycles_accounts() {
    let raw = b"To: a@x.test, b@x.test\n".to_vec();
    let emails = vec!["a@x.test".to_string(), "b@x.test".to_string()];
    let accounts = vec![
        MailAccount::new("u1@y.test", "s1"),
        MailAccount::new("u2@y.test", "s2"),
    ];
    let (out, next) = rewrite_recipients(&raw, &emails, &accounts, 0);
    assert_eq!(out, b"To: u1@y.test, u2@y.test\n".to_vec());
    assert_eq!(next, 0); // two addresses with two accounts: back to the start
}

#[test]
fn rewrite_recipients_wraps_cursor() {
    let raw = b"x@z.test\n".to_vec();
    let emails = vec!["x@z.test".to_string()];
    let accounts = vec![MailAccount::new("solo@z.test", "s")];
    let (out, next) = rewrite_recipients(&raw, &emails, &accounts, 0);
    assert_eq!(out, b"solo@z.test\n".to_vec());
    assert_eq!(next, 0);
}
