use mailtempest::mail_sender::DeliveryPlan;
use mailtempest::mail_sender::MailSender;
use mailtempest::mail_sender::plan_delivery;
use mailtempest::message::MailAddr;
use mailtempest::message::MailMessage;
use mailtempest::message::RecipientHeader;
use mailtempest::pace_maker::PaceMaker;

fn addr(a: &str) -> MailAddr {
    MailAddr { name: None, address: Some(a.to_string()) }
}

fn template(id: &[u8], to: RecipientHeader, cc: RecipientHeader, raw: &[u8]) -> MailMessage {
    MailMessage {
        message_id: Some(id.to_vec()),
        to,
        cc,
        bcc: RecipientHeader::Other,
        raw: raw.to_vec(),
    }
}

#[test]
fn plan_keeps_only_same_domain_recipients() {
    let msg = template(
        b"tpl-1",
        RecipientHeader::List(vec![addr("foo@bar.com"), addr("bob@other.com")]),
        RecipientHeader::Single(addr("carol@bar.com")),
        b"Message-ID: <tpl-1>\nbody",
    );
    let plan = plan_delivery(&msg, &"alice@bar.com".to_string(), &b"NEW".to_vec());
    match plan {
        DeliveryPlan::Send { recipients, raw_body } => {
            assert_eq!(recipients, vec!["foo@bar.com", "carol@bar.com"]);
            assert_eq!(raw_body, b"Message-ID: <NEW>\nbody".to_vec());
        },
        DeliveryPlan::Skip => panic!("expected a send"),
    }
}

#[test]
fn plan_domain_match_is_exact_not_a_suffix() {
    // xbar.com ends with bar.com but is a different domain
    let msg = template(
        b"tpl-2",
        RecipientHeader::Single(addr("foo@xbar.com")),
        RecipientHeader::Other,
        b"Message-ID: <tpl-2>\n",
    );
    let plan = plan_delivery(&msg, &"alice@bar.com".to_string(), &b"NEW".to_vec());
    assert_eq!(plan, DeliveryPlan::Skip);
}

#[test]
fn plan_skips_when_no_recipient_shares_the_domain() {
    let msg = template(
        b"tpl-3",
        RecipientHeader::Single(addr("bob@other.com")),
        RecipientHeader::Other,
        b"Message-ID: <tpl-3>\n",
    );
    let plan = plan_delivery(&msg, &"alice@bar.com".to_string(), &b"NEW".to_vec());
    assert_eq!(plan, DeliveryPlan::Skip);
}

#[test]
fn plan_skips_when_the_login_has_no_domain() {
    let msg = template(
        b"tpl-4",
        RecipientHeader::Single(addr("foo@bar.com")),
        RecipientHeader::Other,
        b"Message-ID: <tpl-4>\n",
    );
    let plan = plan_delivery(&msg, &"not_an_address".to_string(), &b"NEW".to_vec());
    assert_eq!(plan, DeliveryPlan::Skip);
}

#[test]
fn plan_without_message_id_sends_bytes_unchanged() {
    let msg = MailMessage {
        message_id: None,
        to: RecipientHeader::Single(addr("foo@bar.com")),
        cc: RecipientHeader::Other,
        bcc: RecipientHeader::Other,
        raw: b"no id header\n".to_vec(),
    };
    let plan = plan_delivery(&msg, &"alice@bar.com".to_string(), &b"NEW".to_vec());
    match plan {
        DeliveryPlan::Send { recipients, raw_body } => {
            assert_eq!(recipients, vec!["foo@bar.com"]);
            assert_eq!(raw_body, b"no id header\n".to_vec());
        },
        DeliveryPlan::Skip => panic!("expected a send"),
    }
}

#[test]
fn prepared_copies_are_distinguishable_from_the_template() {
    let sender = MailSender::new(
        "smtp.example.test".to_string(),
        "alice@bar.com".to_string(),
        "secret".to_string(),
    );
    let msg = template(
        b"tpl-5@corpus",
        RecipientHeader::Single(addr("foo@bar.com")),
        RecipientHeader::Other,
        b"Message-ID: <tpl-5@corpus>\nbody\n",
    );
    let first = sender.prepare_delivery(&msg);
    let second = sender.prepare_delivery(&msg);
    let body_of = |p: &DeliveryPlan| match p {
        DeliveryPlan::Send { raw_body, .. } => raw_body.clone(),
        DeliveryPlan::Skip => panic!("expected a send"),
    };
    let b1 = body_of(&first);
    let b2 = body_of(&second);
    // the template's Message-ID is gone from every prepared copy
    assert_ne!(b1, msg.raw);
    assert!(!String::from_utf8(b1.clone()).unwrap().contains("tpl-5@corpus"));
    // two prepared copies draw two distinct fresh identifiers
    assert_ne!(b1, b2);
}

#[test]
fn scenario_three_messages_two_accounts() {
    // a corpus of three messages, two accounts on two domains, fixed pace:
    // each account's sender finds at least one same-domain template, and
    // every planned send differs from its template's bytes.
    let files = vec![
        b"Message-ID: <m1@c>\nFrom: g@load.test\nTo: alice@dom-a.test\nSubject: a\n\none\n".to_vec(),
        b"Message-ID: <m2@c>\nFrom: g@load.test\nTo: bob@dom-b.test\nSubject: b\n\ntwo\n".to_vec(),
        b"Message-ID: <m3@c>\nFrom: g@load.test\nTo: alice@dom-a.test, bob@dom-b.test\nSubject: c\n\nthree\n"
            .to_vec(),
    ];
    let mut engine = PaceMaker::new(10, true);
    assert_eq!(engine.load_messages(&files), Ok(3));
    assert_eq!(engine.next_wait_millis(), 10);

    let senders = vec![
        MailSender::new("smtp.host.test".to_string(), "alice@dom-a.test".to_string(), "sa".to_string()),
        MailSender::new("smtp.host.test".to_string(), "bob@dom-b.test".to_string(), "sb".to_string()),
    ];
    for sender in &senders {
        let mut sent = 0;
        for msg in &engine.messages {
            match sender.prepare_delivery(msg) {
                DeliveryPlan::Send { recipients, raw_body } => {
                    sent += 1;
                    let domain = sender.user.split('@').nth(1).unwrap();
                    assert!(recipients.iter().all(|r| r.ends_with(&format!("@{}", domain))));
                    assert_ne!(raw_body, msg.raw);
                },
                DeliveryPlan::Skip => {},
            }
        }
        assert!(sent >= 1, "no send attempt for {}", sender.user);
    }
}
