use mail_export::content::FileContent;
use mail_export::provider::{
    fetch_command, from_or_to_ukeep, into_email, Action, EmailError, EmailProvider, Fetched, Field,
};

fn failed(number: u32, from: bool, to: bool, subject: bool, body: bool) -> EmailError {
    EmailError::FailedFetch { number, from, to, subject, body }
}

fn content(lines: &[&str]) -> FileContent {
    FileContent::new(lines.iter().map(|line| line.to_string()).collect())
}

#[test]
fn queries_name_the_four_fields() {
    assert_eq!(Field::From.query(), "BODY.PEEK[HEADER.FIELDS (FROM)]");
    assert_eq!(Field::To.query(), "BODY.PEEK[HEADER.FIELDS (TO)]");
    assert_eq!(Field::Subject.query(), "BODY.PEEK[HEADER.FIELDS (SUBJECT)]");
    assert_eq!(Field::Body.query(), "body[text]");
}

#[test]
fn labels_name_the_four_fields() {
    assert_eq!(Field::From.label(), "from");
    assert_eq!(Field::To.label(), "to");
    assert_eq!(Field::Subject.label(), "subject");
    assert_eq!(Field::Body.label(), "body");
}

#[test]
fn new_provider_asks_for_the_sender_first() {
    let provider = EmailProvider::new(7);
    assert_eq!(provider.number, 7);
    assert_eq!(provider.next_action("ukeep"), Action::Fetch(Field::From));
    assert!(!from_or_to_ukeep(&provider, "ukeep"));
}

#[test]
fn included_message_is_fetched_in_order() {
    let mut provider = EmailProvider::new(1);
    assert_eq!(provider.next_action("ukeep"), Action::Fetch(Field::From));
    provider.supply(Field::From, Some(content(&["From: a@x.com\r\n"])));
    assert_eq!(provider.next_action("ukeep"), Action::Fetch(Field::To));
    provider.supply(Field::To, Some(content(&["To: team@ukeep.io\r\n"])));
    assert!(from_or_to_ukeep(&provider, "ukeep"));
    assert_eq!(provider.next_action("ukeep"), Action::Fetch(Field::Subject));
    provider.supply(Field::Subject, Some(content(&["Subject: hi\r\n"])));
    assert_eq!(provider.next_action("ukeep"), Action::Fetch(Field::Body));
    provider.supply(Field::Body, Some(content(&["line 1\r\n", "line 2\r\n"])));
    assert_eq!(provider.next_action("ukeep"), Action::Save);
    let email = into_email(provider).unwrap();
    assert_eq!(email.number, 1);
    assert_eq!(email.from.0, vec!["From: a@x.com\r\n".to_string()]);
    assert_eq!(email.to.0, vec!["To: team@ukeep.io\r\n".to_string()]);
    assert_eq!(email.subject.0, vec!["Subject: hi\r\n".to_string()]);
    assert_eq!(email.body.0, vec!["line 1\r\n".to_string(), "line 2\r\n".to_string()]);
}

#[test]
fn excluded_message_gets_no_further_fetch() {
    let mut provider = EmailProvider::new(2);
    let mut fetched = Vec::new();
    loop {
        match provider.next_action("ukeep") {
            Action::Fetch(field) => {
                fetched.push(field);
                let answer = match field {
                    Field::From => content(&["From: a@x.com\r\n"]),
                    Field::To => content(&["To: b@y.com\r\n"]),
                    Field::Subject => content(&["Subject: ukeep\r\n"]),
                    Field::Body => content(&["ukeep"]),
                };
                provider.supply(field, Some(answer));
            }
            other => {
                assert_eq!(other, Action::Exclude);
                break;
            }
        }
    }
    assert_eq!(fetched, vec![Field::From, Field::To]);
    assert!(!from_or_to_ukeep(&provider, "ukeep"));
    assert!(into_email(provider).is_none());
}

#[test]
fn sender_mention_is_enough() {
    let mut provider = EmailProvider::new(3);
    provider.supply(Field::From, Some(content(&["From: boss@ukeep.io\r\n"])));
    provider.supply(Field::To, Some(content(&["To: b@y.com\r\n"])));
    assert!(from_or_to_ukeep(&provider, "ukeep"));
    assert!(!from_or_to_ukeep(&provider, "nobody"));
    assert_eq!(provider.next_action("ukeep"), Action::Fetch(Field::Subject));
    assert_eq!(provider.next_action("nobody"), Action::Exclude);
}

#[test]
fn failed_sender_drops_at_once() {
    let mut provider = EmailProvider::new(2);
    provider.supply(Field::From, None);
    assert!(matches!(provider.from, Fetched::Failed));
    assert_eq!(
        provider.next_action("ukeep"),
        Action::Drop(failed(2, false, false, false, false))
    );
    assert!(!from_or_to_ukeep(&provider, "ukeep"));
}

#[test]
fn filter_fails_closed_on_recipient_error() {
    let mut provider = EmailProvider::new(2);
    provider.supply(Field::From, Some(content(&["From: boss@ukeep.io\r\n"])));
    provider.supply(Field::To, None);
    assert!(!from_or_to_ukeep(&provider, "ukeep"));
    assert_eq!(
        provider.next_action("ukeep"),
        Action::Drop(failed(2, true, false, false, false))
    );
    provider.supply(Field::Subject, Some(content(&["ukeep"])));
    provider.supply(Field::Body, Some(content(&["ukeep"])));
    assert!(!from_or_to_ukeep(&provider, "ukeep"));
    assert_eq!(
        provider.next_action("ukeep"),
        Action::Drop(failed(2, true, false, true, true))
    );
}

#[test]
fn filter_fails_closed_on_sender_error() {
    let mut provider = EmailProvider::new(2);
    provider.supply(Field::From, None);
    provider.supply(Field::To, Some(content(&["To: team@ukeep.io\r\n"])));
    assert!(!from_or_to_ukeep(&provider, "ukeep"));
}

#[test]
fn failed_subject_still_asks_for_the_body() {
    let mut provider = EmailProvider::new(4);
    provider.supply(Field::From, Some(content(&["ukeep"])));
    provider.supply(Field::To, Some(content(&["x"])));
    provider.supply(Field::Subject, None);
    assert_eq!(provider.next_action("ukeep"), Action::Fetch(Field::Body));
    provider.supply(Field::Body, Some(content(&["b"])));
    assert_eq!(
        provider.next_action("ukeep"),
        Action::Drop(failed(4, true, true, false, true))
    );
    assert_eq!(provider.email().unwrap_err(), failed(4, true, true, false, true));
}

#[test]
fn failed_subject_and_body_are_both_named() {
    let mut provider = EmailProvider::new(4);
    provider.supply(Field::From, Some(content(&["ukeep"])));
    provider.supply(Field::To, Some(content(&["x"])));
    provider.supply(Field::Subject, None);
    provider.supply(Field::Body, None);
    assert_eq!(
        provider.next_action("ukeep"),
        Action::Drop(failed(4, true, true, false, false))
    );
}

#[test]
fn failed_body_drops_the_message() {
    let mut provider = EmailProvider::new(4);
    provider.supply(Field::From, Some(content(&["ukeep"])));
    provider.supply(Field::To, Some(content(&["x"])));
    provider.supply(Field::Subject, Some(content(&["s"])));
    assert_eq!(provider.next_action("ukeep"), Action::Fetch(Field::Body));
    provider.supply(Field::Body, None);
    assert_eq!(
        provider.next_action("ukeep"),
        Action::Drop(failed(4, true, true, true, false))
    );
    assert_eq!(provider.email().unwrap_err(), failed(4, true, true, true, false));
}

#[test]
fn email_tells_of_each_field_whether_it_arrived() {
    let provider = EmailProvider::new(9);
    assert_eq!(provider.email().unwrap_err(), failed(9, false, false, false, false));

    let mut provider = EmailProvider::new(9);
    provider.supply(Field::From, Some(content(&["f"])));
    provider.supply(Field::Body, Some(content(&["b"])));
    assert_eq!(provider.email().unwrap_err(), failed(9, true, false, false, true));

    let mut provider = EmailProvider::new(9);
    provider.supply(Field::From, None);
    provider.supply(Field::To, Some(content(&["t"])));
    let with_recipient = provider.email().unwrap_err();
    let mut provider = EmailProvider::new(9);
    provider.supply(Field::From, None);
    provider.supply(Field::To, None);
    let without_recipient = provider.email().unwrap_err();
    assert_eq!(with_recipient, failed(9, false, true, false, false));
    assert_eq!(without_recipient, failed(9, false, false, false, false));
    assert_ne!(with_recipient, without_recipient);
}

#[test]
fn error_answers_for_each_field() {
    let error = failed(3, true, false, true, false);
    assert!(error.has(Field::From));
    assert!(!error.has(Field::To));
    assert!(error.has(Field::Subject));
    assert!(!error.has(Field::Body));
}

#[test]
fn report_matches_the_slots() {
    let mut provider = EmailProvider::new(6);
    provider.supply(Field::To, Some(content(&["t"])));
    provider.supply(Field::Subject, None);
    assert_eq!(provider.report(), failed(6, false, true, false, false));
    assert!(provider.to.arrived());
    assert!(!provider.subject.arrived());
    assert!(!provider.body.arrived());
}

#[test]
fn fetch_command_names_number_and_query() {
    assert_eq!(fetch_command(1, Field::From), "FETCH 1 BODY.PEEK[HEADER.FIELDS (FROM)]");
    assert_eq!(fetch_command(20, Field::To), "FETCH 20 BODY.PEEK[HEADER.FIELDS (TO)]");
    assert_eq!(
        fetch_command(305, Field::Subject),
        "FETCH 305 BODY.PEEK[HEADER.FIELDS (SUBJECT)]"
    );
    assert_eq!(fetch_command(u32::MAX, Field::Body), "FETCH 4294967295 body[text]");
}

#[test]
fn supply_replaces_an_earlier_answer() {
    let mut provider = EmailProvider::new(1);
    provider.supply(Field::From, None);
    provider.supply(Field::From, Some(content(&["From: a@ukeep.io"])));
    provider.supply(Field::To, Some(content(&["To: b"])));
    provider.supply(Field::Subject, Some(content(&["s"])));
    provider.supply(Field::Body, Some(content(&["b"])));
    let email = provider.email().unwrap();
    assert_eq!(email.from.0, vec!["From: a@ukeep.io".to_string()]);
    assert_eq!(email.to.0, vec!["To: b".to_string()]);
}

#[test]
fn record_tells_success_from_failure() {
    assert!(matches!(Fetched::record(None), Fetched::Failed));
    match Fetched::record(Some(content(&["x", "y"]))) {
        Fetched::Done(lines) => assert_eq!(lines.0, vec!["x".to_string(), "y".to_string()]),
        other => panic!("unexpected slot {:?}", other),
    }
}
