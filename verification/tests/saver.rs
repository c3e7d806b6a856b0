use mail_export::content::FileContent;
use mail_export::provider::{Email, Field};
use mail_export::saver::{file_path, number_text, EmailSaver, SaverState};

fn content(lines: &[&str]) -> FileContent {
    FileContent::new(lines.iter().map(|line| line.to_string()).collect())
}

fn email(number: u32) -> Email {
    Email {
        number,
        from: content(&["From: a@ukeep.io\r\n"]),
        to: content(&["To: b@y.com\r\n"]),
        subject: content(&["Subject: ", "folded\r\n"]),
        body: content(&["one\r\n", "two\r\n"]),
    }
}

#[test]
fn number_text_is_decimal() {
    assert_eq!(number_text(0), "0");
    assert_eq!(number_text(7), "7");
    assert_eq!(number_text(10), "10");
    assert_eq!(number_text(105), "105");
    assert_eq!(number_text(1234567890), "1234567890");
    assert_eq!(number_text(u32::MAX), "4294967295");
}

#[test]
fn file_path_follows_the_convention() {
    assert_eq!(file_path("INBOX", 12, Field::From), "INBOX/12_from.txt");
    assert_eq!(file_path("INBOX", 12, Field::To), "INBOX/12_to.txt");
    assert_eq!(file_path("out/mail", 3, Field::Subject), "out/mail/3_subject.txt");
    assert_eq!(file_path("", 400, Field::Body), "/400_body.txt");
}

#[test]
fn save_to_file_lays_out_four_files() {
    let files = EmailSaver::save_to_file(&email(42), "archive");
    assert_eq!(files.len(), 4);
    assert_eq!(files[0].path, "archive/42_from.txt");
    assert_eq!(files[0].bytes, b"From: a@ukeep.io\r\n".to_vec());
    assert_eq!(files[1].path, "archive/42_to.txt");
    assert_eq!(files[1].bytes, b"To: b@y.com\r\n".to_vec());
    assert_eq!(files[2].path, "archive/42_subject.txt");
    assert_eq!(files[2].bytes, b"Subject: folded\r\n".to_vec());
    assert_eq!(files[3].path, "archive/42_body.txt");
    assert_eq!(files[3].bytes, b"one\r\ntwo\r\n".to_vec());
}

#[test]
fn new_saver_is_idle_and_empty() {
    let saver = EmailSaver::new("out");
    assert_eq!(saver.current_state(), SaverState::Idle);
    assert!(!saver.closed());
    assert_eq!(saver.output_folder(), "out");
    assert_eq!(saver.pending(), 0);
}

#[test]
fn saver_hands_out_in_arrival_order() {
    let mut saver = EmailSaver::new("out");
    saver.start();
    assert_eq!(saver.current_state(), SaverState::Running);
    assert!(saver.save(email(5)));
    assert!(saver.save(email(2)));
    assert_eq!(saver.pending(), 2);
    let first = saver.next_files().unwrap();
    assert_eq!(first.len(), 4);
    assert_eq!(first[0].path, "out/5_from.txt");
    assert_eq!(saver.pending(), 1);
    let second = saver.next_files().unwrap();
    assert_eq!(second[3].path, "out/2_body.txt");
    assert!(saver.next_files().is_none());
    assert_eq!(saver.current_state(), SaverState::Running);
}

#[test]
fn idle_saver_queues_but_hands_out_nothing() {
    let mut saver = EmailSaver::new("out");
    assert!(saver.save(email(1)));
    assert!(saver.next_files().is_none());
    assert_eq!(saver.current_state(), SaverState::Idle);
    assert_eq!(saver.pending(), 1);
    saver.start();
    assert!(saver.next_files().is_some());
}

#[test]
fn closed_saver_refuses_messages_and_drains() {
    let mut saver = EmailSaver::new("out");
    saver.start();
    assert!(saver.save(email(1)));
    saver.close();
    assert!(saver.closed());
    assert_eq!(saver.current_state(), SaverState::Draining);
    assert!(!saver.save(email(2)));
    assert_eq!(saver.pending(), 1);
    assert!(saver.next_files().is_some());
    assert_eq!(saver.current_state(), SaverState::Draining);
    assert!(saver.next_files().is_none());
    assert_eq!(saver.current_state(), SaverState::Stopped);
}

#[test]
fn saver_closed_while_idle_hands_out_nothing_before_start() {
    let mut saver = EmailSaver::new("out");
    assert!(saver.save(email(1)));
    saver.close();
    assert_eq!(saver.current_state(), SaverState::Idle);
    assert!(saver.closed());
    assert!(saver.next_files().is_none());
    assert_eq!(saver.current_state(), SaverState::Idle);
    assert_eq!(saver.pending(), 1);
    assert!(saver.drain().is_empty());
    assert_eq!(saver.current_state(), SaverState::Idle);
    assert_eq!(saver.pending(), 1);
    assert!(!saver.save(email(2)));

    saver.start();
    assert_eq!(saver.current_state(), SaverState::Draining);
    let files = saver.next_files().unwrap();
    assert_eq!(files[0].path, "out/1_from.txt");
    assert!(saver.next_files().is_none());
    assert_eq!(saver.current_state(), SaverState::Stopped);
}

#[test]
fn stopped_saver_stays_stopped() {
    let mut saver = EmailSaver::new("out");
    saver.start();
    saver.close();
    assert!(saver.next_files().is_none());
    assert_eq!(saver.current_state(), SaverState::Stopped);
    saver.start();
    saver.close();
    assert_eq!(saver.current_state(), SaverState::Stopped);
    assert!(!saver.save(email(1)));
    assert!(saver.next_files().is_none());
    assert!(saver.drain().is_empty());
    assert_eq!(saver.current_state(), SaverState::Stopped);
}

#[test]
fn start_does_not_reopen_a_draining_saver() {
    let mut saver = EmailSaver::new("out");
    saver.start();
    saver.close();
    saver.start();
    assert_eq!(saver.current_state(), SaverState::Draining);
}

#[test]
fn drain_writes_everything_and_stops() {
    let mut saver = EmailSaver::new("out");
    saver.start();
    assert!(saver.save(email(3)));
    assert!(saver.save(email(8)));
    assert!(saver.save(email(9)));
    let files = saver.drain();
    assert_eq!(files.len(), 12);
    let paths: Vec<&str> = files.iter().map(|file| file.path.as_str()).collect();
    assert_eq!(
        paths,
        vec![
            "out/3_from.txt",
            "out/3_to.txt",
            "out/3_subject.txt",
            "out/3_body.txt",
            "out/8_from.txt",
            "out/8_to.txt",
            "out/8_subject.txt",
            "out/8_body.txt",
            "out/9_from.txt",
            "out/9_to.txt",
            "out/9_subject.txt",
            "out/9_body.txt",
        ]
    );
    assert_eq!(saver.current_state(), SaverState::Stopped);
    assert_eq!(saver.pending(), 0);
}

#[test]
fn drain_of_empty_saver_gives_nothing() {
    let mut saver = EmailSaver::new("out");
    saver.start();
    assert!(saver.drain().is_empty());
    assert_eq!(saver.current_state(), SaverState::Stopped);
    assert!(saver.closed());
}

#[test]
fn next_number_names_the_oldest_message() {
    let mut saver = EmailSaver::new("out");
    assert_eq!(saver.next_number(), None);
    assert!(saver.save(email(7)));
    assert!(saver.save(email(3)));
    assert_eq!(saver.next_number(), Some(7));
    saver.start();
    assert!(saver.next_files().is_some());
    assert_eq!(saver.next_number(), Some(3));
    assert!(saver.next_files().is_some());
    assert_eq!(saver.next_number(), None);
}
