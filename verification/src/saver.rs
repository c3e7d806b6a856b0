//! Saving complete messages: the files that stand for a message, and the
//! queue between the side that fetches and the side that writes.

use vstd::prelude::*;
use vstd::string::*;
use crate::content::encoded;
use crate::provider::{Email, EmailView, Field};

verus! {

/// The character of a decimal digit.
pub open spec fn digit(d: nat) -> char {
    if d == 0 {
        '0'
    } else if d == 1 {
        '1'
    } else if d == 2 {
        '2'
    } else if d == 3 {
        '3'
    } else if d == 4 {
        '4'
    } else if d == 5 {
        '5'
    } else if d == 6 {
        '6'
    } else if d == 7 {
        '7'
    } else if d == 8 {
        '8'
    } else {
        '9'
    }
}

/// A number in decimal, most significant digit first, without leading zeros.
pub open spec fn decimal(n: nat) -> Seq<char>
    decreases n,
{
    if n < 10 {
        seq![digit(n)]
    } else {
        decimal(n / 10).push(digit(n % 10))
    }
}

/// Where `field` of message `number` is saved below `folder`:
/// the folder, a slash, the number, an underscore, the field's word, `.txt`.
pub open spec fn path_of(folder: Seq<char>, number: u32, field: Field) -> Seq<char> {
    folder + "/"@ + decimal(number as nat) + "_"@ + field.label_text() + ".txt"@
}

/// A file to be written: where, and what.
#[derive(Debug)]
pub struct OutputFile {
    pub path: String,
    pub bytes: Vec<u8>,
}

/// A file to be written, as plain values.
pub struct OutputFileView {
    pub path: Seq<char>,
    pub bytes: Seq<u8>,
}

impl View for OutputFile {
    type V = OutputFileView;

    open spec fn view(&self) -> OutputFileView {
        OutputFileView { path: self.path@, bytes: self.bytes@ }
    }
}

/// The four files of a message, in the order sender, recipient, subject,
/// body; each holds the bytes of its field's lines and nothing else.
pub open spec fn files_of(folder: Seq<char>, email: EmailView) -> Seq<OutputFileView> {
    seq![
        OutputFileView {
            path: path_of(folder, email.number, Field::From),
            bytes: encoded(email.from),
        },
        OutputFileView { path: path_of(folder, email.number, Field::To), bytes: encoded(email.to) },
        OutputFileView {
            path: path_of(folder, email.number, Field::Subject),
            bytes: encoded(email.subject),
        },
        OutputFileView {
            path: path_of(folder, email.number, Field::Body),
            bytes: encoded(email.body),
        },
    ]
}

/// The files of several messages, message after message.
pub open spec fn all_files(folder: Seq<char>, emails: Seq<EmailView>) -> Seq<OutputFileView>
    decreases emails.len(),
{
    if emails.len() == 0 {
        Seq::empty()
    } else {
        all_files(folder, emails.drop_last()) + files_of(folder, emails.last())
    }
}

/// Every saved message accounts for exactly four files: never more, never
/// fewer.
pub proof fn lemma_four_files_per_message(folder: Seq<char>, emails: Seq<EmailView>)
    ensures
        all_files(folder, emails).len() == 4 * emails.len(),
    decreases emails.len(),
{
    if emails.len() > 0 {
        lemma_four_files_per_message(folder, emails.drop_last());
    }
}

/// The files of several messages come in groups of four: file `k` is file
/// `k % 4` of message `k / 4`. So every file belongs to a saved message,
/// and a message that is not saved has no file.
pub proof fn lemma_file_belongs_to_its_message(folder: Seq<char>, emails: Seq<EmailView>, k: int)
    requires
        0 <= k < 4 * emails.len(),
    ensures
        all_files(folder, emails).len() == 4 * emails.len(),
        all_files(folder, emails)[k] == files_of(folder, emails[k / 4])[k % 4],
    decreases emails.len(),
{
    lemma_four_files_per_message(folder, emails);
    let front = emails.drop_last();
    lemma_four_files_per_message(folder, front);
    if k < 4 * front.len() {
        lemma_file_belongs_to_its_message(folder, front, k);
        assert(front[k / 4] == emails[k / 4]);
    } else {
        assert(k / 4 == emails.len() - 1);
        assert(k % 4 == k - 4 * front.len());
    }
}

/// A number in decimal has at least one character, and an underscore is
/// never among them.
pub proof fn lemma_decimal_holds_no_underscore(n: nat)
    ensures
        decimal(n).len() >= 1,
        forall|i: int| 0 <= i < decimal(n).len() ==> decimal(n)[i] != '_',
    decreases n,
{
    if n >= 10 {
        lemma_decimal_holds_no_underscore(n / 10);
    }
}

/// Different numbers are written differently.
pub proof fn lemma_decimal_is_injective(a: nat, b: nat)
    requires
        decimal(a) == decimal(b),
    ensures
        a == b,
    decreases a,
{
    lemma_decimal_holds_no_underscore(a / 10);
    lemma_decimal_holds_no_underscore(b / 10);
    if a < 10 && b < 10 {
        assert(decimal(a)[0] == digit(a));
        assert(decimal(b)[0] == digit(b));
    } else if a >= 10 && b >= 10 {
        let front_a = decimal(a / 10);
        let front_b = decimal(b / 10);
        assert(decimal(a).drop_last() =~= front_a);
        assert(decimal(b).drop_last() =~= front_b);
        assert(decimal(a).last() == digit(a % 10));
        assert(decimal(b).last() == digit(b % 10));
        lemma_decimal_is_injective(a / 10, b / 10);
    } else {
        assert(decimal(a).len() != decimal(b).len());
    }
}

/// No two files of a folder share a path unless they hold the same field
/// of the same message.
pub proof fn lemma_paths_are_distinct(
    folder: Seq<char>,
    first_number: u32,
    first_field: Field,
    second_number: u32,
    second_field: Field,
)
    requires
        path_of(folder, first_number, first_field) == path_of(
            folder,
            second_number,
            second_field,
        ),
    ensures
        first_number == second_number,
        first_field == second_field,
{
    reveal_strlit("/");
    reveal_strlit("_");
    reveal_strlit(".txt");
    reveal_strlit("from");
    reveal_strlit("to");
    reveal_strlit("subject");
    reveal_strlit("body");
    let first = path_of(folder, first_number, first_field);
    let second = path_of(folder, second_number, second_field);
    let first_digits = decimal(first_number as nat);
    let second_digits = decimal(second_number as nat);
    let base: int = folder.len() as int + 1;
    lemma_decimal_holds_no_underscore(first_number as nat);
    lemma_decimal_holds_no_underscore(second_number as nat);
    assert forall|i: int| 0 <= i < first_digits.len() implies first[base + i] == first_digits[i] by {}
    assert forall|i: int| 0 <= i < second_digits.len() implies second[base + i]
        == second_digits[i] by {}
    assert(first[base + first_digits.len()] == '_');
    assert(second[base + second_digits.len()] == '_');
    if first_digits.len() < second_digits.len() {
        assert(second[base + first_digits.len()] == second_digits[first_digits.len() as int]);
    }
    if second_digits.len() < first_digits.len() {
        assert(first[base + second_digits.len()] == first_digits[second_digits.len() as int]);
    }
    assert(first_digits =~= second_digits) by {
        assert forall|i: int| 0 <= i < first_digits.len() implies first_digits[i]
            == second_digits[i] by {
            assert(first[base + i] == first_digits[i]);
            assert(second[base + i] == second_digits[i]);
        }
    }
    lemma_decimal_is_injective(first_number as nat, second_number as nat);
    let mark: int = base + first_digits.len() + 1;
    assert(first[mark] == first_field.label_text()[0]);
    assert(second[mark] == second_field.label_text()[0]);
}

fn digit_text(d: u32) -> (text: &'static str)
    requires
        d < 10,
    ensures
        text@ == seq![digit(d as nat)],
{
    proof {
        reveal_strlit("0");
        reveal_strlit("1");
        reveal_strlit("2");
        reveal_strlit("3");
        reveal_strlit("4");
        reveal_strlit("5");
        reveal_strlit("6");
        reveal_strlit("7");
        reveal_strlit("8");
        reveal_strlit("9");
    }
    let text = if d == 0 {
        "0"
    } else if d == 1 {
        "1"
    } else if d == 2 {
        "2"
    } else if d == 3 {
        "3"
    } else if d == 4 {
        "4"
    } else if d == 5 {
        "5"
    } else if d == 6 {
        "6"
    } else if d == 7 {
        "7"
    } else if d == 8 {
        "8"
    } else {
        "9"
    };
    assert(text@ =~= seq![digit(d as nat)]);
    text
}

/// A message number as it is written in file names and in fetch requests.
pub fn number_text(number: u32) -> (text: String)
    ensures
        text@ == decimal(number as nat),
    decreases number,
{
    if number < 10 {
        digit_text(number).to_owned()
    } else {
        let front = number_text(number / 10);
        let text = front.concat(digit_text(number % 10));
        assert(text@ =~= decimal(number as nat));
        text
    }
}

/// The path of the file that holds `field` of message `number`.
pub fn file_path(folder: &str, number: u32, field: Field) -> (path: String)
    ensures
        path@ == path_of(folder@, number, field),
{
    let digits = number_text(number);
    folder.to_owned().concat("/").concat(digits.as_str()).concat("_").concat(field.label()).concat(
        ".txt",
    )
}

/// Where the worker that writes the files stands.
#[derive(Clone, Copy, Debug, PartialEq, Eq, Structural)]
pub enum SaverState {
    /// Made, and the output folder not yet seen to.
    Idle,
    /// Taking messages and handing out their files.
    Running,
    /// Closed to new messages; the queued ones are still handed out.
    Draining,
    /// Closed and empty. Nothing follows.
    Stopped,
}

/// The sink for complete messages. Messages are queued by `save` and leave
/// in the order they came, each as its four files. Nothing is handed out
/// before `start` has told the saver that the output folder is there.
#[derive(Debug)]
pub struct EmailSaver {
    path: String,
    state: SaverState,
    closed: bool,
    queue: Vec<Email>,
}

impl EmailSaver {
    /// The output folder.
    pub closed spec fn folder(&self) -> Seq<char> {
        self.path@
    }

    pub closed spec fn state(&self) -> SaverState {
        self.state
    }

    /// `close` has been called: no new message is taken.
    pub closed spec fn is_closed(&self) -> bool {
        self.closed
    }

    /// The messages waiting to be written, oldest first.
    pub closed spec fn queued(&self) -> Seq<EmailView> {
        self.queue@.map_values(|email: Email| email@)
    }

    /// New messages are taken: the saver has not been closed.
    pub open spec fn accepting(&self) -> bool {
        !self.is_closed()
    }

    /// A message is waiting and the saver, started before, hands it out.
    pub open spec fn hands_out(&self) -> bool {
        (self.state() == SaverState::Running || self.state() == SaverState::Draining)
            && self.queued().len() > 0
    }

    /// An idle saver for `output_folder_name`, open, with nothing queued.
    pub fn new(output_folder_name: &str) -> (saver: EmailSaver)
        ensures
            saver.folder() == output_folder_name@,
            saver.state() == SaverState::Idle,
            !saver.is_closed(),
            saver.queued() == Seq::<EmailView>::empty(),
    {
        let saver = EmailSaver {
            path: output_folder_name.to_owned(),
            state: SaverState::Idle,
            closed: false,
            queue: Vec::new(),
        };
        assert(saver.queued() =~= Seq::<EmailView>::empty());
        saver
    }

    /// The output folder, which must exist before the first file is written.
    pub fn output_folder(&self) -> (path: &str)
        ensures
            path@ == self.folder(),
    {
        self.path.as_str()
    }

    pub fn current_state(&self) -> (state: SaverState)
        ensures
            state == self.state(),
    {
        self.state
    }

    /// Whether `close` has been called.
    pub fn closed(&self) -> (closed: bool)
        ensures
            closed == self.is_closed(),
    {
        self.closed
    }

    /// How many messages wait to be written.
    pub fn pending(&self) -> (count: usize)
        ensures
            count == self.queued().len(),
    {
        self.queue.len()
    }

    /// The number of the oldest waiting message, if any waits.
    pub fn next_number(&self) -> (number: Option<u32>)
        ensures
            number.is_some() == (self.queued().len() > 0),
            number matches Some(n) ==> n == self.queued()[0].number,
    {
        if self.queue.len() > 0 {
            Some(self.queue[0].number)
        } else {
            None
        }
    }

    /// The output folder has been seen to: an idle saver starts running,
    /// or starts draining if it was closed while idle. In any other state
    /// nothing changes.
    pub fn start(&mut self)
        ensures
            final(self).folder() == old(self).folder(),
            final(self).queued() == old(self).queued(),
            final(self).is_closed() == old(self).is_closed(),
            final(self).state() == if old(self).state() != SaverState::Idle {
                old(self).state()
            } else if old(self).is_closed() {
                SaverState::Draining
            } else {
                SaverState::Running
            },
    {
        if self.state == SaverState::Idle {
            if self.closed {
                self.state = SaverState::Draining;
            } else {
                self.state = SaverState::Running;
            }
        }
    }

    /// Queues a complete message behind those already waiting and returns at
    /// once. A saver that has been closed takes nothing: the message is
    /// refused, and the answer is `false`.
    pub fn save(&mut self, email: Email) -> (accepted: bool)
        ensures
            accepted == old(self).accepting(),
            final(self).folder() == old(self).folder(),
            final(self).state() == old(self).state(),
            final(self).is_closed() == old(self).is_closed(),
            final(self).queued() == if accepted {
                old(self).queued().push(email@)
            } else {
                old(self).queued()
            },
    {
        if !self.closed {
            self.queue.push(email);
            assert(self.queued() =~= old(self).queued().push(email@));
            true
        } else {
            false
        }
    }

    /// Queues several complete messages, in their order, behind those
    /// already waiting. A saver that has been closed takes none of them.
    pub fn save_all(&mut self, emails: Vec<Email>) -> (accepted: bool)
        ensures
            accepted == old(self).accepting(),
            final(self).folder() == old(self).folder(),
            final(self).state() == old(self).state(),
            final(self).is_closed() == old(self).is_closed(),
            final(self).queued() == if accepted {
                old(self).queued() + emails@.map_values(|email: Email| email@)
            } else {
                old(self).queued()
            },
    {
        if !self.closed {
            let mut emails = emails;
            let ghost added = emails@.map_values(|email: Email| email@);
            self.queue.append(&mut emails);
            assert(self.queued() =~= old(self).queued() + added);
            true
        } else {
            false
        }
    }

    /// No more messages will come. A running saver goes on to drain its
    /// queue. An idle saver stays idle, with its queue untouched: it hands
    /// out nothing until `start` is called. Closing twice changes nothing.
    pub fn close(&mut self)
        ensures
            final(self).folder() == old(self).folder(),
            final(self).queued() == old(self).queued(),
            final(self).is_closed(),
            final(self).state() == if old(self).state() == SaverState::Running {
                SaverState::Draining
            } else {
                old(self).state()
            },
    {
        self.closed = true;
        if self.state == SaverState::Running {
            self.state = SaverState::Draining;
        }
    }

    /// The files of the oldest waiting message, which leaves the queue.
    /// With nothing waiting the answer is `None`, and a draining saver
    /// stops. A saver that was never started, or that has stopped, hands
    /// out nothing and keeps its queue.
    pub fn next_files(&mut self) -> (files: Option<Vec<OutputFile>>)
        ensures
            final(self).folder() == old(self).folder(),
            final(self).is_closed() == old(self).is_closed(),
            old(self).hands_out() ==> files.is_some() && files.unwrap()@.map_values(
                |file: OutputFile| file@,
            ) == files_of(old(self).folder(), old(self).queued()[0]) && final(self).queued() == old(
                self,
            ).queued().skip(1) && final(self).state() == old(self).state(),
            !old(self).hands_out() ==> files.is_none() && final(self).queued() == old(
                self,
            ).queued() && final(self).state() == if old(self).state() == SaverState::Draining {
                SaverState::Stopped
            } else {
                old(self).state()
            },
    {
        let working = self.state == SaverState::Running || self.state == SaverState::Draining;
        if working && self.queue.len() > 0 {
            let email = self.queue.remove(0);
            assert(self.queued() =~= old(self).queued().skip(1));
            let files = Self::save_to_file(&email, self.path.as_str());
            Some(files)
        } else {
            if self.state == SaverState::Draining {
                self.state = SaverState::Stopped;
            }
            None
        }
    }

    /// Closes the saver and, where it had been started, hands out the files
    /// of every waiting message, oldest message first, until nothing waits;
    /// the saver is then stopped. A saver that was never started is closed
    /// and hands out nothing: its queue stays as it is. So does the queue
    /// of a saver that had stopped before.
    pub fn drain(&mut self) -> (files: Vec<OutputFile>)
        ensures
            final(self).folder() == old(self).folder(),
            final(self).is_closed(),
            old(self).started() ==> files@.map_values(|file: OutputFile| file@) == all_files(
                old(self).folder(),
                old(self).queued(),
            ) && final(self).queued().len() == 0 && final(self).state() == SaverState::Stopped,
            !old(self).started() ==> files@.len() == 0 && final(self).queued() == old(
                self,
            ).queued() && final(self).state() == old(self).state(),
    {
        let mut files: Vec<OutputFile> = Vec::new();
        self.close();
        if self.state != SaverState::Draining {
            return files;
        }
        let ghost waiting = self.queued();
        let ghost mut written: int = 0;
        proof {
            assert(waiting.take(0) =~= Seq::<EmailView>::empty());
            assert(waiting.skip(0) =~= waiting);
            assert(files@.map_values(|file: OutputFile| file@) =~= all_files(
                self.folder(),
                waiting.take(0),
            ));
        }
        loop
            invariant
                self.folder() == old(self).folder(),
                self.state() == SaverState::Draining,
                self.is_closed(),
                old(self).started(),
                waiting == old(self).queued(),
                0 <= written <= waiting.len(),
                self.queued() == waiting.skip(written),
                files@.map_values(|file: OutputFile| file@) == all_files(
                    self.folder(),
                    waiting.take(written),
                ),
            decreases waiting.len() - written,
        {
            let ghost before = files@.map_values(|file: OutputFile| file@);
            match self.next_files() {
                Some(mut batch) => {
                    let ghost added = batch@.map_values(|file: OutputFile| file@);
                    files.append(&mut batch);
                    proof {
                        let upto = waiting.take(written + 1);
                        assert(upto.drop_last() =~= waiting.take(written));
                        assert(upto.last() == waiting[written]);
                        assert(waiting.skip(written)[0] == waiting[written]);
                        assert(files@.map_values(|file: OutputFile| file@) =~= before + added);
                        assert(waiting.skip(written).skip(1) =~= waiting.skip(written + 1));
                        written = written + 1;
                    }
                },
                None => {
                    proof {
                        assert(waiting.take(written) =~= waiting);
                    }
                    return files;
                },
            }
        }
    }

    /// The saver has been started and has not stopped yet.
    pub open spec fn started(&self) -> bool {
        self.state() == SaverState::Running || self.state() == SaverState::Draining
    }

    /// Lays a message out as its four files below `path`, in the order
    /// sender, recipient, subject, body.
    pub fn save_to_file(email: &Email, path: &str) -> (files: Vec<OutputFile>)
        ensures
            files@.map_values(|file: OutputFile| file@) == files_of(path@, email@),
    {
        let mut files: Vec<OutputFile> = Vec::new();
        files.push(
            OutputFile {
                path: file_path(path, email.number, Field::From),
                bytes: email.from.to_bytes(),
            },
        );
        files.push(
            OutputFile { path: file_path(path, email.number, Field::To), bytes: email.to.to_bytes() },
        );
        files.push(
            OutputFile {
                path: file_path(path, email.number, Field::Subject),
                bytes: email.subject.to_bytes(),
            },
        );
        files.push(
            OutputFile {
                path: file_path(path, email.number, Field::Body),
                bytes: email.body.to_bytes(),
            },
        );
        assert(files@.map_values(|file: OutputFile| file@) =~= files_of(path@, email@));
        files
    }
}

} // verus!
