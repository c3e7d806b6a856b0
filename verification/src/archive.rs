//! A whole run over a mailbox held in memory: which messages end up saved.

use vstd::prelude::*;
use crate::content::FileContent;
use crate::folder::numbers_after;
use crate::provider::{
    into_email, mentions, Action, Email, EmailError, EmailProvider, EmailView, Fetched, Field,
};
use crate::walk::{Step, Walk};
use crate::saver::{
    all_files, lemma_file_belongs_to_its_message, lemma_four_files_per_message,
    lemma_paths_are_distinct, path_of, EmailSaver, OutputFile,
};

verus! {

/// What a mailbox answers for one message: for each field the lines it
/// returns, or `None` where the fetch of that field fails.
#[derive(Debug)]
pub struct Stored {
    pub from: Option<FileContent>,
    pub to: Option<FileContent>,
    pub subject: Option<FileContent>,
    pub body: Option<FileContent>,
}

fn copy_of(content: &Option<FileContent>) -> (copy: Option<FileContent>)
    ensures
        copy.is_some() == content.is_some(),
        copy matches Some(c) ==> c@ == content.unwrap()@,
{
    match content {
        Some(lines) => Some(lines.duplicate()),
        None => None,
    }
}

/// The lines of an answer, if there is one.
pub open spec fn lines_of(answer: Option<FileContent>) -> Option<Seq<Seq<char>>> {
    match answer {
        Some(content) => Some(content@),
        None => None,
    }
}

impl Stored {
    /// The lines answered for `field`, if the fetch succeeds.
    pub open spec fn lines(&self, field: Field) -> Option<Seq<Seq<char>>> {
        match field {
            Field::From => lines_of(self.from),
            Field::To => lines_of(self.to),
            Field::Subject => lines_of(self.subject),
            Field::Body => lines_of(self.body),
        }
    }

    /// The message is saved: sender and recipient arrive and one of them
    /// mentions the marker, and subject and body arrive too.
    pub open spec fn kept(&self, marker: Seq<char>) -> bool {
        mentions(self.lines(Field::From), self.lines(Field::To), marker) && self.lines(
            Field::Subject,
        ).is_some() && self.lines(Field::Body).is_some()
    }

    /// The complete message under `number`, for a message whose four
    /// fields all arrive.
    pub open spec fn message(&self, number: u32) -> EmailView {
        EmailView {
            number,
            from: self.lines(Field::From).unwrap(),
            to: self.lines(Field::To).unwrap(),
            subject: self.lines(Field::Subject).unwrap(),
            body: self.lines(Field::Body).unwrap(),
        }
    }

    /// The answer to a fetch of `field`.
    pub fn answer(&self, field: Field) -> (answer: Option<FileContent>)
        ensures
            lines_of(answer) == self.lines(field),
    {
        match field {
            Field::From => copy_of(&self.from),
            Field::To => copy_of(&self.to),
            Field::Subject => copy_of(&self.subject),
            Field::Body => copy_of(&self.body),
        }
    }
}

/// The messages saved by a run over `mailbox` (message `n` at index
/// `n - 1`) that passes over the first `skip` messages: the kept ones among
/// the rest, in ascending order of their numbers.
pub open spec fn archived(mailbox: Seq<Stored>, skip: nat, marker: Seq<char>) -> Seq<EmailView>
    decreases mailbox.len(),
{
    if mailbox.len() <= skip {
        Seq::empty()
    } else {
        let earlier = archived(mailbox.drop_last(), skip, marker);
        if mailbox.last().kept(marker) {
            earlier.push(mailbox.last().message(mailbox.len() as u32))
        } else {
            earlier
        }
    }
}

/// A slot holds nothing yet, or what the mailbox answers for its field.
spec fn follows(slot: Fetched, answer: Option<Seq<Seq<char>>>) -> bool {
    match slot {
        Fetched::Pending => true,
        Fetched::Failed => answer.is_none(),
        Fetched::Done(content) => answer == Some(content@),
    }
}

/// The fields asked for so far, for a provider that is asked in the order
/// sender, recipient, subject, body.
spec fn asked(provider: EmailProvider) -> Seq<Field> {
    if provider.from is Pending {
        seq![]
    } else if provider.to is Pending {
        seq![Field::From]
    } else if provider.subject is Pending {
        seq![Field::From, Field::To]
    } else if provider.body is Pending {
        seq![Field::From, Field::To, Field::Subject]
    } else {
        seq![Field::From, Field::To, Field::Subject, Field::Body]
    }
}

/// No field has been asked for before the one that precedes it, none after
/// a failure, and subject and body only once the filter was passed.
spec fn asked_in_order(provider: EmailProvider, marker: Seq<char>) -> bool {
    &&& !(provider.from is Done) ==> provider.to is Pending
    &&& !(provider.to is Done) ==> provider.subject is Pending
    &&& provider.subject is Pending ==> provider.body is Pending
    &&& !(provider.subject is Pending) ==> provider.passes(marker)
}

/// How a message ended: the complete message where it is kept, the fetches
/// that were made for it, in the order they were made, and the error where
/// it was given up after a failed fetch.
#[derive(Debug)]
pub struct Settled {
    pub email: Option<Email>,
    pub fetched: Vec<Field>,
    pub error: Option<EmailError>,
}

impl Stored {
    /// The fetches that a run makes for this message: the sender, then the
    /// recipient unless the sender failed; subject and body, both of them,
    /// for a message that passes the filter and for no other.
    pub open spec fn fetches(&self, marker: Seq<char>) -> Seq<Field> {
        if self.lines(Field::From).is_none() {
            seq![Field::From]
        } else if !mentions(self.lines(Field::From), self.lines(Field::To), marker) {
            seq![Field::From, Field::To]
        } else {
            seq![Field::From, Field::To, Field::Subject, Field::Body]
        }
    }

    /// What the error of this message tells, where the message is given
    /// up: for each field that was asked for, whether it arrived; a field
    /// that was never asked for counts as not received.
    pub open spec fn failure(&self, number: u32, marker: Seq<char>) -> EmailError {
        let asked = self.fetches(marker);
        EmailError::FailedFetch {
            number,
            from: self.lines(Field::From).is_some(),
            to: asked.len() >= 2 && self.lines(Field::To).is_some(),
            subject: asked.len() == 4 && self.lines(Field::Subject).is_some(),
            body: asked.len() == 4 && self.lines(Field::Body).is_some(),
        }
    }

    /// The message is given up after a failed fetch; the filter did not
    /// leave it out.
    pub open spec fn dropped(&self, marker: Seq<char>) -> bool {
        ||| self.lines(Field::From).is_none()
        ||| self.lines(Field::To).is_none()
        ||| mentions(self.lines(Field::From), self.lines(Field::To), marker) && !self.kept(marker)
    }
}

/// Takes message `number` through its steps against the answers of the
/// mailbox, fetching only what each step asks for. The result holds the
/// complete message where it is kept, and no message where it is left out
/// by the filter or given up after a failed fetch.
pub fn settle(number: u32, stored: &Stored, marker: &str) -> (settled: Settled)
    ensures
        settled.email.is_some() == stored.kept(marker@),
        settled.email matches Some(e) ==> e@ == stored.message(number),
        settled.fetched@ == stored.fetches(marker@),
        settled.error.is_some() == stored.dropped(marker@),
        settled.error matches Some(error) ==> error == stored.failure(number, marker@),
{
    let mut provider = EmailProvider::new(number);
    let mut fetched: Vec<Field> = Vec::new();
    loop
        invariant
            provider.number == number,
            follows(provider.from, stored.lines(Field::From)),
            follows(provider.to, stored.lines(Field::To)),
            follows(provider.subject, stored.lines(Field::Subject)),
            follows(provider.body, stored.lines(Field::Body)),
            asked_in_order(provider, marker@),
            fetched@ == asked(provider),
        decreases 4 - asked(provider).len(),
    {
        match provider.next_action(marker) {
            Action::Fetch(field) => {
                let answer = stored.answer(field);
                provider.supply(field, answer);
                fetched.push(field);
                proof {
                    assert(fetched@ =~= asked(provider));
                }
            },
            Action::Exclude => {
                assert(fetched@ =~= stored.fetches(marker@));
                return Settled { email: None, fetched, error: None };
            },
            Action::Drop(error) => {
                assert(fetched@ =~= stored.fetches(marker@));
                return Settled { email: None, fetched, error: Some(error) };
            },
            Action::Save => {
                assert(fetched@ =~= stored.fetches(marker@));
                return Settled { email: into_email(provider), fetched, error: None };
            },
        }
    }
}

/// Runs over the whole mailbox, step by step: passes over the first `skip`
/// messages, answers each fetch that a step asks for from the mailbox, and
/// returns the messages that the steps give to save, in ascending order.
pub fn archive(mailbox: &Vec<Stored>, skip: usize, marker: &str) -> (emails: Vec<Email>)
    requires
        mailbox@.len() <= u32::MAX,
    ensures
        emails@.map_values(|email: Email| email@) == archived(mailbox@, skip as nat, marker@),
{
    let total: u32 = mailbox.len() as u32;
    let mut walk = Walk::new(total, skip, marker);
    let ghost mut done: int = if skip <= total { skip as int } else { total as int };
    let mut emails: Vec<Email> = Vec::new();
    proof {
        assert(walk.folder.remaining() =~= numbers_after(done, total as int));
        assert(emails@.map_values(|email: Email| email@) =~= archived(
            mailbox@.take(done),
            skip as nat,
            marker@,
        ));
    }
    loop
        invariant
            total == mailbox@.len(),
            walk.marker@ == marker@,
            0 <= done <= total,
            done >= skip || done == total,
            walk.folder.remaining() == numbers_after(done, total as int),
            walk.active ==> {
                &&& done > skip
                &&& walk.provider.number == done
                &&& follows(walk.provider.from, mailbox@[done - 1].lines(Field::From))
                &&& follows(walk.provider.to, mailbox@[done - 1].lines(Field::To))
                &&& follows(walk.provider.subject, mailbox@[done - 1].lines(Field::Subject))
                &&& follows(walk.provider.body, mailbox@[done - 1].lines(Field::Body))
                &&& asked_in_order(walk.provider, marker@)
            },
            emails@.map_values(|email: Email| email@) == archived(
                mailbox@.take(if walk.active { done - 1 } else { done }),
                skip as nat,
                marker@,
            ),
        decreases
            (total - done) * 6 + (if walk.active { 5 - asked(walk.provider).len() } else { 0 }),
    {
        let ghost before = walk;
        let ghost saved = emails@.map_values(|email: Email| email@);
        proof {
            if walk.active {
                let upto = mailbox@.take(done);
                assert(upto.drop_last() =~= mailbox@.take(done - 1));
                assert(upto.last() == mailbox@[done - 1]);
            }
        }
        match walk.step() {
            Step::Finished => {
                proof {
                    assert(mailbox@.take(done) =~= mailbox@);
                }
                return emails;
            },
            Step::Fetch { number, field } => {
                proof {
                    if !before.active {
                        assert(number == done + 1);
                        assert(walk.folder.remaining() =~= numbers_after(done + 1, total as int));
                        done = done + 1;
                    }
                }
                let answer = mailbox[(number - 1) as usize].answer(field);
                walk.supply(answer);
            },
            Step::Save(email) => {
                emails.push(email);
                assert(emails@.map_values(|email: Email| email@) =~= saved.push(email@));
            },
            Step::Dropped(_) => {},
            Step::Excluded { number: _ } => {},
        }
    }
}

/// A whole run, from mailbox to files: the kept messages beyond the first
/// `skip` pass through a saver for `output_folder` and come out as their
/// files, four for each message, in ascending order of the messages.
pub fn export(mailbox: &Vec<Stored>, skip: usize, marker: &str, output_folder: &str) -> (files:
    Vec<OutputFile>)
    requires
        mailbox@.len() <= u32::MAX,
    ensures
        files@.map_values(|file: OutputFile| file@) == all_files(
            output_folder@,
            archived(mailbox@, skip as nat, marker@),
        ),
        files@.len() == 4 * archived(mailbox@, skip as nat, marker@).len(),
{
    let emails = archive(mailbox, skip, marker);
    let mut saver = EmailSaver::new(output_folder);
    saver.start();
    saver.save_all(emails);
    let ghost saved = archived(mailbox@, skip as nat, marker@);
    proof {
        assert(saver.queued() =~= saved);
        lemma_four_files_per_message(output_folder@, saved);
    }
    let files = saver.drain();
    assert(files@.len() == files@.map_values(|file: OutputFile| file@).len());
    files
}

/// Every saved message has a number beyond the skipped ones and within the
/// folder, belongs to a kept message of the mailbox and is that message in
/// full; the numbers ascend, so none is saved twice.
pub proof fn lemma_saved_messages_are_the_kept_ones(
    mailbox: Seq<Stored>,
    skip: nat,
    marker: Seq<char>,
)
    requires
        mailbox.len() <= u32::MAX,
    ensures
        forall|i: int|
            0 <= i < archived(mailbox, skip, marker).len() ==> {
                let email = #[trigger] archived(mailbox, skip, marker)[i];
                &&& skip < email.number <= mailbox.len()
                &&& mailbox[email.number - 1].kept(marker)
                &&& email == mailbox[email.number - 1].message(email.number)
            },
        forall|i: int, j: int|
            0 <= i < j < archived(mailbox, skip, marker).len() ==> (#[trigger] archived(
                mailbox,
                skip,
                marker,
            )[i]).number < (#[trigger] archived(mailbox, skip, marker)[j]).number,
    decreases mailbox.len(),
{
    let saved = archived(mailbox, skip, marker);
    if mailbox.len() > skip {
        let front = mailbox.drop_last();
        let earlier = archived(front, skip, marker);
        lemma_saved_messages_are_the_kept_ones(front, skip, marker);
        assert forall|i: int| 0 <= i < saved.len() implies {
            let email = #[trigger] saved[i];
            &&& skip < email.number <= mailbox.len()
            &&& mailbox[email.number - 1].kept(marker)
            &&& email == mailbox[email.number - 1].message(email.number)
        } by {
            if i < earlier.len() {
                let email = earlier[i];
                assert(saved[i] == email);
                assert(front[email.number - 1] == mailbox[email.number - 1]);
            }
        }
        assert forall|i: int, j: int| 0 <= i < j < saved.len() implies (#[trigger] saved[i]).number
            < (#[trigger] saved[j]).number by {
            assert(saved[i] == earlier[i]);
            if j < earlier.len() {
                assert(saved[j] == earlier[j]);
            }
        }
    }
}

/// A message that is not kept (a fetch of one of its fields fails, or the
/// filter leaves it out) is nowhere among the saved ones, so no file bears
/// its number; a kept message beyond the skipped ones is saved.
pub proof fn lemma_saved_exactly_when_kept(
    mailbox: Seq<Stored>,
    skip: nat,
    marker: Seq<char>,
    number: u32,
)
    requires
        mailbox.len() <= u32::MAX,
        1 <= number <= mailbox.len(),
    ensures
        (exists|i: int|
            0 <= i < archived(mailbox, skip, marker).len() && (#[trigger] archived(
                mailbox,
                skip,
                marker,
            )[i]).number == number) <==> (number > skip && mailbox[number - 1].kept(marker)),
    decreases mailbox.len(),
{
    let saved = archived(mailbox, skip, marker);
    lemma_saved_messages_are_the_kept_ones(mailbox, skip, marker);
    if mailbox.len() > skip {
        let earlier = archived(mailbox.drop_last(), skip, marker);
        lemma_saved_messages_are_the_kept_ones(mailbox.drop_last(), skip, marker);
        if number == mailbox.len() {
            if mailbox.last().kept(marker) {
                assert(saved[saved.len() - 1].number == number);
            }
        } else {
            lemma_saved_exactly_when_kept(mailbox.drop_last(), skip, marker, number);
            if number > skip && mailbox[number - 1].kept(marker) {
                let i = choose|i: int|
                    0 <= i < earlier.len() && (#[trigger] earlier[i]).number == number;
                assert(saved[i].number == number);
            }
        }
    }
}

/// A failed fetch of the sender or of the recipient leaves the message
/// out, whatever its subject and body hold.
pub proof fn lemma_filter_fails_closed(stored: Stored, marker: Seq<char>)
    requires
        stored.lines(Field::From).is_none() || stored.lines(Field::To).is_none(),
    ensures
        !stored.kept(marker),
{
}

/// The files of a run are four for each saved message, and the saved
/// messages are no more than the folder holds beyond the skipped ones.
pub proof fn lemma_files_of_a_run(
    folder: Seq<char>,
    mailbox: Seq<Stored>,
    skip: nat,
    marker: Seq<char>,
)
    ensures
        all_files(folder, archived(mailbox, skip, marker)).len() == 4 * archived(
            mailbox,
            skip,
            marker,
        ).len(),
        archived(mailbox, skip, marker).len() <= if mailbox.len() >= skip {
            mailbox.len() - skip
        } else {
            0
        },
    decreases mailbox.len(),
{
    lemma_four_files_per_message(folder, archived(mailbox, skip, marker));
    if mailbox.len() > skip {
        lemma_files_of_a_run(folder, mailbox.drop_last(), skip, marker);
    }
}

/// No file of a run is written twice: any two of its files have different
/// paths.
pub proof fn lemma_no_file_is_written_twice(
    folder: Seq<char>,
    mailbox: Seq<Stored>,
    skip: nat,
    marker: Seq<char>,
    i: int,
    j: int,
)
    requires
        mailbox.len() <= u32::MAX,
        0 <= i < j < all_files(folder, archived(mailbox, skip, marker)).len(),
    ensures
        all_files(folder, archived(mailbox, skip, marker))[i].path != all_files(
            folder,
            archived(mailbox, skip, marker),
        )[j].path,
{
    let saved = archived(mailbox, skip, marker);
    let files = all_files(folder, saved);
    let order = seq![Field::From, Field::To, Field::Subject, Field::Body];
    lemma_four_files_per_message(folder, saved);
    lemma_file_belongs_to_its_message(folder, saved, i);
    lemma_file_belongs_to_its_message(folder, saved, j);
    lemma_saved_messages_are_the_kept_ones(mailbox, skip, marker);
    assert(files[i].path == path_of(folder, saved[i / 4].number, order[i % 4]));
    assert(files[j].path == path_of(folder, saved[j / 4].number, order[j % 4]));
    if files[i].path == files[j].path {
        lemma_paths_are_distinct(
            folder,
            saved[i / 4].number,
            order[i % 4],
            saved[j / 4].number,
            order[j % 4],
        );
        if i / 4 < j / 4 {
            assert(saved[i / 4].number < saved[j / 4].number);
        }
        assert(i % 4 == j % 4);
        assert(false);
    }
}

/// A message that is passed over, left out by the filter or given up after
/// a failed fetch has no file at all: no file of the run lies at any of
/// the four paths that belong to its number.
pub proof fn lemma_unsaved_message_has_no_file(
    folder: Seq<char>,
    mailbox: Seq<Stored>,
    skip: nat,
    marker: Seq<char>,
    number: u32,
    field: Field,
    k: int,
)
    requires
        mailbox.len() <= u32::MAX,
        1 <= number <= mailbox.len(),
        number <= skip || !mailbox[number - 1].kept(marker),
        0 <= k < all_files(folder, archived(mailbox, skip, marker)).len(),
    ensures
        all_files(folder, archived(mailbox, skip, marker))[k].path != path_of(
            folder,
            number,
            field,
        ),
{
    let saved = archived(mailbox, skip, marker);
    let files = all_files(folder, saved);
    let order = seq![Field::From, Field::To, Field::Subject, Field::Body];
    lemma_four_files_per_message(folder, saved);
    lemma_file_belongs_to_its_message(folder, saved, k);
    lemma_saved_messages_are_the_kept_ones(mailbox, skip, marker);
    let owner = saved[k / 4];
    assert(files[k].path == path_of(folder, owner.number, order[k % 4]));
    if files[k].path == path_of(folder, number, field) {
        lemma_paths_are_distinct(folder, owner.number, order[k % 4], number, field);
        assert(false);
    }
}

/// Two mailboxes answer alike: for every field the same lines, or a
/// failure in both.
pub open spec fn answers_alike(first: Stored, second: Stored) -> bool {
    forall|field: Field| first.lines(field) == second.lines(field)
}

/// A run depends on nothing but the marker, the number of messages passed
/// over and what the mailbox answers: where two mailboxes answer alike,
/// the same messages are saved, and their files agree byte for byte.
pub proof fn lemma_same_answers_same_files(
    folder: Seq<char>,
    first: Seq<Stored>,
    second: Seq<Stored>,
    skip: nat,
    marker: Seq<char>,
)
    requires
        first.len() == second.len(),
        forall|i: int| 0 <= i < first.len() ==> answers_alike(#[trigger] first[i], second[i]),
    ensures
        archived(first, skip, marker) == archived(second, skip, marker),
        all_files(folder, archived(first, skip, marker)) == all_files(
            folder,
            archived(second, skip, marker),
        ),
    decreases first.len(),
{
    if first.len() > skip {
        let a = first.last();
        let b = second.last();
        assert(answers_alike(first[first.len() - 1], second[first.len() - 1]));
        assert(a.lines(Field::From) == b.lines(Field::From));
        assert(a.lines(Field::To) == b.lines(Field::To));
        assert(a.lines(Field::Subject) == b.lines(Field::Subject));
        assert(a.lines(Field::Body) == b.lines(Field::Body));
        assert forall|i: int| 0 <= i < first.drop_last().len() implies answers_alike(
            #[trigger] first.drop_last()[i],
            second.drop_last()[i],
        ) by {
            assert(answers_alike(first[i], second[i]));
        }
        lemma_same_answers_same_files(folder, first.drop_last(), second.drop_last(), skip, marker);
    }
}

} // verus!
