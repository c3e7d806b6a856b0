//! A run over a folder as a sequence of steps: the caller fetches what a
//! step asks for and hands the answer back; the walk decides the rest.

use vstd::prelude::*;
use crate::content::FileContent;
use crate::folder::{lemma_skip_leaves_the_tail, numbers_after, EmailFolderIterator};
use crate::provider::{Action, Email, EmailError, EmailProvider, Fetched, Field};

verus! {

/// What the caller is to do next.
#[derive(Debug)]
pub enum Step {
    /// Fetch `field` of message `number` and hand the answer to `supply`.
    Fetch { number: u32, field: Field },
    /// A message is complete: save it.
    Save(Email),
    /// A message was given up after a failed fetch.
    Dropped(EmailError),
    /// The filter left message `number` out.
    Excluded { number: u32 },
    /// Every message has been dealt with.
    Finished,
}

/// A run over the messages of a folder, one message at a time and in
/// ascending order of their numbers.
#[derive(Debug)]
pub struct Walk {
    pub folder: EmailFolderIterator,
    pub marker: String,
    /// The message being dealt with, where `active` holds.
    pub provider: EmailProvider,
    pub active: bool,
}

impl Walk {
    /// A run over a folder of `total_messages` that passes over the first
    /// `skip` of them and keeps what mentions `marker`.
    pub fn new(total_messages: u32, skip: usize, marker: &str) -> (walk: Walk)
        ensures
            walk.marker@ == marker@,
            !walk.active,
            walk.folder.total() == total_messages,
            skip <= total_messages ==> walk.folder.remaining() == numbers_after(
                skip as int,
                total_messages as int,
            ),
            skip > total_messages ==> walk.folder.remaining().len() == 0,
    {
        let mut folder = EmailFolderIterator::new(total_messages);
        folder.skip(skip);
        proof {
            lemma_skip_leaves_the_tail(total_messages, skip as nat);
        }
        Walk { folder, marker: marker.to_owned(), provider: EmailProvider::new(0), active: false }
    }

    /// The next step. With no message in hand the walk takes the next
    /// number of the folder and asks for its sender, or finishes where no
    /// number is left. With a message in hand it follows that message's
    /// plan: a fetch leaves the walk as it is, until the answer is
    /// supplied; any other outcome ends the message.
    pub fn step(&mut self) -> (step: Step)
        ensures
            final(self).marker == old(self).marker,
            final(self).folder.total() == old(self).folder.total(),
            !old(self).active && old(self).folder.remaining().len() == 0 ==> step is Finished
                && !final(self).active && final(self).folder.remaining() == old(
                self,
            ).folder.remaining(),
            !old(self).active && old(self).folder.remaining().len() > 0 ==> {
                &&& step is Fetch
                &&& step->Fetch_number == old(self).folder.remaining()[0]
                &&& step->Fetch_field == Field::From
                &&& final(self).active
                &&& final(self).provider.number == old(self).folder.remaining()[0]
                &&& final(self).provider.from is Pending
                &&& final(self).provider.to is Pending
                &&& final(self).provider.subject is Pending
                &&& final(self).provider.body is Pending
                &&& final(self).folder.remaining() == old(self).folder.remaining().skip(1)
            },
            old(self).active ==> final(self).folder.remaining() == old(self).folder.remaining(),
            old(self).active ==> match old(self).provider.plan(old(self).marker@) {
                Action::Fetch(field) => {
                    &&& step is Fetch
                    &&& step->Fetch_number == old(self).provider.number
                    &&& step->Fetch_field == field
                    &&& final(self).active
                    &&& final(self).provider == old(self).provider
                },
                Action::Exclude => {
                    &&& step is Excluded
                    &&& step->Excluded_number == old(self).provider.number
                    &&& !final(self).active
                },
                Action::Drop(error) => {
                    &&& step is Dropped
                    &&& step->Dropped_0 == error
                    &&& !final(self).active
                },
                Action::Save => {
                    &&& step is Save
                    &&& step->Save_0.number == old(self).provider.number
                    &&& Some(step->Save_0.from@) == old(self).provider.from.lines()
                    &&& Some(step->Save_0.to@) == old(self).provider.to.lines()
                    &&& Some(step->Save_0.subject@) == old(self).provider.subject.lines()
                    &&& Some(step->Save_0.body@) == old(self).provider.body.lines()
                    &&& !final(self).active
                },
            },
    {
        if !self.active {
            match self.folder.next() {
                None => Step::Finished,
                Some(number) => {
                    self.provider = EmailProvider::new(number);
                    self.active = true;
                    Step::Fetch { number, field: Field::From }
                },
            }
        } else {
            match self.provider.next_action(self.marker.as_str()) {
                Action::Fetch(field) => Step::Fetch { number: self.provider.number, field },
                Action::Exclude => {
                    self.active = false;
                    Step::Excluded { number: self.provider.number }
                },
                Action::Drop(error) => {
                    self.active = false;
                    Step::Dropped(error)
                },
                Action::Save => {
                    self.active = false;
                    let mut taken = EmailProvider::new(0);
                    core::mem::swap(&mut self.provider, &mut taken);
                    match taken.email() {
                        Ok(email) => Step::Save(email),
                        Err(error) => Step::Dropped(error),
                    }
                },
            }
        }
    }

    /// Records the answer to the fetch that the last step asked for: the
    /// lines received, or `None` where the fetch failed. Where no fetch is
    /// asked for, the answer is discarded and nothing changes.
    pub fn supply(&mut self, answer: Option<FileContent>)
        ensures
            final(self).marker == old(self).marker,
            final(self).folder == old(self).folder,
            final(self).active == old(self).active,
            final(self).provider.number == old(self).provider.number,
            old(self).active && old(self).provider.plan(old(self).marker@) is Fetch ==> {
                let field = old(self).provider.plan(old(self).marker@)->Fetch_0;
                &&& answer.is_some() ==> final(self).provider.slot(field) == Fetched::Done(
                    answer.unwrap(),
                )
                &&& answer.is_none() ==> final(self).provider.slot(field) == Fetched::Failed
                &&& field != Field::From ==> final(self).provider.from == old(self).provider.from
                &&& field != Field::To ==> final(self).provider.to == old(self).provider.to
                &&& field != Field::Subject ==> final(self).provider.subject == old(
                    self,
                ).provider.subject
                &&& field != Field::Body ==> final(self).provider.body == old(self).provider.body
            },
            !(old(self).active && old(self).provider.plan(old(self).marker@) is Fetch)
                ==> final(self).provider == old(self).provider,
    {
        if self.active {
            match self.provider.next_action(self.marker.as_str()) {
                Action::Fetch(field) => {
                    self.provider.supply(field, answer);
                },
                _ => {},
            }
        }
    }
}

} // verus!
