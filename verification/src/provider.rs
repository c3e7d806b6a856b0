//! One message of the folder: which of its fields have been fetched, what
//! to do next about it, and the complete message once every field is there.

use vstd::prelude::*;
use vstd::string::*;
use crate::content::{is_substring, joined, FileContent};
use crate::saver::{decimal, number_text};

verus! {

/// The four parts of a message that are fetched and saved.
#[derive(Clone, Copy, Debug, PartialEq, Eq, Structural)]
pub enum Field {
    From,
    To,
    Subject,
    Body,
}

impl Field {
    /// The query that asks the server for this field.
    pub open spec fn query_text(self) -> Seq<char> {
        match self {
            Field::From => "BODY.PEEK[HEADER.FIELDS (FROM)]"@,
            Field::To => "BODY.PEEK[HEADER.FIELDS (TO)]"@,
            Field::Subject => "BODY.PEEK[HEADER.FIELDS (SUBJECT)]"@,
            Field::Body => "body[text]"@,
        }
    }

    /// The word that stands for this field in file names.
    pub open spec fn label_text(self) -> Seq<char> {
        match self {
            Field::From => "from"@,
            Field::To => "to"@,
            Field::Subject => "subject"@,
            Field::Body => "body"@,
        }
    }

    pub fn query(self) -> (query: &'static str)
        ensures
            query@ == self.query_text(),
    {
        match self {
            Field::From => "BODY.PEEK[HEADER.FIELDS (FROM)]",
            Field::To => "BODY.PEEK[HEADER.FIELDS (TO)]",
            Field::Subject => "BODY.PEEK[HEADER.FIELDS (SUBJECT)]",
            Field::Body => "body[text]",
        }
    }

    pub fn label(self) -> (label: &'static str)
        ensures
            label@ == self.label_text(),
    {
        match self {
            Field::From => "from",
            Field::To => "to",
            Field::Subject => "subject",
            Field::Body => "body",
        }
    }
}

/// The command that asks the server for `field` of message `number`:
/// the word `FETCH`, the number in decimal and the field's query, with one
/// space between them.
pub open spec fn command_text(number: u32, field: Field) -> Seq<char> {
    "FETCH "@ + decimal(number as nat) + " "@ + field.query_text()
}

/// The command for one fetch of one field of one message.
pub fn fetch_command(number: u32, field: Field) -> (command: String)
    ensures
        command@ == command_text(number, field),
{
    let digits = number_text(number);
    "FETCH ".to_owned().concat(digits.as_str()).concat(" ").concat(field.query())
}

/// Why a message could not be completed.
#[derive(Clone, Copy, Debug, PartialEq, Eq, Structural)]
pub enum EmailError {
    /// Message `number` is incomplete. Each of the four flags tells whether
    /// that field was received.
    FailedFetch { number: u32, from: bool, to: bool, subject: bool, body: bool },
}

impl EmailError {
    /// The error names `field` as received.
    pub open spec fn received(self, field: Field) -> bool {
        match field {
            Field::From => self->from,
            Field::To => self->to,
            Field::Subject => self->subject,
            Field::Body => self->body,
        }
    }

    /// Whether `field` was received.
    pub fn has(&self, field: Field) -> (received: bool)
        ensures
            received == self.received(field),
    {
        match self {
            EmailError::FailedFetch { number: _, from, to, subject, body } => match field {
                Field::From => *from,
                Field::To => *to,
                Field::Subject => *subject,
                Field::Body => *body,
            },
        }
    }
}

/// What is known of one field of one message.
#[derive(Debug)]
pub enum Fetched {
    /// Not asked for yet.
    Pending,
    /// Asked for, and the fetch failed.
    Failed,
    /// Asked for and received.
    Done(FileContent),
}

impl Fetched {
    /// The lines received, if any were.
    pub open spec fn lines(&self) -> Option<Seq<Seq<char>>> {
        match self {
            Fetched::Done(content) => Some(content@),
            _ => None,
        }
    }

    /// Whether the lines were received.
    pub fn arrived(&self) -> (done: bool)
        ensures
            done == (self is Done),
    {
        match self {
            Fetched::Done(_) => true,
            _ => false,
        }
    }

    /// The slot after a fetch has answered: `Done` with the lines on
    /// success, `Failed` otherwise.
    pub fn record(answer: Option<FileContent>) -> (slot: Fetched)
        ensures
            answer matches Some(content) ==> slot == Fetched::Done(content),
            answer.is_none() ==> slot == Fetched::Failed,
    {
        match answer {
            Some(content) => Fetched::Done(content),
            None => Fetched::Failed,
        }
    }
}

/// A message with all four fields fetched.
#[derive(Debug)]
pub struct Email {
    pub number: u32,
    pub from: FileContent,
    pub to: FileContent,
    pub subject: FileContent,
    pub body: FileContent,
}

/// A complete message as plain values.
pub struct EmailView {
    pub number: u32,
    pub from: Seq<Seq<char>>,
    pub to: Seq<Seq<char>>,
    pub subject: Seq<Seq<char>>,
    pub body: Seq<Seq<char>>,
}

impl View for Email {
    type V = EmailView;

    open spec fn view(&self) -> EmailView {
        EmailView {
            number: self.number,
            from: self.from@,
            to: self.to@,
            subject: self.subject@,
            body: self.body@,
        }
    }
}

/// What the caller is to do next about a message.
#[derive(Clone, Copy, Debug, PartialEq, Eq, Structural)]
pub enum Action {
    /// Fetch this field and hand the answer to `supply`.
    Fetch(Field),
    /// Sender and recipient are known and neither mentions the marker:
    /// leave the message out, fetching nothing more.
    Exclude,
    /// A fetch failed: give the message up. The error tells which fields
    /// were received.
    Drop(EmailError),
    /// Every field is there: the message is complete and is to be saved.
    Save,
}

/// The sender or the recipient, both fetched, mentions the marker.
pub open spec fn mentions(
    from: Option<Seq<Seq<char>>>,
    to: Option<Seq<Seq<char>>>,
    marker: Seq<char>,
) -> bool {
    from.is_some() && to.is_some() && (is_substring(joined(from.unwrap()), marker) || is_substring(
        joined(to.unwrap()),
        marker,
    ))
}

/// One message of the folder, known by its number, with what has been
/// fetched of it so far. Fields are fetched on demand and one at a time.
#[derive(Debug)]
pub struct EmailProvider {
    pub number: u32,
    pub from: Fetched,
    pub to: Fetched,
    pub subject: Fetched,
    pub body: Fetched,
}

impl EmailProvider {
    /// What is known of `field`.
    pub open spec fn slot(&self, field: Field) -> Fetched {
        match field {
            Field::From => self.from,
            Field::To => self.to,
            Field::Subject => self.subject,
            Field::Body => self.body,
        }
    }

    /// The message passes the filter.
    pub open spec fn passes(&self, marker: Seq<char>) -> bool {
        mentions(self.from.lines(), self.to.lines(), marker)
    }

    /// All four fields have been received.
    pub open spec fn complete(&self) -> bool {
        self.from is Done && self.to is Done && self.subject is Done && self.body is Done
    }

    /// The error of an incomplete message: its number and, for each of the
    /// four fields, whether it was received.
    pub open spec fn failure(&self) -> EmailError {
        EmailError::FailedFetch {
            number: self.number,
            from: self.from is Done,
            to: self.to is Done,
            subject: self.subject is Done,
            body: self.body is Done,
        }
    }

    /// The next step. Sender, then recipient, then the filter: a failed
    /// fetch of either ends the message at once, and a message that the
    /// filter leaves out gets no fetch of subject or body. A message that
    /// passes has both subject and body asked for, and is given up only
    /// then if either failed.
    pub open spec fn plan(&self, marker: Seq<char>) -> Action {
        if self.from is Pending {
            Action::Fetch(Field::From)
        } else if self.from is Failed {
            Action::Drop(self.failure())
        } else if self.to is Pending {
            Action::Fetch(Field::To)
        } else if self.to is Failed {
            Action::Drop(self.failure())
        } else if !self.passes(marker) {
            Action::Exclude
        } else if self.subject is Pending {
            Action::Fetch(Field::Subject)
        } else if self.body is Pending {
            Action::Fetch(Field::Body)
        } else if self.subject is Failed || self.body is Failed {
            Action::Drop(self.failure())
        } else {
            Action::Save
        }
    }

    /// Message `email_number`, with nothing fetched yet.
    pub fn new(email_number: u32) -> (provider: EmailProvider)
        ensures
            provider.number == email_number,
            provider.from is Pending,
            provider.to is Pending,
            provider.subject is Pending,
            provider.body is Pending,
    {
        EmailProvider {
            number: email_number,
            from: Fetched::Pending,
            to: Fetched::Pending,
            subject: Fetched::Pending,
            body: Fetched::Pending,
        }
    }

    /// Records the answer to a fetch of `field`: the lines received, or
    /// `None` where the fetch failed. An earlier answer for the same field
    /// is replaced; the other fields and the number stay as they are.
    pub fn supply(&mut self, field: Field, answer: Option<FileContent>)
        ensures
            final(self).number == old(self).number,
            answer matches Some(content) ==> final(self).slot(field) == Fetched::Done(content),
            answer.is_none() ==> final(self).slot(field) == Fetched::Failed,
            field != Field::From ==> final(self).from == old(self).from,
            field != Field::To ==> final(self).to == old(self).to,
            field != Field::Subject ==> final(self).subject == old(self).subject,
            field != Field::Body ==> final(self).body == old(self).body,
    {
        let slot = Fetched::record(answer);
        match field {
            Field::From => {
                self.from = slot;
            },
            Field::To => {
                self.to = slot;
            },
            Field::Subject => {
                self.subject = slot;
            },
            Field::Body => {
                self.body = slot;
            },
        }
    }

    /// The state of the four fields, as the error of an incomplete message
    /// gives it.
    pub fn report(&self) -> (error: EmailError)
        ensures
            error == self.failure(),
    {
        EmailError::FailedFetch {
            number: self.number,
            from: self.from.arrived(),
            to: self.to.arrived(),
            subject: self.subject.arrived(),
            body: self.body.arrived(),
        }
    }

    /// What to do next about this message, given the marker of the filter.
    pub fn next_action(&self, marker: &str) -> (action: Action)
        ensures
            action == self.plan(marker@),
    {
        match &self.from {
            Fetched::Pending => {
                return Action::Fetch(Field::From);
            },
            Fetched::Failed => {
                return Action::Drop(self.report());
            },
            Fetched::Done(_) => {},
        }
        match &self.to {
            Fetched::Pending => {
                return Action::Fetch(Field::To);
            },
            Fetched::Failed => {
                return Action::Drop(self.report());
            },
            Fetched::Done(_) => {},
        }
        if !from_or_to_ukeep(self, marker) {
            return Action::Exclude;
        }
        match (&self.subject, &self.body) {
            (Fetched::Pending, _) => Action::Fetch(Field::Subject),
            (_, Fetched::Pending) => Action::Fetch(Field::Body),
            (Fetched::Done(_), Fetched::Done(_)) => Action::Save,
            _ => Action::Drop(self.report()),
        }
    }

    /// The complete message where all four fields were received; otherwise
    /// the error that tells, for each field, whether it was.
    pub fn email(self) -> (outcome: Result<Email, EmailError>)
        ensures
            outcome.is_ok() <==> self.complete(),
            outcome matches Ok(email) ==> email.number == self.number && Some(email.from@)
                == self.from.lines() && Some(email.to@) == self.to.lines() && Some(email.subject@)
                == self.subject.lines() && Some(email.body@) == self.body.lines(),
            outcome matches Err(error) ==> error == self.failure() && error->number == self.number
                && forall|field: Field| error.received(field) == (self.slot(field) is Done),
    {
        let error = self.report();
        proof {
            assert forall|field: Field| error.received(field) == (self.slot(field) is Done) by {
                match field {
                    Field::From => {},
                    Field::To => {},
                    Field::Subject => {},
                    Field::Body => {},
                }
            }
        }
        match (self.from, self.to, self.subject, self.body) {
            (
                Fetched::Done(from),
                Fetched::Done(to),
                Fetched::Done(subject),
                Fetched::Done(body),
            ) => Ok(Email { number: self.number, from, to, subject, body }),
            _ => Err(error),
        }
    }
}

/// The filter: true exactly when sender and recipient have both been
/// received and the text of either holds `marker`. A field that failed, or
/// that was never fetched, never lets a message through.
pub fn from_or_to_ukeep(email_provider: &EmailProvider, marker: &str) -> (keep: bool)
    ensures
        keep == email_provider.passes(marker@),
        !(email_provider.from is Done) || !(email_provider.to is Done) ==> !keep,
{
    match (&email_provider.to, &email_provider.from) {
        (Fetched::Done(to), Fetched::Done(from)) => to.contains(marker) || from.contains(marker),
        _ => false,
    }
}

/// The complete message of a provider whose four fields were all received;
/// `None`, with nothing kept, where any of them is missing.
pub fn into_email(email_provider: EmailProvider) -> (email: Option<Email>)
    ensures
        email.is_some() <==> email_provider.complete(),
        email matches Some(e) ==> e.number == email_provider.number && Some(e.from@)
            == email_provider.from.lines() && Some(e.to@) == email_provider.to.lines() && Some(
            e.subject@,
        ) == email_provider.subject.lines() && Some(e.body@) == email_provider.body.lines(),
{
    match email_provider.email() {
        Ok(email) => Some(email),
        Err(_) => None,
    }
}

} // verus!
