//! What a mail says, and the mail itself as `lettre` builds it.

use vstd::prelude::*;
use vstd::string::*;
use lettre::message::header::ContentType;
use lettre::message::{Mailbox, MultiPart, SinglePart};
use lettre::Message;

verus! {

/// The subject of the mail that tests the connection.
pub const TEST_SUBJECT: &'static str = "Test de conexión";

/// The body of the mail that tests the connection.
pub const TEST_BODY: &'static str = "Este es un email de prueba para verificar la conexión SMTP.";

/// What is said of a sender that is no mailbox.
pub const INVALID_FROM: &'static str = "Email 'from' inválido";

/// What is said of a recipient that is no mailbox.
pub const INVALID_TO: &'static str = "Email 'to' inválido";

/// The subject and body of a mail, and whether the body is HTML.
#[derive(Debug)]
pub struct EmailContent {
    pub subject: String,
    pub body: String,
    pub is_html: bool,
}

impl EmailContent {
    /// A mail in plain text.
    pub fn plain(subject: &str, body: &str) -> (content: Self)
        ensures
            content.subject@ == subject@,
            content.body@ == body@,
            !content.is_html,
    {
        EmailContent { subject: subject.to_owned(), body: body.to_owned(), is_html: false }
    }

    /// A mail in HTML.
    pub fn html(subject: &str, html_body: &str) -> (content: Self)
        ensures
            content.subject@ == subject@,
            content.body@ == html_body@,
            content.is_html,
    {
        EmailContent { subject: subject.to_owned(), body: html_body.to_owned(), is_html: true }
    }

    /// The mail that tests the connection.
    pub fn connection_test() -> (content: Self)
        ensures
            content.subject@ == TEST_SUBJECT@,
            content.body@ == TEST_BODY@,
            !content.is_html,
    {
        EmailContent::plain(TEST_SUBJECT, TEST_BODY)
    }
}

/// Why a mail was not written.
#[derive(Debug)]
pub enum MailError {
    /// The sender is no mailbox.
    InvalidFrom,
    /// The recipient is no mailbox.
    InvalidTo,
    /// `lettre` refused to build the mail, for this reason.
    Refused(String),
}

impl MailError {
    /// The error in words.
    pub fn message(&self) -> (text: String)
        ensures
            text@ == match *self {
                MailError::InvalidFrom => INVALID_FROM@,
                MailError::InvalidTo => INVALID_TO@,
                MailError::Refused(reason) => reason@,
            },
    {
        match self {
            MailError::InvalidFrom => INVALID_FROM.to_owned(),
            MailError::InvalidTo => INVALID_TO.to_owned(),
            MailError::Refused(reason) => reason.clone(),
        }
    }
}

/// A mailbox as `lettre` holds it, of which the verifier sees nothing.
#[verifier::external_type_specification]
#[verifier::external_body]
pub struct ExMailbox(lettre::message::Mailbox);

/// A mail as `lettre` builds it, of which the verifier sees nothing.
#[verifier::external_type_specification]
#[verifier::external_body]
pub struct ExMessage(lettre::Message);

/// The refusal of `lettre` to build a mail, of which the verifier sees
/// nothing.
#[verifier::external_type_specification]
#[verifier::external_body]
pub struct ExBuildError(lettre::error::Error);

/// Whether `lettre` reads `text` as a mailbox: an address, or a name with an
/// address in angle brackets.
pub uninterp spec fn is_mailbox(text: Seq<char>) -> bool;

/// Has `lettre` read `text` as a mailbox, with `Mailbox::from_str`. Whether
/// it does depends on `text` alone. Nothing is claimed of the mailbox.
#[verifier::external_body]
fn read_mailbox(text: &str) -> (mailbox: Option<Mailbox>)
    ensures
        mailbox.is_some() == is_mailbox(text@),
{
    text.parse().ok()
}

/// Has `lettre` build a mail in plain text: `Message::builder`, then `from`,
/// `to`, `subject` and `body`. The mail holds the date of the moment, so
/// nothing is claimed of it, nor of when `lettre` refuses.
#[verifier::external_body]
fn build_plain(from: Mailbox, to: Mailbox, subject: &str, body: String) -> Result<
    Message,
    lettre::error::Error,
> {
    Message::builder().from(from).to(to).subject(subject).body(body)
}

/// Has `lettre` build a mail with one HTML part among alternatives:
/// `Message::builder`, then `from`, `to`, `subject` and `multipart`. The mail
/// holds the date of the moment and a boundary drawn at random, so nothing
/// is claimed of it, nor of when `lettre` refuses.
#[verifier::external_body]
fn build_html(from: Mailbox, to: Mailbox, subject: &str, body: String) -> Result<
    Message,
    lettre::error::Error,
> {
    let page = SinglePart::builder().header(ContentType::TEXT_HTML).body(body);
    Message::builder().from(from).to(to).subject(subject).multipart(
        MultiPart::alternative().singlepart(page),
    )
}

/// What `lettre` says of its refusal, by `to_string`. Nothing is claimed of
/// the text.
#[verifier::external_body]
fn refusal_text(refusal: &lettre::error::Error) -> String {
    refusal.to_string()
}

/// The mail that `lettre` built, or its refusal as an error of this library.
pub fn built(outcome: Result<Message, lettre::error::Error>) -> (result: Result<
    Message,
    MailError,
>)
    ensures
        match outcome {
            Ok(mail) => result == Ok::<Message, MailError>(mail),
            Err(_) => result matches Err(MailError::Refused(_)),
        },
{
    match outcome {
        Ok(mail) => Ok(mail),
        Err(refusal) => Err(MailError::Refused(refusal_text(&refusal))),
    }
}

/// Writes the mail from `from` to `recipient` that says `content`. The
/// sender is read first, then the recipient: the first of the two that is
/// no mailbox is the error. With both read, `lettre` builds the mail, in
/// plain text or in HTML as `content` says, and may refuse.
pub fn compose(from: &str, recipient: &str, content: &EmailContent) -> (result: Result<
    Message,
    MailError,
>)
    ensures
        !is_mailbox(from@) ==> result matches Err(MailError::InvalidFrom),
        is_mailbox(from@) && !is_mailbox(recipient@) ==> result matches Err(MailError::InvalidTo),
        is_mailbox(from@) && is_mailbox(recipient@) ==> result is Ok || result matches Err(
            MailError::Refused(_),
        ),
{
    let sender = match read_mailbox(from) {
        Some(mailbox) => mailbox,
        None => {
            return Err(MailError::InvalidFrom);
        },
    };
    let receiver = match read_mailbox(recipient) {
        Some(mailbox) => mailbox,
        None => {
            return Err(MailError::InvalidTo);
        },
    };
    let subject = content.subject.as_str();
    let body = content.body.clone();
    if content.is_html {
        built(build_html(sender, receiver, subject, body))
    } else {
        built(build_plain(sender, receiver, subject, body))
    }
}

} // verus!
