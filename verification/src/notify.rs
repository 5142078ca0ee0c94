//! Telling people about changes.
use crate::bindings::{self, compose_mail, parse_mailbox, YEAR_TEN_THOUSAND};
use crate::config::{MailConfig, MailView, SmtpSecurity, SmtpView};
use crate::text::{has_char, same_text};
use vstd::prelude::*;
use vstd::string::*;

verus! {

/// The first second of the year ten thousand; a mail's date lies before it.
pub const DATE_LIMIT: u64 = YEAR_TEN_THOUSAND;

/// A mailbox: the name of its owner, where one is given, and its address.
pub type MailboxView = (Option<Seq<char>>, Seq<char>);

/// A mail that is ready to be sent.
#[derive(Debug)]
pub struct Mail {
    /// The sender on the envelope.
    pub sender: Option<String>,
    /// The recipients on the envelope.
    pub recipients: Vec<String>,
    /// The mail itself.
    pub content: Vec<u8>,
}

/// What a [`Mail`] holds.
#[verifier::ext_equal]
pub struct MailContents {
    pub sender: Option<Seq<char>>,
    pub recipients: Seq<Seq<char>>,
    pub content: Seq<u8>,
}

impl DeepView for Mail {
    type V = MailContents;

    open spec fn deep_view(&self) -> MailContents {
        MailContents {
            sender: self.sender.deep_view(),
            recipients: self.recipients.deep_view(),
            content: self.content.deep_view(),
        }
    }
}

/// Why no mail can be sent.
#[derive(Debug, Clone, Copy, PartialEq, Eq, Structural)]
pub enum NotifyError {
    NoHost,
    NoSender,
    InvalidSender,
    InvalidRecipient,
    NoRecipients,
    InvalidMail,
}

/// What an error says.
pub open spec fn error_text(error: NotifyError) -> Seq<char> {
    match error {
        NotifyError::NoHost => "smtp host is required when mail is enabled"@,
        NotifyError::NoSender => "smtp from is required when mail is enabled"@,
        NotifyError::InvalidSender => "failed to parse smtp from address"@,
        NotifyError::InvalidRecipient => "failed to parse smtp recipient"@,
        NotifyError::NoRecipients => "at least one smtp recipient is required"@,
        NotifyError::InvalidMail => "failed to build mail message"@,
    }
}

impl NotifyError {
    /// The message of the error.
    pub fn message(self) -> (text: &'static str)
        ensures
            text@ == error_text(self),
    {
        match self {
            NotifyError::NoHost => "smtp host is required when mail is enabled",
            NotifyError::NoSender => "smtp from is required when mail is enabled",
            NotifyError::InvalidSender => "failed to parse smtp from address",
            NotifyError::InvalidRecipient => "failed to parse smtp recipient",
            NotifyError::NoRecipients => "at least one smtp recipient is required",
            NotifyError::InvalidMail => "failed to build mail message",
        }
    }
}

/// A way of telling people about changes: it makes the mail that is to be sent.
pub trait Notifier {
    /// The mail that tells of a change; `None` where nobody is told.
    spec fn outgoing(&self, subject: Seq<char>, body: Seq<char>, seconds: u64) -> Result<
        Option<MailContents>,
        NotifyError,
    >;

    /// Makes the mail that tells of a change. `seconds` is the moment of its date,
    /// counted from the start of 1970.
    fn notify_update(&self, subject: &str, body: &str, seconds: u64) -> (mail: Result<
        Option<Mail>,
        NotifyError,
    >)
        requires
            seconds < DATE_LIMIT,
        ensures
            match (mail, self.outgoing(subject@, body@, seconds)) {
                (Ok(mail), Ok(expected)) => mail.deep_view() == expected,
                (Err(e), Err(expected)) => e == expected,
                _ => false,
            },
    ;
}

/// Tells people by mail.
#[derive(Debug)]
pub struct MailNotifier {
    /// The mail server.
    pub host: String,
    pub port: u16,
    pub security: SmtpSecurity,
    /// The user name and the password, where both are known.
    pub credentials: Option<(String, String)>,
    pub from: (Option<String>, String),
    pub to: Vec<(Option<String>, String)>,
}

/// What a [`MailNotifier`] holds.
#[verifier::ext_equal]
pub struct NotifierView {
    pub host: Seq<char>,
    pub port: u16,
    pub security: SmtpSecurity,
    pub credentials: Option<(Seq<char>, Seq<char>)>,
    pub from: MailboxView,
    pub to: Seq<MailboxView>,
}

impl DeepView for MailNotifier {
    type V = NotifierView;

    open spec fn deep_view(&self) -> NotifierView {
        NotifierView {
            host: self.host@,
            port: self.port,
            security: self.security,
            credentials: self.credentials.deep_view(),
            from: self.from.deep_view(),
            to: self.to.deep_view(),
        }
    }
}

/// Tells nobody.
#[derive(Debug)]
pub struct NoopNotifier;

/// The mailboxes that the texts denote; `None` where one of them denotes none.
pub open spec fn mailboxes_of(found: Seq<Option<MailboxView>>) -> Option<Seq<MailboxView>> {
    if exists|i: int| 0 <= i < found.len() && (#[trigger] found[i]) is None {
        None
    } else {
        Some(found.map_values(|mailbox: Option<MailboxView>| mailbox.unwrap()))
    }
}

/// The notifier for the settings, given the mailboxes that its addresses denote.
pub open spec fn notifier_for(
    smtp: SmtpView,
    from: Option<MailboxView>,
    to: Seq<Option<MailboxView>>,
) -> Result<NotifierView, NotifyError> {
    if smtp.host.len() == 0 {
        Err(NotifyError::NoHost)
    } else if smtp.from is None {
        Err(NotifyError::NoSender)
    } else {
        match from {
            None => Err(NotifyError::InvalidSender),
            Some(from) => match mailboxes_of(to) {
                None => Err(NotifyError::InvalidRecipient),
                Some(to) => if to.len() == 0 {
                    Err(NotifyError::NoRecipients)
                } else {
                    Ok(
                        NotifierView {
                            host: smtp.host,
                            port: smtp.port,
                            security: smtp.security,
                            credentials: match (smtp.username, smtp.password) {
                                (Some(username), Some(password)) => Some((username, password)),
                                _ => None,
                            },
                            from,
                            to,
                        },
                    )
                },
            },
        }
    }
}

/// The notifier for the settings.
pub open spec fn notifier_of(mail: MailView) -> Result<NotifierView, NotifyError> {
    notifier_for(
        mail.smtp,
        match mail.smtp.from {
            Some(from) => bindings::mailbox_found(from),
            None => None,
        },
        mail.smtp.to.map_values(|text: Seq<char>| bindings::mailbox_found(text)),
    )
}

/// Whether every mailbox's name stands on one line.
pub open spec fn names_one_line(mailboxes: Seq<MailboxView>) -> bool {
    forall|i: int| 0 <= i < mailboxes.len() ==> bindings::one_line((#[trigger] mailboxes[i]).0)
}

/// Whether the names of the sender and of the recipients can be written.
pub open spec fn writable(notifier: NotifierView) -> bool {
    bindings::one_line(notifier.from.0) && names_one_line(notifier.to)
}

/// The mail of a notifier, from its sender to all of its recipients. A name with
/// a line break makes no mail.
pub open spec fn mail_of(
    notifier: NotifierView,
    subject: Seq<char>,
    body: Seq<char>,
    seconds: u64,
) -> Result<MailContents, NotifyError> {
    if writable(notifier) {
        mail_made(bindings::mail_composed(notifier.from, notifier.to, subject, body, seconds))
    } else {
        Err(NotifyError::InvalidMail)
    }
}

/// The mail of the parts that were made for it.
pub open spec fn mail_made(
    parts: Option<(Option<Seq<char>>, Seq<Seq<char>>, Seq<u8>)>,
) -> Result<MailContents, NotifyError> {
    match parts {
        Some((sender, recipients, content)) => Ok(MailContents { sender, recipients, content }),
        None => Err(NotifyError::InvalidMail),
    }
}

/// The mail of the parts that were made for it.
pub fn mail_of_parts(parts: Option<(Option<String>, Vec<String>, Vec<u8>)>) -> (mail: Result<
    Mail,
    NotifyError,
>)
    ensures
        match (mail, mail_made(parts.deep_view())) {
            (Ok(mail), Ok(expected)) => mail.deep_view() == expected,
            (Err(e), Err(expected)) => e == expected,
            _ => false,
        },
{
    match parts {
        Some((sender, recipients, content)) => Ok(Mail { sender, recipients, content }),
        None => Err(NotifyError::InvalidMail),
    }
}

fn stands_on_one_line(name: &Option<String>) -> (single: bool)
    ensures
        single == bindings::one_line(name.deep_view()),
{
    match name {
        Some(name) => !has_char(name.as_str(), '\n') && !has_char(name.as_str(), '\r'),
        None => true,
    }
}

fn take_mailboxes(found: Vec<Option<(Option<String>, String)>>) -> (mailboxes: Option<
    Vec<(Option<String>, String)>,
>)
    ensures
        mailboxes.deep_view() == mailboxes_of(found.deep_view()),
{
    let ghost all = found.deep_view();
    let mut out: Vec<(Option<String>, String)> = Vec::new();
    let mut i: usize = 0;
    while i < found.len()
        invariant
            i <= found@.len(),
            all == found.deep_view(),
            out@.len() == i,
            forall|k: int| 0 <= k < i ==> #[trigger] all[k] == Some(out@[k].deep_view()),
        decreases found@.len() - i,
    {
        assert(all[i as int] == found@[i as int].deep_view());
        match &found[i] {
            Some((name, address)) => {
                let name: Option<String> = match name {
                    Some(name) => Some(name.clone()),
                    None => None,
                };
                out.push((name, address.clone()));
            },
            None => {
                assert(all[i as int] is None);
                return None;
            },
        }
        i += 1;
    }
    assert(out.deep_view() =~= all.map_values(|mailbox: Option<MailboxView>| mailbox.unwrap()));
    Some(out)
}

impl MailNotifier {
    /// The notifier for the settings, given the mailboxes that its addresses
    /// denote.
    pub fn with_mailboxes(
        config: &MailConfig,
        from: Option<(Option<String>, String)>,
        to: Vec<Option<(Option<String>, String)>>,
    ) -> (notifier: Result<Self, NotifyError>)
        ensures
            match (
                notifier,
                notifier_for(config.deep_view().smtp, from.deep_view(), to.deep_view()),
            ) {
                (Ok(notifier), Ok(expected)) => notifier.deep_view() == expected,
                (Err(e), Err(expected)) => e == expected,
                _ => false,
            },
    {
        let smtp = &config.smtp;
        proof {
            reveal_strlit("");
            if smtp.host@.len() == 0 {
                assert(smtp.host@ =~= ""@);
            }
        }
        if same_text(smtp.host.as_str(), "") {
            return Err(NotifyError::NoHost);
        }
        if smtp.from.is_none() {
            return Err(NotifyError::NoSender);
        }
        let from = match from {
            Some(from) => from,
            None => {
                return Err(NotifyError::InvalidSender);
            },
        };
        let to = match take_mailboxes(to) {
            Some(to) => to,
            None => {
                return Err(NotifyError::InvalidRecipient);
            },
        };
        if to.len() == 0 {
            return Err(NotifyError::NoRecipients);
        }
        let credentials = match (&smtp.username, &smtp.password) {
            (Some(username), Some(password)) => Some((username.clone(), password.clone())),
            _ => None,
        };
        Ok(
            MailNotifier {
                host: smtp.host.clone(),
                port: smtp.port,
                security: smtp.security,
                credentials,
                from,
                to,
            },
        )
    }

    /// The notifier for the settings.
    pub fn new(config: &MailConfig) -> (notifier: Result<Self, NotifyError>)
        ensures
            match (notifier, notifier_of(config.deep_view())) {
                (Ok(notifier), Ok(expected)) => notifier.deep_view() == expected && writable(
                    expected,
                ),
                (Err(e), Err(expected)) => e == expected,
                _ => false,
            },
    {
        let from = match &config.smtp.from {
            Some(from) => parse_mailbox(from.as_str()),
            None => None,
        };
        let ghost texts = config.smtp.to.deep_view();
        let ghost expected = texts.map_values(|text: Seq<char>| bindings::mailbox_found(text));
        let mut to: Vec<Option<(Option<String>, String)>> = Vec::new();
        let mut i: usize = 0;
        assert(to.deep_view() =~= expected.take(0));
        while i < config.smtp.to.len()
            invariant
                i <= config.smtp.to@.len(),
                texts == config.smtp.to.deep_view(),
                expected == texts.map_values(|text: Seq<char>| bindings::mailbox_found(text)),
                to.deep_view() == expected.take(i as int),
                forall|k: int|
                    0 <= k < i ==> (#[trigger] expected[k] matches Some(it) ==> bindings::one_line(
                        it.0,
                    )),
            decreases config.smtp.to@.len() - i,
        {
            let ghost before = to.deep_view();
            let mailbox = parse_mailbox(config.smtp.to[i].as_str());
            let ghost view = mailbox.deep_view();
            to.push(mailbox);
            proof {
                assert(texts[i as int] == config.smtp.to@[i as int]@);
                assert(to.deep_view() =~= before.push(view));
                assert(expected.take(i + 1) =~= expected.take(i as int).push(expected[i as int]));
            }
            i += 1;
        }
        assert(expected.take(i as int) =~= expected);
        MailNotifier::with_mailboxes(config, from, to)
    }

    /// The mail that goes to all recipients.
    pub fn build_message(&self, subject: &str, body: &str, seconds: u64) -> (mail: Result<
        Mail,
        NotifyError,
    >)
        requires
            seconds < DATE_LIMIT,
        ensures
            match (mail, mail_of(self.deep_view(), subject@, body@, seconds)) {
                (Ok(mail), Ok(expected)) => mail.deep_view() == expected,
                (Err(e), Err(expected)) => e == expected,
                _ => false,
            },
    {
        if !stands_on_one_line(&self.from.0) {
            return Err(NotifyError::InvalidMail);
        }
        let mut i: usize = 0;
        while i < self.to.len()
            invariant
                i <= self.to@.len(),
                forall|k: int|
                    0 <= k < i ==> bindings::one_line((#[trigger] self.to.deep_view()[k]).0),
            decreases self.to@.len() - i,
        {
            assert(self.to.deep_view()[i as int] == self.to@[i as int].deep_view());
            if !stands_on_one_line(&self.to[i].0) {
                return Err(NotifyError::InvalidMail);
            }
            i += 1;
        }
        mail_of_parts(compose_mail(&self.from, &self.to, subject, body, seconds))
    }
}

impl Notifier for MailNotifier {
    open spec fn outgoing(&self, subject: Seq<char>, body: Seq<char>, seconds: u64) -> Result<
        Option<MailContents>,
        NotifyError,
    > {
        match mail_of(self.deep_view(), subject, body, seconds) {
            Ok(mail) => Ok(Some(mail)),
            Err(e) => Err(e),
        }
    }

    fn notify_update(&self, subject: &str, body: &str, seconds: u64) -> (mail: Result<
        Option<Mail>,
        NotifyError,
    >) {
        match self.build_message(subject, body, seconds) {
            Ok(mail) => Ok(Some(mail)),
            Err(e) => Err(e),
        }
    }
}

impl Notifier for NoopNotifier {
    open spec fn outgoing(&self, subject: Seq<char>, body: Seq<char>, seconds: u64) -> Result<
        Option<MailContents>,
        NotifyError,
    > {
        Ok(None)
    }

    fn notify_update(&self, subject: &str, body: &str, seconds: u64) -> (mail: Result<
        Option<Mail>,
        NotifyError,
    >) {
        Ok(None)
    }
}

/// What is said where the connection to the mail server cannot be prepared.
pub open spec fn transport_error_text(security: SmtpSecurity, host: Seq<char>) -> Seq<char> {
    match security {
        SmtpSecurity::StartTls => "failed to build starttls transport for "@ + host,
        _ => "failed to build tls transport for "@ + host,
    }
}

/// What is said where the connection to the mail server cannot be prepared.
pub fn transport_error(security: SmtpSecurity, host: &str) -> (out: String)
    ensures
        out@ == transport_error_text(security, host@),
{
    let mut out = match security {
        SmtpSecurity::StartTls => "failed to build starttls transport for ".to_owned(),
        _ => "failed to build tls transport for ".to_owned(),
    };
    out.append(host);
    out
}

/// Where the settings are usable, one mail is made for all recipients: it is
/// addressed to the mailbox of every configured address, in order.
pub proof fn one_mail_for_all_recipients(
    mail: MailView,
    subject: Seq<char>,
    body: Seq<char>,
    seconds: u64,
)
    requires
        notifier_of(mail) is Ok,
    ensures
        ({
            let notifier = notifier_of(mail)->Ok_0;
            &&& notifier.to.len() == mail.smtp.to.len()
            &&& forall|i: int|
                0 <= i < notifier.to.len() ==> bindings::mailbox_found(mail.smtp.to[i]) == Some(
                    #[trigger] notifier.to[i],
                )
            &&& writable(notifier) ==> mail_of(notifier, subject, body, seconds) == mail_made(
                bindings::mail_composed(notifier.from, notifier.to, subject, body, seconds),
            )
        }),
{
    let found = mail.smtp.to.map_values(|text: Seq<char>| bindings::mailbox_found(text));
    assert(forall|i: int| 0 <= i < found.len() ==> (#[trigger] found[i]) is Some);
    let notifier = notifier_of(mail)->Ok_0;
    assert forall|i: int| 0 <= i < notifier.to.len() implies bindings::mailbox_found(
        mail.smtp.to[i],
    ) == Some(#[trigger] notifier.to[i]) by {
        assert(found[i] is Some);
    }
}

}
