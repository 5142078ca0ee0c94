//! Whom a mail goes to, and when none can be made.
use crate::bindings;
use crate::config::{MailView, SmtpSecurity};
use crate::notify::{
    self, MailContents, MailNotifier, NoopNotifier, Notifier, NotifierView, NotifyError,
};
use vstd::prelude::*;

verus! {

/// Mail can be sent exactly where there are a host, a sender whose address is one,
/// and recipients whose addresses all are. The first of these that is missing is
/// what is reported.
pub proof fn mail_needs_host_sender_and_recipients(mail: MailView)
    ensures
        ({
            let smtp = mail.smtp;
            let sender = smtp.from matches Some(from) && bindings::mailbox_found(from) is Some;
            let known = forall|i: int|
                0 <= i < smtp.to.len() ==> bindings::mailbox_found(#[trigger] smtp.to[i]) is Some;
            let made = notify::notifier_of(mail);
            &&& made is Ok <==> smtp.host.len() > 0 && sender && known && smtp.to.len() > 0
            &&& smtp.host.len() == 0 ==> made == Err::<NotifierView, NotifyError>(
                NotifyError::NoHost,
            )
            &&& smtp.host.len() > 0 && smtp.from is None ==> made == Err::<
                NotifierView,
                NotifyError,
            >(NotifyError::NoSender)
            &&& smtp.host.len() > 0 && smtp.from is Some && !sender ==> made == Err::<
                NotifierView,
                NotifyError,
            >(NotifyError::InvalidSender)
            &&& smtp.host.len() > 0 && sender && !known ==> made == Err::<
                NotifierView,
                NotifyError,
            >(NotifyError::InvalidRecipient)
            &&& smtp.host.len() > 0 && sender && smtp.to.len() == 0 ==> made == Err::<
                NotifierView,
                NotifyError,
            >(NotifyError::NoRecipients)
        }),
{
    let smtp = mail.smtp;
    let found = smtp.to.map_values(|text: Seq<char>| bindings::mailbox_found(text));
    if exists|i: int| 0 <= i < found.len() && (#[trigger] found[i]) is None {
        let i = choose|i: int| 0 <= i < found.len() && (#[trigger] found[i]) is None;
        assert(bindings::mailbox_found(smtp.to[i]) is None);
    } else {
        assert forall|i: int| 0 <= i < smtp.to.len() implies bindings::mailbox_found(
            #[trigger] smtp.to[i],
        ) is Some by {
            assert(found[i] is Some);
        }
    }
}

/// The mail server, its protection, the sender and every recipient are those of the
/// settings; the user name and the password count only together.
pub proof fn notifier_follows_the_settings(mail: MailView)
    requires
        notify::notifier_of(mail) is Ok,
    ensures
        ({
            let smtp = mail.smtp;
            let notifier = notify::notifier_of(mail)->Ok_0;
            &&& notifier.host == smtp.host
            &&& notifier.port == smtp.port
            &&& notifier.security == smtp.security
            &&& smtp.username matches Some(username) ==> (smtp.password matches Some(password)
                ==> notifier.credentials == Some((username, password)))
            &&& smtp.username is None || smtp.password is None ==> notifier.credentials is None
            &&& smtp.from matches Some(from) && bindings::mailbox_found(from) == Some(
                notifier.from,
            )
            &&& notifier.to.len() == smtp.to.len()
            &&& forall|i: int|
                0 <= i < smtp.to.len() ==> bindings::mailbox_found(smtp.to[i]) == Some(
                    #[trigger] notifier.to[i],
                )
        }),
{
    let found = mail.smtp.to.map_values(|text: Seq<char>| bindings::mailbox_found(text));
    let notifier = notify::notifier_of(mail)->Ok_0;
    assert forall|i: int| 0 <= i < mail.smtp.to.len() implies bindings::mailbox_found(
        mail.smtp.to[i],
    ) == Some(#[trigger] notifier.to[i]) by {
        assert(found[i] is Some);
    }
}

/// A mail is made of the sender, all recipients, the subject, the text and the
/// moment; what comes of them is the mail. A name with a line break makes none.
pub proof fn mail_is_made_of_its_parts(
    notifier: NotifierView,
    subject: Seq<char>,
    body: Seq<char>,
    seconds: u64,
)
    ensures
        ({
            let names_fit = (notifier.from.0 matches Some(name) ==> !name.contains('\n')
                && !name.contains('\r')) && forall|i: int|
                0 <= i < notifier.to.len() ==> ((#[trigger] notifier.to[i]).0 matches Some(name)
                    ==> !name.contains('\n') && !name.contains('\r'));
            let mail = notify::mail_of(notifier, subject, body, seconds);
            let parts = bindings::mail_composed(
                notifier.from,
                notifier.to,
                subject,
                body,
                seconds,
            );
            &&& mail is Ok <==> names_fit && parts is Some
            &&& mail matches Err(e) ==> e == NotifyError::InvalidMail
            &&& mail matches Ok(mail) ==> parts == Some(
                (mail.sender, mail.recipients, mail.content),
            )
        }),
{
    if notify::writable(notifier) {
        assert forall|i: int| 0 <= i < notifier.to.len() implies ((
        #[trigger] notifier.to[i]).0 matches Some(name) ==> !name.contains('\n') && !name.contains(
            '\r',
        )) by {
            assert(bindings::one_line(notifier.to[i].0));
        }
    } else if bindings::one_line(notifier.from.0) {
        let i = choose|i: int|
            0 <= i < notifier.to.len() && !bindings::one_line((#[trigger] notifier.to[i]).0);
        assert(!bindings::one_line(notifier.to[i].0));
    }
}

/// Without mail nobody is told; with it every change is told by the mail that is
/// made of it.
pub proof fn changes_are_told_by_mail_or_not_at_all(
    nobody: NoopNotifier,
    notifier: MailNotifier,
    subject: Seq<char>,
    body: Seq<char>,
    seconds: u64,
)
    ensures
        nobody.outgoing(subject, body, seconds) == Ok::<Option<MailContents>, NotifyError>(None),
        notify::mail_of(notifier.deep_view(), subject, body, seconds) matches Ok(mail)
            ==> notifier.outgoing(subject, body, seconds) == Ok::<
            Option<MailContents>,
            NotifyError,
        >(Some(mail)),
        notify::mail_of(notifier.deep_view(), subject, body, seconds) matches Err(e)
            ==> notifier.outgoing(subject, body, seconds) == Err::<
            Option<MailContents>,
            NotifyError,
        >(e),
{
}

/// A failure to connect names the protection and the host.
pub proof fn connection_failures_name_the_host(host: Seq<char>)
    ensures
        notify::transport_error_text(SmtpSecurity::StartTls, host)
            == "failed to build starttls transport for "@ + host,
        notify::transport_error_text(SmtpSecurity::Tls, host)
            == "failed to build tls transport for "@ + host,
{
}

}
