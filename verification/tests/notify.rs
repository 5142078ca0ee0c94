use lb_monitor::config::{MailConfig, SmtpConfig, SmtpSecurity};
use lb_monitor::notify::{
    mail_of_parts, transport_error, MailNotifier, NoopNotifier, Notifier, NotifyError,
};

fn mail_config() -> MailConfig {
    MailConfig {
        enabled: true,
        smtp: SmtpConfig {
            host: "smtp.example.com".to_string(),
            port: 25,
            username: None,
            password: None,
            from: Some("sender@example.com".to_string()),
            to: vec!["alpha@example.com".to_string(), "beta@example.com".to_string()],
            security: SmtpSecurity::Plain,
        },
    }
}

#[test]
fn builds_mail_for_multiple_recipients() {
    let notifier = MailNotifier::new(&mail_config()).expect("build notifier");

    let message = notifier
        .build_message("Leaderboard updated", "body", 1_778_112_000)
        .expect("build message");
    let formatted = String::from_utf8(message.content).expect("utf8");

    assert!(formatted.contains("alpha@example.com"));
    assert!(formatted.contains("beta@example.com"));
    drop(notifier);
}

#[test]
fn mail_goes_to_every_recipient() {
    let mut config = mail_config();
    config.smtp.to[1] = "Beta Team <beta@example.com>".to_string();
    config.smtp.username = Some("user".to_string());
    config.smtp.password = Some("secret".to_string());
    let notifier = MailNotifier::new(&config).expect("build notifier");
    assert_eq!(notifier.credentials, Some(("user".to_string(), "secret".to_string())));
    assert_eq!(notifier.to[1].0.as_deref(), Some("Beta Team"));
    assert_eq!(notifier.to[1].1, "beta@example.com");
    let mail = notifier.notify_update("Subject here", "the text", 0).expect("mail").expect("mail");
    assert_eq!(mail.sender.as_deref(), Some("sender@example.com"));
    assert_eq!(
        mail.recipients,
        vec!["alpha@example.com".to_string(), "beta@example.com".to_string()]
    );
    let formatted = String::from_utf8(mail.content).expect("utf8");
    assert!(formatted.contains("Subject: Subject here"));
    assert!(formatted.contains("Date: Thu, 01 Jan 1970 00:00:00 +0000"));
    assert!(formatted.contains("the text"));
}

#[test]
fn nobody_is_told_without_mail() {
    assert!(NoopNotifier.notify_update("s", "b", 0).expect("noop").is_none());
}

#[test]
fn unusable_mail_settings_are_refused() {
    let mut config = mail_config();
    config.smtp.host = String::new();
    assert_eq!(MailNotifier::new(&config).expect_err("host"), NotifyError::NoHost);
    let mut config = mail_config();
    config.smtp.from = None;
    assert_eq!(MailNotifier::new(&config).expect_err("from"), NotifyError::NoSender);
    let mut config = mail_config();
    config.smtp.from = Some("nobody".to_string());
    assert_eq!(MailNotifier::new(&config).expect_err("from"), NotifyError::InvalidSender);
    let mut config = mail_config();
    config.smtp.to.push("not an address".to_string());
    assert_eq!(MailNotifier::new(&config).expect_err("to"), NotifyError::InvalidRecipient);
    let mut config = mail_config();
    config.smtp.to.clear();
    assert_eq!(MailNotifier::new(&config).expect_err("to"), NotifyError::NoRecipients);
    assert_eq!(mail_of_parts(None).expect_err("no mail"), NotifyError::InvalidMail);
}

#[test]
fn only_complete_credentials_count() {
    let mut config = mail_config();
    config.smtp.username = Some("user".to_string());
    assert_eq!(MailNotifier::new(&config).expect("notifier").credentials, None);
}

#[test]
fn mail_errors_have_messages() {
    assert_eq!(NotifyError::NoHost.message(), "smtp host is required when mail is enabled");
    assert_eq!(NotifyError::NoSender.message(), "smtp from is required when mail is enabled");
    assert_eq!(NotifyError::InvalidSender.message(), "failed to parse smtp from address");
    assert_eq!(NotifyError::InvalidRecipient.message(), "failed to parse smtp recipient");
    assert_eq!(NotifyError::NoRecipients.message(), "at least one smtp recipient is required");
    assert_eq!(NotifyError::InvalidMail.message(), "failed to build mail message");
    assert_eq!(
        transport_error(SmtpSecurity::StartTls, "host"),
        "failed to build starttls transport for host"
    );
    assert_eq!(transport_error(SmtpSecurity::Tls, "host"), "failed to build tls transport for host");
}

#[test]
fn names_with_line_breaks_make_no_mail() {
    let mut notifier = MailNotifier::new(&mail_config()).expect("build notifier");
    for name in ["Beta\nTeam", "Beta\rTeam", "\n"] {
        notifier.to[1].0 = Some(name.to_string());
        let refused = notifier.build_message("s", "b", 0);
        assert_eq!(refused.expect_err("line break"), NotifyError::InvalidMail);
    }
    notifier.to[1].0 = Some("Beta \"B\" Team".to_string());
    notifier.from.0 = Some("a\r\nb".to_string());
    let refused = notifier.build_message("s", "b", 0);
    assert_eq!(refused.expect_err("line break"), NotifyError::InvalidMail);
    notifier.from.0 = None;
    assert_eq!(notifier.build_message("s", "b", 0).expect("mail").recipients.len(), 2);
}

#[test]
fn addresses_with_line_breaks_are_refused() {
    let mut config = mail_config();
    config.smtp.to[1] = "\"Beta\nTeam\" <beta@example.com>".to_string();
    assert!(MailNotifier::new(&config).is_err());
}
