//! Mail settings.
use vstd::prelude::*;

verus! {

/// How mail leaves the service.
pub struct EmailConfig {
    /// Address in the `From` field.
    pub sending_email: String,
    /// Address mail is sent to.
    pub destination_email: String,
    /// SMTP relay host, if mail goes through one.
    pub mail_relay_host: Option<String>,
    /// SMTP relay port (25 when not set).
    pub mail_relay_port: Option<u16>,
    /// SMTP user name, if the relay needs one.
    pub smtp_username: Option<String>,
    /// SMTP password, if the relay needs one.
    pub smtp_password: Option<String>,
    /// Whether to use TLS with the relay.
    pub smtp_use_tls: bool,
    /// Subject used when none is given.
    pub default_subject: String,
}

impl EmailConfig {
    /// The SMTP relay port, 25 when not set.
    pub fn get_mail_relay_port(&self) -> (r: u16)
        ensures
            r == match self.mail_relay_port {
                Some(p) => p,
                None => 25u16,
            },
    {
        match self.mail_relay_port {
            Some(p) => p,
            None => 25,
        }
    }

    /// Whether mail goes through an SMTP relay (else local sendmail).
    pub fn use_smtp_relay(&self) -> (r: bool)
        ensures
            r == self.mail_relay_host is Some,
    {
        self.mail_relay_host.is_some()
    }
}

} // verus!
