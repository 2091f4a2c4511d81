use dockboard::email_config::EmailConfig;
use dockboard::ws::{cookie_access_token, relays_message};

fn config(host: Option<&str>, port: Option<u16>) -> EmailConfig {
    EmailConfig {
        sending_email: "a@b".to_string(),
        destination_email: "c@d".to_string(),
        mail_relay_host: host.map(|h| h.to_string()),
        mail_relay_port: port,
        smtp_username: None,
        smtp_password: None,
        smtp_use_tls: false,
        default_subject: "ASL/ASN Analysis Report".to_string(),
    }
}

#[test]
fn relay_port_defaults_to_25() {
    assert_eq!(config(None, None).get_mail_relay_port(), 25);
    assert_eq!(config(None, Some(2525)).get_mail_relay_port(), 2525);
}

#[test]
fn relay_used_when_host_set() {
    assert!(config(Some("smtp.local"), None).use_smtp_relay());
    assert!(!config(None, Some(25)).use_smtp_relay());
}

#[test]
fn access_token_from_cookie_header() {
    assert_eq!(cookie_access_token("a=1; access_token=xyz; b=2"), Some("xyz".to_string()));
    assert_eq!(cookie_access_token("access_token=first;access_token=second"), Some("first".to_string()));
    assert_eq!(cookie_access_token("  access_token=  "), Some(String::new()));
    assert_eq!(cookie_access_token("my_access_token=1"), None);
    assert_eq!(cookie_access_token(""), None);
}

#[test]
fn ping_is_not_relayed() {
    assert!(!relays_message("ping"));
    assert!(relays_message("trailer_update"));
    assert!(relays_message("Ping"));
}
