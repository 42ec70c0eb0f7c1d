use esp_rs::wifi::{check_credentials, CredentialError};

#[test]
fn original_credentials_fit() {
    assert_eq!(check_credentials("pelu's Nothing Phone", "kws8b8tj"), Ok(()));
}

#[test]
fn credentials_at_capacity_fit() {
    let ssid = "s".repeat(32);
    let pass = "p".repeat(64);
    assert_eq!(check_credentials(&ssid, &pass), Ok(()));
    assert_eq!(check_credentials("", ""), Ok(()));
}

#[test]
fn ssid_one_byte_too_long_is_refused() {
    let ssid = "s".repeat(33);
    assert_eq!(check_credentials(&ssid, "pw"), Err(CredentialError::SsidTooLong));
    // The SSID is checked first.
    let pass = "p".repeat(65);
    assert_eq!(check_credentials(&ssid, &pass), Err(CredentialError::SsidTooLong));
}

#[test]
fn password_one_byte_too_long_is_refused() {
    let pass = "p".repeat(65);
    assert_eq!(check_credentials("home", &pass), Err(CredentialError::PasswordTooLong));
}

#[test]
fn capacity_counts_utf8_bytes_not_characters() {
    // 17 characters, 34 bytes.
    let ssid = "\u{e9}".repeat(17);
    assert_eq!(check_credentials(&ssid, "pw"), Err(CredentialError::SsidTooLong));
    // 16 characters, 32 bytes.
    let ssid = "\u{e9}".repeat(16);
    assert_eq!(check_credentials(&ssid, "pw"), Ok(()));
}
