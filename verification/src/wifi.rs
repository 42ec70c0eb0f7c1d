//! The access-point credentials the boards join with, checked against the
//! capacity of the Wi-Fi client configuration's fixed-size fields.

use vstd::prelude::*;
use vstd::string::StringSliceAdditionalSpecFns;

verus! {

/// Bytes that the SSID field of the client configuration holds.
pub const SSID_CAPACITY: usize = 32;

/// Bytes that the password field of the client configuration holds.
pub const PASSWORD_CAPACITY: usize = 64;

/// Why credentials cannot be stored in the client configuration.
#[derive(Clone, Copy, Debug, PartialEq, Eq, Structural)]
pub enum CredentialError {
    /// The SSID's UTF-8 encoding is longer than the SSID field.
    SsidTooLong,
    /// The password's UTF-8 encoding is longer than the password field.
    PasswordTooLong,
}

/// Whether a string can be stored in the 32-byte SSID field: the field, a
/// `heapless::String<32>`, takes any string whose UTF-8 encoding has at most
/// 32 bytes, whatever characters it holds, and refuses longer ones.
fn fits_ssid_field(s: &str) -> (fits: bool)
    ensures
        fits == (s.spec_bytes().len() <= SSID_CAPACITY),
{
    s.as_bytes().len() <= SSID_CAPACITY
}

/// Whether a string can be stored in the 64-byte password field, a
/// `heapless::String<64>`: exactly where its UTF-8 encoding has at most 64
/// bytes, whatever characters it holds.
fn fits_password_field(s: &str) -> (fits: bool)
    ensures
        fits == (s.spec_bytes().len() <= PASSWORD_CAPACITY),
{
    s.as_bytes().len() <= PASSWORD_CAPACITY
}

/// Checks that an SSID and a password can be stored in a WPA2-personal
/// client configuration; the SSID is checked first.
pub fn check_credentials(ssid: &str, password: &str) -> (r: Result<(), CredentialError>)
    ensures
        r is Ok <==> ssid.spec_bytes().len() <= SSID_CAPACITY && password.spec_bytes().len()
            <= PASSWORD_CAPACITY,
        r == Err::<(), CredentialError>(CredentialError::SsidTooLong) <==> ssid.spec_bytes().len()
            > SSID_CAPACITY,
        r == Err::<(), CredentialError>(CredentialError::PasswordTooLong) <==> ssid.spec_bytes().len()
            <= SSID_CAPACITY && password.spec_bytes().len() > PASSWORD_CAPACITY,
{
    if !fits_ssid_field(ssid) {
        Err(CredentialError::SsidTooLong)
    } else if !fits_password_field(password) {
        Err(CredentialError::PasswordTooLong)
    } else {
        Ok(())
    }
}

} // verus!
