use vstd::prelude::*;

use crate::text::{chars_of, decimal, decimal_chars, string_of};

verus! {

/// Most pins a session without an account may ask for.
pub const GUEST_PIN_CAP: usize = 30;

/// Address of the local browser driver service, up to its port number.
pub const DRIVER_HOST: &'static str = "http://localhost:";

/// The number of pins a session without an account collects: what was asked for, but at
/// most the guest cap.
pub fn limited_amount(requested: usize) -> (amount: usize)
    ensures
        amount == if requested <= GUEST_PIN_CAP { requested } else { GUEST_PIN_CAP },
        amount <= 30,
        requested <= 30 ==> amount == requested,
        requested > 30 ==> amount == 30,
{
    if requested <= GUEST_PIN_CAP {
        requested
    } else {
        GUEST_PIN_CAP
    }
}

/// The address of the browser driver service that listens on `port`.
pub fn server_url(port: u16) -> (url: String)
    ensures
        url@ == DRIVER_HOST@ + decimal(port as nat),
{
    let mut url = chars_of(DRIVER_HOST);
    let mut digits = decimal_chars(port as u64);
    url.append(&mut digits);
    string_of(&url)
}

} // verus!
