//! Timestamps, written and read by the crate chrono.

use std::fmt::Write;
use vstd::prelude::*;

verus! {

/// Calls `Local::now` and `DateTime::to_rfc3339` of the crate chrono: the
/// current local time as an RFC 3339 text with its zone offset. The result
/// depends on the clock and on the machine's time zone, so the contract says
/// nothing of it.
#[verifier::external_body]
pub(crate) fn timestamp_now() -> (out: String) {
    chrono::Local::now().to_rfc3339()
}

/// Reads `date` with `DateTime::parse_from_rfc3339` of the crate chrono, moves
/// it to the machine's time zone and writes it in the RFC 2822 form, as
/// `DateTime::to_rfc2822` does; `None` where the text is no RFC 3339
/// timestamp or its year has no RFC 2822 form. The result depends on the
/// machine's time zone, so the contract says nothing of it.
#[verifier::external_body]
pub(crate) fn local_rfc2822(date: &str) -> (out: Option<String>) {
    match chrono::DateTime::parse_from_rfc3339(date) {
        Ok(at) => {
            let items = [chrono::format::Item::Fixed(chrono::format::Fixed::RFC2822)];
            let mut out = String::new();
            match write!(out, "{}", at.with_timezone(&chrono::Local).format_with_items(items.iter())) {
                Ok(()) => Some(out),
                Err(_) => None,
            }
        },
        Err(_) => None,
    }
}

} // verus!
