//! Labels for scan results whose host name, system or service may be unknown.
use vstd::prelude::*;
use crate::text::upper_of;

verus! {

/// What a scan found about one address.
#[derive(Debug)]
pub struct ScanResult {
    pub ip: String,
    pub hostname: Option<String>,
    pub os: Option<String>,
    pub service: Option<String>,
}

/// The host name with the address in parentheses, or the bare address.
pub fn display_target(result: &ScanResult) -> (r: String)
    ensures
        result.hostname matches Some(h) ==> r@ == h@ + " ("@ + result.ip@ + ")"@,
        result.hostname is None ==> r@ == result.ip@,
{
    match &result.hostname {
        Some(host) => crate::text::concat4(host.as_str(), " (", result.ip.as_str(), ")"),
        None => result.ip.clone(),
    }
}

/// The operating system in upper case, or `Unknown OS`.
pub fn get_os_label(result: &ScanResult) -> (r: String)
    ensures
        result.os matches Some(os) ==> r@ == upper_of(os@),
        result.os is None ==> r@ == "Unknown OS"@,
{
    match &result.os {
        Some(os) => crate::text::to_upper(os.as_str()),
        None => "Unknown OS".to_owned(),
    }
}

/// `service on address`, or `no service on address`.
pub fn service_description(result: &ScanResult) -> (r: String)
    ensures
        result.service matches Some(s) ==> r@ == s@ + " on "@ + result.ip@,
        result.service is None ==> r@ == "no service on "@ + result.ip@,
{
    match &result.service {
        Some(service) => crate::text::concat3(service.as_str(), " on ", result.ip.as_str()),
        None => crate::text::concat2("no service on ", result.ip.as_str()),
    }
}

/// At most the first ten characters of the host name in upper case, or
/// `UNKNOWN`.
pub fn short_label(result: &ScanResult) -> (r: String)
    ensures
        result.hostname matches Some(h) ==> r@ == upper_of(h@).take(
            if upper_of(h@).len() < 10 { upper_of(h@).len() as int } else { 10 },
        ),
        result.hostname is None ==> r@ == "UNKNOWN"@,
{
    match &result.hostname {
        Some(host) => {
            let cased = crate::text::to_upper(host.as_str());
            crate::text::take_chars(cased.as_str(), 10)
        },
        None => "UNKNOWN".to_owned(),
    }
}

} // verus!
