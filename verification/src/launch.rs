//! Launch URL construction, the launch gate, and classification of
//! hand-off failures.

use vstd::prelude::*;

use crate::avail::availability_of;
use crate::avail::steam_check_rwr_available;
use crate::avail::RootScan;
use crate::encode::percent_encode;
use crate::encode::percent_encoded;
use crate::errors::ErrorKind;
use crate::text::contains_seq;
use crate::text::contains_str;
use crate::text::trim;
use crate::text::trimmed;
use vstd::string::StringExecFns;

verus! {

/// The launch URL for raw argument text: the arguments are trimmed and
/// percent-encoded byte-wise; with nothing left the URL is
/// `steam://run/270150/`, else `steam://run/270150//` followed by the
/// encoded arguments — the double slash is the storefront's fixed
/// convention, not derived from the input.
pub open spec fn launch_url_of(args: Seq<char>) -> Seq<char> {
    let encoded = percent_encoded(vstd::utf8::encode_utf8(trimmed(args)));
    if encoded.len() == 0 {
        "steam://run/270150/"@
    } else {
        "steam://run/270150//"@ + encoded
    }
}

/// Builds the launch URL for the given raw argument text.
pub fn build_launch_url(args_text: &str) -> (r: String)
    ensures
        r@ == launch_url_of(args_text@),
{
    let trimmed_args = trim(args_text);
    let encoded = percent_encode(trimmed_args);
    if encoded.as_str().is_empty() {
        String::from_str("steam://run/270150/")
    } else {
        let mut url = String::from_str("steam://run/270150//");
        url.append(encoded.as_str());
        url
    }
}

/// Decides a launch request: availability is checked first, and a URL is
/// produced only on success.
///
/// On a failed availability check the same error kind comes back unchanged
/// and no URL exists to dispatch, so the URI-opening facility is never
/// reached for an unconfirmed installation.
pub fn launch_request(scans: &Vec<RootScan>, args_text: &str) -> (r: Result<String, ErrorKind>)
    ensures
        (match r {
            Ok(url) => availability_of(scans@) == Ok::<(), ErrorKind>(()) && url@ == launch_url_of(
                args_text@,
            ),
            Err(e) => availability_of(scans@) == Err::<(), ErrorKind>(e),
        }),
{
    match steam_check_rwr_available(scans) {
        Ok(_) => Ok(build_launch_url(args_text)),
        Err(e) => Err(e),
    }
}

/// A name for what str::to_lowercase returns: the case-folded text, a
/// function of the characters alone.
pub uninterp spec fn lower_of(s: Seq<char>) -> Seq<char>;

/// Relies on str::to_lowercase: the result depends on the characters
/// alone, and an empty string stays empty.
#[verifier::external_body]
fn lowercase(s: &str) -> (r: String)
    ensures
        r@ == lower_of(s@),
        s@.len() == 0 ==> r@.len() == 0,
{
    s.to_lowercase()
}

/// The classification of a URI-opening failure, given the lowercased
/// failure text: a message that mentions `scheme` means the system has no
/// handler for the launch scheme, so the storefront is reported absent;
/// anything else is a generic hand-off failure.
pub open spec fn classified_failure(lower_msg: Seq<char>) -> ErrorKind {
    if contains_seq(lower_msg, "scheme"@) {
        ErrorKind::StorefrontUnavailable
    } else {
        ErrorKind::LaunchFailed
    }
}

/// Classifies a failure text already folded to lower case.
pub fn classify_lowered_failure(lower_msg: &str) -> (r: ErrorKind)
    ensures
        r == classified_failure(lower_msg@),
{
    if contains_str(lower_msg, "scheme") {
        ErrorKind::StorefrontUnavailable
    } else {
        ErrorKind::LaunchFailed
    }
}

/// Classifies the failure text of the URI-opening facility, looking for a
/// mention of the launch scheme case-insensitively.
pub fn classify_open_error(msg: &str) -> (r: ErrorKind)
    ensures
        r == classified_failure(lower_of(msg@)),
{
    let lowered = lowercase(msg);
    classify_lowered_failure(lowered.as_str())
}

} // verus!
