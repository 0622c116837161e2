//! Fixed addresses, tables and policy numbers.

use crate::text::same_text;
use vstd::prelude::*;

verus! {

/// Address under which the No-Intro catalog publishes its manifests.
pub const NO_INTRO_URL: &'static str = "https://www.no-intro.org";

/// Title of the No-Intro catalog on the file server.
pub const NO_INTRO_LABEL: &'static str = "No-Intro";

/// Address under which the Redump catalog publishes its manifests.
pub const REDUMP_URL: &'static str = "http://redump.org/";

/// Title of the Redump catalog on the file server.
pub const REDUMP_LABEL: &'static str = "Redump";

/// Root address of the file server; every request path is appended to it.
pub const MYRIENT_HTTP_ADDR: &'static str = "https://myrient.erista.me/files/";

/// How requests introduce their sender. The server turns away clients that
/// do not look like a browser.
pub const USER_AGENT: &'static str =
    "Mozilla/5.0 (Windows NT 10.0; Win64; x64) AppleWebKit/537.36 (KHTML, like Gecko) Chrome/126.0.0.0 Safari/537.36";

/// The kinds of answer that requests ask for.
pub const ACCEPT: &'static str =
    "text/html,application/xhtml+xml,application/xml;q=0.9,image/avif,image/webp,image/apng,*/*;q=0.8,application/signed-exchange;v=b3;q=0.7";

/// Annotation that curated manifests append to the name of the system.
pub const RETOOL_POSTFIX: &'static str = " (Retool)";

/// Number of times a failed transfer is tried again before it is given up.
pub const MAX_RETRIES: u32 = 3;

/// Delay before the first retry, in milliseconds; each further retry doubles it.
pub const RETRY_BASE_DELAY_MS: u64 = 100;

/// The catalog that publishes under `url`, for the catalogs known here. The
/// address is compared whole and exactly.
pub open spec fn catalog_of(url: Seq<char>) -> Option<Seq<char>> {
    if url == NO_INTRO_URL@ {
        Some(NO_INTRO_LABEL@)
    } else if url == REDUMP_URL@ {
        Some(REDUMP_LABEL@)
    } else {
        None
    }
}

/// Looks an origin address up in the table of known catalogs.
pub fn catalog_for_url(url: &str) -> (label: Option<String>)
    ensures
        label.deep_view() == catalog_of(url@),
{
    if same_text(url, NO_INTRO_URL) {
        Some(String::from_str(NO_INTRO_LABEL))
    } else if same_text(url, REDUMP_URL) {
        Some(String::from_str(REDUMP_LABEL))
    } else {
        None
    }
}

} // verus!
