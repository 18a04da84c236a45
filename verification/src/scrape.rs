//! Extraction of the watched values from fetched pages. The pattern
//! matching itself is done by the regex crate behind trusted wrappers;
//! what each match yields on a given page is a function of the page text
//! alone, so it is given a name that the wrappers' contracts and the
//! callers' contracts share. The post-processing of the captured text is
//! verified.
use vstd::prelude::*;

use crate::strutil::remove_hash;
use crate::strutil::remove_hash_spec;
use crate::strutil::replace_amp;
use crate::strutil::replace_amp_spec;

verus! {

/// The link and version text of the newest version post on the forum
/// listing page, if the page holds one.
pub uninterp spec fn version_capture(html: Seq<char>) -> Option<(Seq<char>, Seq<char>)>;

/// Relies on regex::Regex::captures with the fixed pattern
/// `<a href="([^"]*)"[^>]*topictitle">Version ([^<]*)<`: the first
/// capture is the post's link, the second its version text; the result
/// depends on the page text alone.
#[verifier::external_body]
fn capture_version(html: &str) -> (r: Option<(String, String)>)
    ensures
        match r {
            Some(c) => version_capture(html@) == Some((c.0@, c.1@)),
            None => version_capture(html@) is None,
        },
{
    let re = match regex::Regex::new(r#"<a href="([^"]*)"[^>]*topictitle">Version ([^<]*)<"#) {
        Ok(re) => re,
        Err(_) => return None,
    };
    re.captures(html).map(|c| (c[1].to_owned(), c[2].to_owned()))
}

/// The number of the newest Friday-facts post on the front page, if the
/// page holds one.
pub uninterp spec fn facts_capture(html: Seq<char>) -> Option<Seq<char>>;

/// Relies on regex::Regex::captures with the fixed pattern
/// `Friday Facts #([0-9\.]+)`: the capture is the post number; the
/// result depends on the page text alone.
#[verifier::external_body]
fn capture_facts(html: &str) -> (r: Option<String>)
    ensures
        match r {
            Some(c) => facts_capture(html@) == Some(c@),
            None => facts_capture(html@) is None,
        },
{
    let re = match regex::Regex::new(r#"Friday Facts #([0-9\.]+)"#) {
        Ok(re) => re,
        Err(_) => return None,
    };
    re.captures(html).map(|c| c[1].to_owned())
}

/// The first `#`-marked post number on the alternative blog's front
/// page, hash mark included, if the page holds one.
pub uninterp spec fn alt_facts_capture(html: Seq<char>) -> Option<Seq<char>>;

/// Relies on regex::Regex::captures with the fixed pattern
/// `\#([0-9\.]+)`: the whole match (mark and number) is returned; the
/// result depends on the page text alone.
#[verifier::external_body]
fn capture_alt_facts(html: &str) -> (r: Option<String>)
    ensures
        match r {
            Some(c) => alt_facts_capture(html@) == Some(c@),
            None => alt_facts_capture(html@) is None,
        },
{
    let re = match regex::Regex::new(r#"\#([0-9\.]+)"#) {
        Ok(re) => re,
        Err(_) => return None,
    };
    re.captures(html).map(|c| c[0].to_owned())
}

/// The newest version post of the fetched forum page: the link with its
/// `&amp;` entities decoded, and the version text.
pub fn extract_version(html: &str) -> (r: Option<(String, String)>)
    ensures
        match r {
            Some(c) => version_capture(html@) matches Some(raw) && c.0@ == replace_amp_spec(
                raw.0,
            ) && c.1@ == raw.1,
            None => version_capture(html@) is None,
        },
{
    match capture_version(html) {
        Some(c) => {
            let url = replace_amp(c.0.as_str());
            Some((url, c.1))
        },
        None => None,
    }
}

/// The newest Friday-facts post number of the fetched front page.
pub fn extract_facts(html: &str) -> (r: Option<String>)
    ensures
        match r {
            Some(c) => facts_capture(html@) == Some(c@),
            None => facts_capture(html@) is None,
        },
{
    capture_facts(html)
}

/// The newest post number of the fetched alternative-blog page, with the
/// hash marks stripped.
pub fn extract_alt_facts(html: &str) -> (r: Option<String>)
    ensures
        match r {
            Some(c) => alt_facts_capture(html@) matches Some(raw) && c@ == remove_hash_spec(raw),
            None => alt_facts_capture(html@) is None,
        },
{
    match capture_alt_facts(html) {
        Some(c) => Some(remove_hash(c.as_str())),
        None => None,
    }
}

} // verus!
