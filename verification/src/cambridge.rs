//! Scraping logic specific to the Cambridge dictionary pages: audio links
//! (which the pages give relative to the site) and definitions.

use crate::scrape::{
    elements, mp3_element, mp3_element_to_url, selected, selector_parses, spec_element_to_url,
};
use crate::text::{append_chars, chars_of, string_of};
use vstd::prelude::*;
use vstd::string::StrSliceExecFns;

verus! {

pub const BASE_URL: &'static str = "https://dictionary.cambridge.org";

pub const URL: &'static str = "https://dictionary.cambridge.org/dictionary/english/";

pub const MP3_QUERY: &'static str = r#"source[type="audio/mpeg"]"#;

pub const MP3_START_WITH: &'static str = "/media";

pub const DEFINITION_QUERY: &'static str = r#"div[class="def ddef_d db"]"#;

/// The audio query of the Cambridge pages.
pub open spec fn mp3_query() -> Seq<char> {
    r#"source[type="audio/mpeg"]"#@
}

/// The definition query of the Cambridge pages.
pub open spec fn definition_query() -> Seq<char> {
    r#"div[class="def ddef_d db"]"#@
}

/// What [`mp3_url`] returns: the relative audio link cut out of the first
/// selected audio element, prefixed with the site's base URL.
pub open spec fn spec_mp3_url(html: Seq<char>) -> Option<Seq<char>> {
    if selector_parses(mp3_query()) && selected(mp3_query(), html, false).len() > 0 {
        match spec_element_to_url(selected(mp3_query(), html, false)[0], "/media"@, ".mp3"@) {
            Some(u) => Some("https://dictionary.cambridge.org"@ + u),
            None => None,
        }
    } else {
        None
    }
}

/// The absolute audio link of a Cambridge page, if one is present.
pub fn mp3_url(html: &str) -> (r: Option<String>)
    ensures
        match r {
            Some(u) => spec_mp3_url(html@) == Some(u@),
            None => spec_mp3_url(html@) is None,
        },
{
    let element = mp3_element(r#"source[type="audio/mpeg"]"#, html);
    let el = match element {
        None => {
            return None;
        },
        Some(el) => el,
    };
    let url = match mp3_element_to_url(el.as_str(), "/media") {
        None => {
            return None;
        },
        Some(u) => u,
    };
    let mut full = chars_of("https://dictionary.cambridge.org");
    let url_chars = chars_of(url.as_str());
    append_chars(&mut full, &url_chars);
    Some(string_of(&full))
}

/// The cleaned definitions of a Cambridge page: every selected definition
/// element that [`crate::scrape::description`] accepts, in page order.
pub fn to_definitions(html: &str) -> (r: Vec<String>)
    ensures
        selector_parses(definition_query()) ==> r@.len() <= selected(
            definition_query(),
            html@,
            true,
        ).len(),
        !selector_parses(definition_query()) ==> r@.len() == 0,
{
    let definitions = elements(r#"div[class="def ddef_d db"]"#, html, true);
    let ghost total = definitions.deep_view().len();
    proof {
        assert(total == definitions@.len());
    }
    let mut cleaned: Vec<String> = Vec::new();
    let mut i: usize = 0;
    while i < definitions.len()
        invariant
            i <= definitions@.len(),
            cleaned@.len() <= i,
            selector_parses(definition_query()) ==> definitions@.len() == selected(
                definition_query(),
                html@,
                true,
            ).len(),
            !selector_parses(definition_query()) ==> definitions@.len() == 0,
        decreases definitions@.len() - i,
    {
        match crate::scrape::description(definitions[i].clone()) {
            Some(d) => cleaned.push(d),
            None => {},
        }
        i = i + 1;
    }
    cleaned
}

} // verus!
