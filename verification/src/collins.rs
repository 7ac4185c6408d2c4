//! Scraping logic specific to the Collins dictionary pages: audio links and
//! definitions.

use crate::scrape::{
    elements, mp3_element, mp3_element_to_url, selected, selector_parses, spec_element_to_url,
};
use vstd::prelude::*;
use vstd::string::StrSliceExecFns;

verus! {

pub const URL: &'static str = "https://www.collinsdictionary.com/dictionary/english/";

pub const MP3_QUERY: &'static str =
    r#"a[class="hwd_sound sound audio_play_button icon-volume-up ptr"]"#;

pub const MP3_START_WITH: &'static str = "https:";

pub const DEFINITION_QUERY: &'static str = r#"div[class="sense"] div[class="def"]"#;

/// The audio query of the Collins pages.
pub open spec fn mp3_query() -> Seq<char> {
    r#"a[class="hwd_sound sound audio_play_button icon-volume-up ptr"]"#@
}

/// The definition query of the Collins pages.
pub open spec fn definition_query() -> Seq<char> {
    r#"div[class="sense"] div[class="def"]"#@
}

/// What [`mp3_url`] returns: the audio link cut out of the first selected
/// audio element, if there is one.
pub open spec fn spec_mp3_url(html: Seq<char>) -> Option<Seq<char>> {
    if selector_parses(mp3_query()) && selected(mp3_query(), html, false).len() > 0 {
        spec_element_to_url(selected(mp3_query(), html, false)[0], "https:"@, ".mp3"@)
    } else {
        None
    }
}

/// The audio link of a Collins page, if one is present.
pub fn mp3_url(html: &str) -> (r: Option<String>)
    ensures
        match r {
            Some(u) => spec_mp3_url(html@) == Some(u@),
            None => spec_mp3_url(html@) is None,
        },
{
    let element = mp3_element(
        r#"a[class="hwd_sound sound audio_play_button icon-volume-up ptr"]"#,
        html,
    );
    match element {
        None => None,
        Some(el) => mp3_element_to_url(el.as_str(), "https:"),
    }
}

/// The cleaned definitions of a Collins page: every selected definition
/// element that [`crate::scrape::description`] accepts, in page order.
pub fn to_definitions(html: &str) -> (r: Vec<String>)
    ensures
        selector_parses(definition_query()) ==> r@.len() <= selected(
            definition_query(),
            html@,
            true,
        ).len(),
        !selector_parses(definition_query()) ==> r@.len() == 0,
{
    let definitions = elements(r#"div[class="sense"] div[class="def"]"#, html, true);
    let ghost total = definitions.deep_view().len();
    proof {
        assert(total == definitions@.len());
    }
    let mut cleaned: Vec<String> = Vec::new();
    let mut i: usize = 0;
    while i < definitions.len()
        invariant
            i <= definitions@.len(),
            cleaned@.len() <= i,
            selector_parses(definition_query()) ==> definitions@.len() == selected(
                definition_query(),
                html@,
                true,
            ).len(),
            !selector_parses(definition_query()) ==> definitions@.len() == 0,
        decreases definitions@.len() - i,
    {
        match crate::scrape::description(definitions[i].clone()) {
            Some(d) => cleaned.push(d),
            None => {},
        }
        i = i + 1;
    }
    cleaned
}

} // verus!
