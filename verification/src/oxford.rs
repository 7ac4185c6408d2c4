//! Scraping logic specific to the Oxford dictionary pages: audio links,
//! definitions, and the canonical-link checks that detect redirects and
//! numbered sibling entries.

use crate::scrape::{
    elements, first_element, mp3_element, mp3_element_to_url, selected, selector_parses,
    spec_element_to_url, spec_to_url, to_url,
};
use crate::text::{append_chars, chars_of, contains_in, contains_seq, replace_in, string_of};
use vstd::prelude::*;
use vstd::string::StrSliceExecFns;

verus! {

pub const MP3_QUERY: &'static str = r#"div[class="sound audio_play_button pron-uk icon-audio"]"#;

pub const MP3_START_WITH: &'static str = "https://";

pub const DEFINITION_QUERY: &'static str = r#"div[class="entry"] span[class="def"]"#;

/// The audio query of the Oxford pages.
pub open spec fn mp3_query() -> Seq<char> {
    r#"div[class="sound audio_play_button pron-uk icon-audio"]"#@
}

/// The definition query of the Oxford pages.
pub open spec fn definition_query() -> Seq<char> {
    r#"div[class="entry"] span[class="def"]"#@
}

/// The selector that picks a page's canonical link element.
pub open spec fn canonical_query() -> Seq<char> {
    r#"link[rel="canonical"]"#@
}

/// The base URL of the Oxford entry pages.
pub open spec fn oxford_base() -> Seq<char> {
    "https://www.oxfordlearnersdictionaries.com/definition/english/"@
}

/// What [`mp3_url`] returns: the audio link cut out of the first element
/// the audio query selects, if there is one.
pub open spec fn spec_mp3_url(html: Seq<char>) -> Option<Seq<char>> {
    if selector_parses(mp3_query()) && selected(mp3_query(), html, false).len() > 0 {
        spec_element_to_url(selected(mp3_query(), html, false)[0], "https://"@, ".mp3"@)
    } else {
        None
    }
}

/// The audio link of an Oxford page, if one is present.
pub fn mp3_url(html: &str) -> (r: Option<String>)
    ensures
        match r {
            Some(u) => spec_mp3_url(html@) == Some(u@),
            None => spec_mp3_url(html@) is None,
        },
{
    let element = mp3_element(
        r#"div[class="sound audio_play_button pron-uk icon-audio"]"#,
        html,
    );
    match element {
        None => None,
        Some(el) => mp3_element_to_url(el.as_str(), "https://"),
    }
}

/// The cleaned definitions of an Oxford page: every selected definition
/// element that [`crate::scrape::description`] accepts, in page order.
pub fn to_definitions(html: &str) -> (r: Vec<String>)
    ensures
        selector_parses(definition_query()) ==> r@.len() <= selected(
            definition_query(),
            html@,
            true,
        ).len(),
        !selector_parses(definition_query()) ==> r@.len() == 0,
{
    let definitions = elements(r#"div[class="entry"] span[class="def"]"#, html, true);
    let ghost total = definitions.deep_view().len();
    proof {
        assert(total == definitions@.len());
    }
    let mut cleaned: Vec<String> = Vec::new();
    let mut i: usize = 0;
    while i < definitions.len()
        invariant
            i <= definitions@.len(),
            cleaned@.len() <= i,
            selector_parses(definition_query()) ==> definitions@.len() == selected(
                definition_query(),
                html@,
                true,
            ).len(),
            !selector_parses(definition_query()) ==> definitions@.len() == 0,
        decreases definitions@.len() - i,
    {
        match crate::scrape::description(definitions[i].clone()) {
            Some(d) => cleaned.push(d),
            None => {},
        }
        i = i + 1;
    }
    cleaned
}

/// `u` wrapped in double quotes, as it stands in a canonical link element.
pub open spec fn quoted(u: Seq<char>) -> Seq<char> {
    seq!['"'] + u + seq!['"']
}

/// What [`check_for_redirects`] returns: whether the page's canonical link
/// names a URL other than the one built from the word — nothing canonical
/// found counts as no redirect.
pub open spec fn spec_check_for_redirects(word: Seq<char>, html: Seq<char>) -> bool {
    if selector_parses(canonical_query()) && selected(canonical_query(), html, false).len() > 0 {
        !contains_seq(
            selected(canonical_query(), html, false)[0],
            quoted(spec_to_url(oxford_base(), word)),
        )
    } else {
        false
    }
}

/// Whether an Oxford page redirected away from the word's own URL, read
/// from its canonical link element.
pub fn check_for_redirects(word: &str, html: &str) -> (r: bool)
    ensures
        r == spec_check_for_redirects(word@, html@),
{
    let first = first_element(r#"link[rel="canonical"]"#, html, false);
    match first {
        None => false,
        Some(canonical) => {
            let base_url = to_url(
                "https://www.oxfordlearnersdictionaries.com/definition/english/",
                word,
            );
            let mut expected: Vec<char> = Vec::new();
            expected.push('"');
            let base_chars = chars_of(base_url.as_str());
            append_chars(&mut expected, &base_chars);
            expected.push('"');
            proof {
                assert(expected@ =~= quoted(spec_to_url(oxford_base(), word@)));
            }
            let canonical_chars = chars_of(canonical.as_str());
            !contains_in(&canonical_chars, &expected)
        },
    }
}

/// The canonical link's content together with the word's base URL, when the
/// page has a canonical link that does not name the base URL itself.
pub open spec fn spec_sibling_base(word: Seq<char>, html: Seq<char>) -> Option<
    (Seq<char>, Seq<char>),
> {
    if selector_parses(canonical_query()) && selected(canonical_query(), html, false).len() > 0 {
        let canonical = selected(canonical_query(), html, false)[0];
        let base = spec_to_url(oxford_base(), word);
        if contains_seq(canonical, quoted(base)) {
            None
        } else {
            Some((canonical, base))
        }
    } else {
        None
    }
}

/// What [`check_for_more`] returns: when the canonical link names the
/// word's URL with a numbered suffix, the URL of the next numbered sibling
/// entry; otherwise nothing.
pub open spec fn spec_check_for_more(word: Seq<char>, html: Seq<char>) -> Option<Seq<char>> {
    match spec_sibling_base(word, html) {
        None => None,
        Some((canonical, base)) => {
            if contains_seq(canonical, base + "_1"@) {
                Some(crate::text::spec_replace(base + "_1"@, "_1"@, "_2"@))
            } else if contains_seq(canonical, base + "_2"@) {
                Some(crate::text::spec_replace(base + "_2"@, "_2"@, "_3"@))
            } else if contains_seq(canonical, base + "_3"@) {
                Some(crate::text::spec_replace(base + "_3"@, "_3"@, "_4"@))
            } else {
                None
            }
        },
    }
}

/// The URL of the next numbered sibling entry of an Oxford page, read from
/// its canonical link, if the canonical link names a numbered sibling of
/// the word's own URL.
pub fn check_for_more(word: &str, html: &str) -> (r: Option<String>)
    ensures
        match r {
            Some(u) => spec_check_for_more(word@, html@) == Some(u@),
            None => spec_check_for_more(word@, html@) is None,
        },
{
    let first = first_element(r#"link[rel="canonical"]"#, html, false);
    let canonical = match first {
        None => {
            return None;
        },
        Some(c) => c,
    };
    let base_url = to_url("https://www.oxfordlearnersdictionaries.com/definition/english/", word);
    let base_chars = chars_of(base_url.as_str());
    let mut expected: Vec<char> = Vec::new();
    expected.push('"');
    append_chars(&mut expected, &base_chars);
    expected.push('"');
    proof {
        assert(expected@ =~= quoted(spec_to_url(oxford_base(), word@)));
    }
    let canonical_chars = chars_of(canonical.as_str());
    if contains_in(&canonical_chars, &expected) {
        return None;
    }
    let id1 = chars_of("_1");
    let id2 = chars_of("_2");
    let id3 = chars_of("_3");
    let id4 = chars_of("_4");
    proof {
        reveal_strlit("_1");
        reveal_strlit("_2");
        reveal_strlit("_3");
        reveal_strlit("_4");
    }
    let mut search1 = base_chars.clone();
    append_chars(&mut search1, &id1);
    if contains_in(&canonical_chars, &search1) {
        let next = replace_in(&search1, &id1, &id2);
        return Some(string_of(&next));
    }
    let mut search2 = base_chars.clone();
    append_chars(&mut search2, &id2);
    if contains_in(&canonical_chars, &search2) {
        let next = replace_in(&search2, &id2, &id3);
        return Some(string_of(&next));
    }
    let mut search3 = base_chars.clone();
    append_chars(&mut search3, &id3);
    if contains_in(&canonical_chars, &search3) {
        let next = replace_in(&search3, &id3, &id4);
        return Some(string_of(&next));
    }
    None
}

} // verus!
