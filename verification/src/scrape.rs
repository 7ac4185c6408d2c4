//! Shared dictionary-scraping logic: CSS selection over HTML fragments
//! (through the scraper crate), URL construction, audio-link extraction and
//! definition clean-up. Retrieving pages from the network is left to
//! callers; everything here works on text already in hand.

use crate::error::{DictionaryError, DictionaryErrorKind};
use crate::text::{
    append_chars, chars_of, contains_in, contains_seq, find_first, find_seq, lower_of, lowercase,
    match_at, spec_replace, split_ws_in, split_ws_spec, string_of, subrange_chars,
};
use crate::utils::spec_trim_tabs;
use vstd::prelude::*;
use vstd::string::{StrSliceExecFns, StringExecFns};

verus! {

pub const INVALID: &'static str = "invalid";

pub const SEARCH_FOR: &'static str = "search suggestions for";

pub const NO_RESULTS: &'static str = "sorry, no results for";

pub const PAGE_NOT_FOUND: &'static str = "page not found";

pub const BROWSE_DICTIONARY: &'static str = "browse the english dictionary";

pub const JSON_EXT: &'static str = ".json";

pub const MP3_EXT: &'static str = ".mp3";

pub const HTML_EXT: &'static str = ".html";

/// The dictionary site that a piece of content came from.
#[derive(Debug, Clone, PartialEq, Eq, Structural)]
pub enum Dictionary {
    Collins,
    Cambridge,
    Oxford,
    Undefined,
}

/// The dictionary that the given text names, after lowering and trimming.
pub open spec fn spec_dictionary_from(s: Seq<char>) -> Dictionary {
    let t = crate::text::trim_spec(lower_of(s));
    if t == "cambridge"@ {
        Dictionary::Cambridge
    } else if t == "collins"@ {
        Dictionary::Collins
    } else if t == "oxford"@ {
        Dictionary::Oxford
    } else {
        Dictionary::Undefined
    }
}

impl From<String> for Dictionary {
    fn from(source: String) -> (r: Self) {
        let lowered = lowercase(source.as_str());
        let cs = chars_of(lowered.as_str());
        let trimmed = crate::text::trim_in(&cs);
        let t = string_of(&trimmed);
        if t == String::from_str("cambridge") {
            Dictionary::Cambridge
        } else if t == String::from_str("collins") {
            Dictionary::Collins
        } else if t == String::from_str("oxford") {
            Dictionary::Oxford
        } else {
            Dictionary::Undefined
        }
    }
}

impl vstd::std_specs::convert::FromSpecImpl<String> for Dictionary {
    open spec fn obeys_from_spec() -> bool {
        true
    }

    open spec fn from_spec(t: String) -> Dictionary {
        spec_dictionary_from(t@)
    }
}

/// One dictionary entry: the looked-up word, where it came from, its page
/// and audio links, and its cleaned definitions.
#[derive(Debug, Clone)]
pub struct DictionaryEntry {
    pub source: Dictionary,
    pub url: String,
    pub word: String,
    pub mp3_link: Option<String>,
    pub file: Option<String>,
    pub definitions: Vec<String>,
}

/// The outer or inner HTML of the elements that a CSS selector query picks
/// out of a parsed HTML fragment, in document order; a function of the
/// query, the fragment text and the inner flag alone.
pub uninterp spec fn selected(query: Seq<char>, html: Seq<char>, inner: bool) -> Seq<Seq<char>>;

/// Whether the text parses as a CSS selector group.
pub uninterp spec fn selector_parses(query: Seq<char>) -> bool;

/// Relies on scraper's Selector::parse, Html::parse_fragment and select:
/// the outer or inner HTML of each element the selector matches in the
/// fragment, in document order; nothing when the selector text does not
/// parse.
#[verifier::external_body]
fn select_all(query: &str, html_content: &str, inner: bool) -> (r: Option<Vec<String>>)
    ensures
        (r is Some) == selector_parses(query@),
        r matches Some(v) ==> v.deep_view() == selected(query@, html_content@, inner),
{
    let selector = match scraper::Selector::parse(query) {
        Ok(s) => s,
        Err(_) => return None,
    };
    let fragment = scraper::Html::parse_fragment(html_content);
    let mut all = Vec::new();
    for e in fragment.select(&selector) {
        all.push(if inner { e.inner_html() } else { e.html() });
    }
    Some(all)
}

/// Every element that the query selects in the content; a query that does
/// not parse as a selector yields nothing.
pub fn elements(query: &str, html_content: &str, inner: bool) -> (r: Vec<String>)
    ensures
        selector_parses(query@) ==> r.deep_view() == selected(query@, html_content@, inner),
        !selector_parses(query@) ==> r.deep_view() == Seq::<Seq<char>>::empty(),
{
    match select_all(query, html_content, inner) {
        Some(v) => v,
        None => {
            let r: Vec<String> = Vec::new();
            proof {
                assert(r.deep_view() =~= Seq::<Seq<char>>::empty());
            }
            r
        },
    }
}

/// The first element that the query selects in the content, if any.
pub fn first_element(query: &str, html_content: &str, inner: bool) -> (r: Option<String>)
    ensures
        (r is Some) == (selector_parses(query@) && selected(query@, html_content@, inner).len()
            > 0),
        r matches Some(s) ==> s@ == selected(query@, html_content@, inner)[0],
{
    let mut all = elements(query, html_content, inner);
    let ghost sel = all.deep_view();
    proof {
        assert(sel.len() == all@.len());
        if selector_parses(query@) {
            assert(sel == selected(query@, html_content@, inner));
        } else {
            assert(sel.len() == 0);
        }
    }
    if all.len() > 0 {
        let first = all.remove(0);
        proof {
            assert(first@ == sel[0]);
        }
        Some(first)
    } else {
        None
    }
}

/// The first element that an audio query selects, as outer HTML.
pub fn mp3_element(mp3_query: &str, html_content: &str) -> (r: Option<String>)
    ensures
        (r is Some) == (selector_parses(mp3_query@) && selected(
            mp3_query@,
            html_content@,
            false,
        ).len() > 0),
        r matches Some(s) ==> s@ == selected(mp3_query@, html_content@, false)[0],
{
    first_element(mp3_query, html_content, false)
}

/// What [`to_url`] returns: the lowered base URL and tidied word, or the
/// word `invalid` when either part is empty.
pub open spec fn spec_to_url(base_url: Seq<char>, word: Seq<char>) -> Seq<char> {
    if word.len() == 0 || base_url.len() == 0 {
        lower_of("invalid"@)
    } else {
        lower_of(base_url + crate::utils::spec_replace_tabs(spec_trim_tabs(word), "-"@))
    }
}

/// Composes a dictionary page URL from a base URL and a word: the word is
/// tidied, its spaces become dashes, and the whole URL is lowered.
pub fn to_url(base_url: &str, word: &str) -> (r: String)
    ensures
        r@ == spec_to_url(base_url@, word@),
{
    if word.is_empty() {
        return lowercase("invalid");
    }
    if base_url.is_empty() {
        return lowercase("invalid");
    }
    let trimmed = crate::utils::trim_tabs(word);
    let processed = crate::utils::replace_tabs(trimmed.as_str(), "-");
    let mut url_chars = chars_of(base_url);
    let processed_chars = chars_of(processed.as_str());
    append_chars(&mut url_chars, &processed_chars);
    let url = string_of(&url_chars);
    lowercase(url.as_str())
}

/// The first piece holding both markers, scanned left to right.
pub open spec fn first_with_markers(
    pieces: Seq<Seq<char>>,
    s: Seq<char>,
    e: Seq<char>,
) -> Option<Seq<char>>
    decreases pieces.len(),
{
    if pieces.len() == 0 {
        None
    } else if contains_seq(pieces[0], s) && contains_seq(pieces[0], e) {
        Some(pieces[0])
    } else {
        first_with_markers(pieces.drop_first(), s, e)
    }
}

/// The piece of the source that [`element_to_url`] inspects: the first
/// piece holding both markers, or the very first piece when none does.
pub open spec fn choose_piece(
    pieces: Seq<Seq<char>>,
    s: Seq<char>,
    e: Seq<char>,
) -> Option<Seq<char>> {
    match first_with_markers(pieces, s, e) {
        Some(p) => Some(p),
        None => if pieces.len() > 0 {
            Some(pieces[0])
        } else {
            None
        },
    }
}

/// What [`element_to_url`] returns: the chosen white-space-separated piece
/// of the source, cut from its start marker to the end of its end marker
/// and lowered; nothing when the source has no pieces, the chosen piece
/// lacks a marker, or the end marker ends before the start marker begins.
pub open spec fn spec_element_to_url(
    source: Seq<char>,
    start_with: Seq<char>,
    end_with: Seq<char>,
) -> Option<Seq<char>> {
    match choose_piece(split_ws_spec(source), start_with, end_with) {
        None => None,
        Some(piece) => match (find_seq(piece, start_with), find_seq(piece, end_with)) {
            (Some(a), Some(b)) => {
                let endpos = b + end_with.len();
                if a <= endpos {
                    Some(lower_of(piece.subrange(a, endpos)))
                } else {
                    None
                }
            },
            _ => None,
        },
    }
}

/// Cuts a link out of an element's text: among the white-space-separated
/// pieces, the first that holds both markers (or the first at all), from
/// the start marker to the end of the end marker, lowered.
pub fn element_to_url(source: &str, start_with: &str, end_with: &str) -> (r: Option<String>)
    ensures
        match r {
            Some(u) => spec_element_to_url(source@, start_with@, end_with@) == Some(u@),
            None => spec_element_to_url(source@, start_with@, end_with@) is None,
        },
{
    let source_chars = chars_of(source);
    let pieces = split_ws_in(&source_chars);
    let ghost ps = pieces.deep_view();
    let s_chars = chars_of(start_with);
    let e_chars = chars_of(end_with);
    let mut chosen: usize = 0;
    let mut found = false;
    let mut i: usize = 0;
    proof {
        assert(ps.skip(0) =~= ps);
        assert(ps.len() == pieces@.len());
    }
    while !found && i < pieces.len()
        invariant
            i <= ps.len(),
            ps == pieces.deep_view(),
            ps.len() == pieces@.len(),
            !found ==> first_with_markers(ps, s_chars@, e_chars@) == first_with_markers(
                ps.skip(i as int),
                s_chars@,
                e_chars@,
            ),
            found ==> chosen < ps.len() && first_with_markers(ps, s_chars@, e_chars@) == Some(
                ps[chosen as int],
            ),
        decreases ps.len() - i, (if found { 0int } else { 1int }),
    {
        let ghost rest = ps.skip(i as int);
        proof {
            assert(rest[0] == ps[i as int]);
            assert(rest.drop_first() =~= ps.skip(i + 1));
            assert(pieces@[i as int].deep_view() =~= pieces@[i as int]@);
            assert(ps[i as int] == pieces@[i as int]@);
        }
        if contains_in(&pieces[i], &s_chars) && contains_in(&pieces[i], &e_chars) {
            found = true;
            chosen = i;
        } else {
            i = i + 1;
        }
    }
    if !found {
        proof {
            assert(ps.skip(i as int).len() == 0);
        }
        if pieces.len() == 0 {
            return None;
        }
        chosen = 0;
    }
    let piece = &pieces[chosen];
    let ghost piece_seq = ps[chosen as int];
    proof {
        assert(pieces@[chosen as int].deep_view() =~= pieces@[chosen as int]@);
        assert(piece@ == piece_seq);
        assert(choose_piece(ps, s_chars@, e_chars@) == Some(piece_seq));
    }
    let a = match find_first(piece, &s_chars) {
        Some(a) => a,
        None => {
            return None;
        },
    };
    let b = match find_first(piece, &e_chars) {
        Some(b) => b,
        None => {
            return None;
        },
    };
    let n = piece.len();
    proof {
        crate::text::lemma_find_seq(piece@, e_chars@);
        crate::text::lemma_find_seq(piece@, s_chars@);
        assert(match_at(piece@, b as int, e_chars@));
        assert(b + e_chars@.len() <= n);
    }
    let endpos = b + e_chars.len();
    if a <= endpos {
        let cut = subrange_chars(piece, a, endpos);
        let cut_str = string_of(&cut);
        Some(lowercase(cut_str.as_str()))
    } else {
        None
    }
}

/// Cuts an audio link out of an element's text: from the start marker to
/// the end of the audio file extension.
pub fn mp3_element_to_url(source: &str, start_with: &str) -> (r: Option<String>)
    ensures
        match r {
            Some(u) => spec_element_to_url(source@, start_with@, ".mp3"@) == Some(u@),
            None => spec_element_to_url(source@, start_with@, ".mp3"@) is None,
        },
{
    element_to_url(source, start_with, ".mp3")
}

/// Whether downloaded content is one of the dictionary sites' not-found
/// pages: its lowered text holds one of the four not-found markers.
pub open spec fn spec_is_not_found_page(content: Seq<char>) -> bool {
    ||| contains_seq(lower_of(content), "sorry, no results for"@)
    ||| contains_seq(lower_of(content), "page not found"@)
    ||| contains_seq(lower_of(content), "search suggestions for"@)
    ||| contains_seq(lower_of(content), "browse the english dictionary"@)
}

/// Whether downloaded content is one of the dictionary sites' not-found
/// pages rather than an entry.
pub fn is_not_found_page(content: &str) -> (r: bool)
    ensures
        r == spec_is_not_found_page(content@),
{
    let lowered = lowercase(content);
    let lc = chars_of(lowered.as_str());
    let m1 = chars_of("sorry, no results for");
    let m2 = chars_of("page not found");
    let m3 = chars_of("search suggestions for");
    let m4 = chars_of("browse the english dictionary");
    contains_in(&lc, &m1) || contains_in(&lc, &m2) || contains_in(&lc, &m3) || contains_in(
        &lc,
        &m4,
    )
}

/// The opening tag marker for a tag name.
pub open spec fn open_tag_of(tag: Seq<char>) -> Seq<char> {
    seq!['<'] + tag
}

/// The closing tag marker for a tag name.
pub open spec fn close_tag_of(tag: Seq<char>) -> Seq<char> {
    seq!['<', '/'] + tag + seq!['>']
}

/// Flattens nested `tag` elements in a fragment by repeatedly replacing the
/// first tagged span with its inner HTML as the scraper crate parses it.
/// On success the result no longer holds a complete `tag` element; a
/// fragment without one is returned as it is. A span whose close marker
/// ends before its open marker begins, a fragment the scraper finds no
/// element in, and a fragment still tagged after as many passes as the
/// input has characters are reported as invalid data.
pub fn inner_text(inner_html: String, tag: &str) -> (r: Result<String, DictionaryError>)
    ensures
        r matches Ok(s) ==> !(contains_seq(s@, open_tag_of(tag@)) && contains_seq(
            s@,
            close_tag_of(tag@),
        )),
        !(contains_seq(inner_html@, open_tag_of(tag@)) && contains_seq(
            inner_html@,
            close_tag_of(tag@),
        )) ==> r == Ok::<String, DictionaryError>(inner_html),
        r matches Err(e) ==> e.error_kind == DictionaryErrorKind::InvalidData,
{
    let tag_chars = chars_of(tag);
    let mut open_chars: Vec<char> = Vec::new();
    open_chars.push('<');
    append_chars(&mut open_chars, &tag_chars);
    let mut close_chars: Vec<char> = Vec::new();
    close_chars.push('<');
    close_chars.push('/');
    append_chars(&mut close_chars, &tag_chars);
    close_chars.push('>');
    proof {
        assert(open_chars@ =~= open_tag_of(tag@));
        assert(close_chars@ =~= close_tag_of(tag@));
    }
    let mut replaced_chars = chars_of(inner_html.as_str());
    if !(contains_in(&replaced_chars, &open_chars) && contains_in(&replaced_chars, &close_chars)) {
        return Ok(inner_html);
    }
    let mut fuel = replaced_chars.len();
    while fuel > 0 && contains_in(&replaced_chars, &open_chars) && contains_in(
        &replaced_chars,
        &close_chars,
    )
        invariant
            open_chars@ == open_tag_of(tag@),
            close_chars@ == close_tag_of(tag@),
            contains_seq(inner_html@, open_tag_of(tag@)),
            contains_seq(inner_html@, close_tag_of(tag@)),
        decreases fuel,
    {
        let start = match find_first(&replaced_chars, &open_chars) {
            Some(a) => a,
            None => {
                proof {
                    crate::text::lemma_find_seq(replaced_chars@, open_chars@);
                    assert(false);
                }
                return Err(
                    DictionaryError::throw(
                        "unable.to.parse.definition",
                        DictionaryErrorKind::InvalidData,
                    ),
                );
            },
        };
        let close_found = match find_first(&replaced_chars, &close_chars) {
            Some(b) => b,
            None => {
                proof {
                    crate::text::lemma_find_seq(replaced_chars@, close_chars@);
                    assert(false);
                }
                return Err(
                    DictionaryError::throw(
                        "unable.to.parse.definition",
                        DictionaryErrorKind::InvalidData,
                    ),
                );
            },
        };
        let n = replaced_chars.len();
        proof {
            crate::text::lemma_find_seq(replaced_chars@, close_chars@);
            assert(match_at(replaced_chars@, close_found as int, close_chars@));
            assert(close_found + close_chars@.len() <= n);
        }
        let span_end = close_found + close_chars.len();
        if start < span_end {
            let span = subrange_chars(&replaced_chars, start, span_end);
            let current = string_of(&replaced_chars);
            match first_element(tag, current.as_str(), true) {
                None => {
                    return Err(
                        DictionaryError::throw(
                            "unable.to.parse.definition",
                            DictionaryErrorKind::InvalidData,
                        ),
                    );
                },
                Some(inner) => {
                    let inner_chars = chars_of(inner.as_str());
                    proof {
                        assert(span@.len() > 0);
                    }
                    replaced_chars = crate::text::replace_in(
                        &replaced_chars,
                        &span,
                        &inner_chars,
                    );
                },
            }
        } else {
            return Err(
                DictionaryError::throw(
                    "unable.to.parse.definition",
                    DictionaryErrorKind::InvalidData,
                ),
            );
        }
        fuel = fuel - 1;
    }
    if contains_in(&replaced_chars, &open_chars) && contains_in(&replaced_chars, &close_chars) {
        return Err(
            DictionaryError::throw("unable.to.parse.definition", DictionaryErrorKind::InvalidData),
        );
    }
    Ok(string_of(&replaced_chars))
}

/// What [`description`] does to a flattened fragment: line breaks become
/// spaces, spacing is tidied, and a space before a full stop is dropped.
pub open spec fn spec_tidy_description(s: Seq<char>) -> Seq<char> {
    spec_replace(
        spec_trim_tabs(spec_replace(s, seq!['\n'], seq![' '])),
        seq![' ', '.'],
        seq!['.'],
    )
}

/// A cleaned definition: anchor and span elements are flattened to their
/// inner text, then line breaks and spacing are tidied. Nothing when the
/// fragment cannot be flattened. For a fragment without anchor or span
/// elements the result is exactly the tidied fragment.
pub fn description(inner_html: String) -> (r: Option<String>)
    ensures
        (!(contains_seq(inner_html@, open_tag_of("a"@)) && contains_seq(
            inner_html@,
            close_tag_of("a"@),
        )) && !(contains_seq(inner_html@, open_tag_of("span"@)) && contains_seq(
            inner_html@,
            close_tag_of("span"@),
        ))) ==> (r matches Some(s) && s@ == spec_tidy_description(inner_html@)),
{
    let flattened = match inner_text(inner_html, "a") {
        Ok(x) => x,
        Err(_) => {
            return None;
        },
    };
    let flattened = match inner_text(flattened, "span") {
        Ok(x) => x,
        Err(_) => {
            return None;
        },
    };
    let cs = chars_of(flattened.as_str());
    let mut nl: Vec<char> = Vec::new();
    nl.push('\n');
    let mut space: Vec<char> = Vec::new();
    space.push(' ');
    let mut space_dot: Vec<char> = Vec::new();
    space_dot.push(' ');
    space_dot.push('.');
    let mut dot: Vec<char> = Vec::new();
    dot.push('.');
    proof {
        assert(nl@ =~= seq!['\n']);
        assert(space@ =~= seq![' ']);
        assert(space_dot@ =~= seq![' ', '.']);
        assert(dot@ =~= seq!['.']);
    }
    let unbroken = crate::text::replace_in(&cs, &nl, &space);
    let tidied = crate::utils::trim_tabs_chars(&unbroken);
    let fixed = crate::text::replace_in(&tidied, &space_dot, &dot);
    Some(string_of(&fixed))
}

/// Appends every definition of `more` to `base`, leaving everything else of
/// `base` as it was.
pub fn merge_definitions_into(base: &mut DictionaryEntry, more: DictionaryEntry)
    ensures
        final(base).definitions@ == old(base).definitions@ + more.definitions@,
        final(base).source == old(base).source,
        final(base).url == old(base).url,
        final(base).word == old(base).word,
        final(base).mp3_link == old(base).mp3_link,
        final(base).file == old(base).file,
{
    let mut defs = more.definitions;
    base.definitions.append(&mut defs);
}

} // verus!
