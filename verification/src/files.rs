//! File-name composition and word-list parsing: the pure text side of the
//! file helpers. Reading and writing files themselves is left to callers.

use crate::text::{
    chars_of, ends_with_in, lines_in, lines_spec, replace_in, spec_replace, string_of, trim_in,
    trim_spec,
};
use crate::utils::{spec_trim_tabs, trim_tabs_chars};
use vstd::prelude::*;

verus! {

/// What [`file_name`] returns: the folder, a slash unless the folder already
/// ends with one, the name, and the extension unless the name already ends
/// with it.
pub open spec fn spec_file_name(folder: Seq<char>, name: Seq<char>, ext: Seq<char>) -> Seq<char> {
    let base = if folder.len() > 0 && folder.last() == '/' {
        folder
    } else {
        folder.push('/')
    };
    let full = base + name;
    if ext.len() <= full.len() && full.skip(full.len() - ext.len()) == ext {
        full
    } else {
        full + ext
    }
}

/// Composes a folder, a file name and an extension into one path-like file
/// name.
pub fn file_name(folder: &str, name: &str, ext: &str) -> (r: String)
    ensures
        r@ == spec_file_name(folder@, name@, ext@),
{
    let mut full = chars_of(folder);
    let ends_in_slash = full.len() > 0 && full[full.len() - 1] == '/';
    if !ends_in_slash {
        full.push('/');
    }
    let ghost base = full@;
    proof {
        assert(base == if folder@.len() > 0 && folder@.last() == '/' {
            folder@
        } else {
            folder@.push('/')
        });
    }
    let name_chars = chars_of(name);
    crate::text::append_chars(&mut full, &name_chars);
    let ghost joined = full@;
    proof {
        assert(joined == base + name@);
    }
    let ext_chars = chars_of(ext);
    if !ends_with_in(&full, &ext_chars) {
        crate::text::append_chars(&mut full, &ext_chars);
    }
    proof {
        assert(full@ == spec_file_name(folder@, name@, ext@));
    }
    string_of(&full)
}

/// One pass of [`split`]: every occurrence of the mark becomes a line
/// break, and the result is trimmed.
pub open spec fn split_step(s: Seq<char>, mark: char) -> Seq<char> {
    trim_spec(spec_replace(s, seq![mark], seq!['\n']))
}

/// What [`split`] returns: nothing for blank text; otherwise the trimmed,
/// space-collapsed text with each splitting mark (comma, semicolon, colon,
/// question mark, exclamation mark, the two slashes and the full stop)
/// turned into a line break, cut into lines.
pub open spec fn spec_split(s: Seq<char>) -> Seq<Seq<char>> {
    if trim_spec(s).len() == 0 {
        Seq::empty()
    } else {
        let t = spec_trim_tabs(trim_spec(s));
        let u = split_step(
            split_step(
                split_step(
                    split_step(
                        split_step(split_step(split_step(split_step(t, ','), ';'), ':'), '?'),
                        '!',
                    ),
                    '/',
                ),
                '\\',
            ),
            '.',
        );
        lines_spec(u)
    }
}

/// One pass of [`split`] over character vectors.
fn split_step_chars(s: &Vec<char>, mark: char) -> (r: Vec<char>)
    ensures
        r@ == split_step(s@, mark),
{
    let mut pat: Vec<char> = Vec::new();
    pat.push(mark);
    let mut nl: Vec<char> = Vec::new();
    nl.push('\n');
    proof {
        assert(pat@ =~= seq![mark]);
        assert(nl@ =~= seq!['\n']);
    }
    let replaced = replace_in(s, &pat, &nl);
    trim_in(&replaced)
}

/// Cuts a text into words and phrases: punctuation marks become line breaks
/// and each resulting line is one entry; blank text yields nothing.
pub fn split(source: &str) -> (r: Vec<String>)
    ensures
        r.deep_view() == spec_split(source@),
{
    let cs = chars_of(source);
    let trimmed = trim_in(&cs);
    if trimmed.len() == 0 {
        let r: Vec<String> = Vec::new();
        proof {
            assert(r.deep_view() =~= Seq::<Seq<char>>::empty());
        }
        return r;
    }
    let tidied = trim_tabs_chars(&trimmed);
    let mut cur = split_step_chars(&tidied, ',');
    cur = split_step_chars(&cur, ';');
    cur = split_step_chars(&cur, ':');
    cur = split_step_chars(&cur, '?');
    cur = split_step_chars(&cur, '!');
    cur = split_step_chars(&cur, '/');
    cur = split_step_chars(&cur, '\\');
    cur = split_step_chars(&cur, '.');
    let line_vecs = lines_in(&cur);
    let mut r: Vec<String> = Vec::new();
    let mut i: usize = 0;
    proof {
        assert(r.deep_view() =~= Seq::<Seq<char>>::empty());
        assert(line_vecs.deep_view().take(0) =~= Seq::<Seq<char>>::empty());
    }
    while i < line_vecs.len()
        invariant
            i <= line_vecs@.len(),
            r.deep_view() == line_vecs.deep_view().take(i as int),
        decreases line_vecs@.len() - i,
    {
        let line = string_of(&line_vecs[i]);
        let ghost prev = r.deep_view();
        r.push(line);
        proof {
            assert(line_vecs@[i as int].deep_view() =~= line_vecs@[i as int]@);
            assert(r.deep_view() =~~= prev.push(line_vecs.deep_view()[i as int]));
            assert(prev.push(line_vecs.deep_view()[i as int]) =~= line_vecs.deep_view().take(
                i + 1,
            ));
        }
        i = i + 1;
    }
    proof {
        assert(line_vecs.deep_view().take(line_vecs@.len() as int) =~= line_vecs.deep_view());
    }
    r
}

} // verus!
