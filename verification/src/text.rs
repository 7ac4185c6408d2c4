//! Character-sequence utilities: conversions between `String` and `Vec<char>`,
//! substring search, replacement, trimming and splitting, each specified over
//! `Seq<char>`.

use vstd::prelude::*;
use vstd::string::StrSliceExecFns;

verus! {

/// The sequence of characters that `str::to_lowercase` produces; the result
/// depends on the characters alone.
pub uninterp spec fn lower_of(s: Seq<char>) -> Seq<char>;

/// Relies on str::to_lowercase: the lowercase mapping of the characters,
/// a function of the characters alone.
#[verifier::external_body]
pub fn lowercase(s: &str) -> (r: String)
    ensures
        r@ == lower_of(s@),
{
    s.to_lowercase()
}

/// Whether a character has the Unicode white-space property, as
/// `char::is_whitespace` reports it.
pub uninterp spec fn whitespace(c: char) -> bool;

/// Relies on char::is_whitespace: whether the character counts as white
/// space, a function of the character alone.
#[verifier::external_body]
pub fn is_whitespace_char(c: char) -> (r: bool)
    ensures
        r == whitespace(c),
{
    c.is_whitespace()
}

/// Relies on String::push: appends the given character to the end of the
/// string.
#[verifier::external_body]
fn push_char(s: &mut String, c: char)
    ensures
        final(s)@ == old(s)@.push(c),
{
    s.push(c);
}

/// The characters of a string slice, as a vector.
pub fn chars_of(s: &str) -> (r: Vec<char>)
    ensures
        r@ == s@,
{
    let n = s.unicode_len();
    let mut r: Vec<char> = Vec::new();
    let mut i: usize = 0;
    while i < n
        invariant
            i <= n,
            n == s@.len(),
            r@ == s@.take(i as int),
        decreases n - i,
    {
        r.push(s.get_char(i));
        proof {
            assert(r@ =~= s@.take(i + 1));
        }
        i = i + 1;
    }
    proof {
        assert(s@.take(n as int) =~= s@);
    }
    r
}

/// The string holding exactly the given characters.
pub fn string_of(cs: &Vec<char>) -> (r: String)
    ensures
        r@ == cs@,
{
    let mut r = String::new();
    let mut i: usize = 0;
    while i < cs.len()
        invariant
            i <= cs.len(),
            r@ == cs@.take(i as int),
        decreases cs.len() - i,
    {
        push_char(&mut r, cs[i]);
        proof {
            assert(r@ =~= cs@.take(i + 1));
        }
        i = i + 1;
    }
    proof {
        assert(cs@.take(cs.len() as int) =~= cs@);
    }
    r
}

/// The pattern `p` occurs in `s` at position `i`.
pub open spec fn match_at(s: Seq<char>, i: int, p: Seq<char>) -> bool {
    0 <= i && i + p.len() <= s.len() && s.subrange(i, i + p.len() as int) == p
}

/// The pattern `p` occurs somewhere in `s`.
pub open spec fn contains_seq(s: Seq<char>, p: Seq<char>) -> bool {
    exists|i: int| match_at(s, i, p)
}

/// Whether the characters of `s` at position `i` equal `p`.
fn eq_at(s: &Vec<char>, i: usize, p: &Vec<char>) -> (r: bool)
    requires
        i + p@.len() <= s@.len(),
    ensures
        r == match_at(s@, i as int, p@),
{
    let n = s.len();
    let mut j: usize = 0;
    while j < p.len()
        invariant
            j <= p@.len(),
            i + p@.len() <= s@.len(),
            n == s@.len(),
            forall|k: int| 0 <= k < j ==> s@[i + k] == p@[k],
        decreases p@.len() - j,
    {
        proof {
            assert(i + j < n);
        }
        if s[i + j] != p[j] {
            proof {
                assert(s@.subrange(i as int, i + p@.len() as int)[j as int] == s@[i + j]);
            }
            return false;
        }
        j = j + 1;
    }
    proof {
        assert(s@.subrange(i as int, i + p@.len() as int) =~= p@);
    }
    true
}

/// The position of the first occurrence of `p` in `s`, if any.
pub fn find_in(s: &Vec<char>, p: &Vec<char>) -> (r: Option<usize>)
    ensures
        match r {
            Some(i) => match_at(s@, i as int, p@) && (forall|j: int|
                0 <= j < i ==> !match_at(s@, j, p@)),
            None => !contains_seq(s@, p@),
        },
{
    if p.len() > s.len() {
        proof {
            assert forall|j: int| !match_at(s@, j, p@) by {}
        }
        return None;
    }
    if p.len() == 0 {
        proof {
            assert(s@.subrange(0, 0) =~= p@);
        }
        return Some(0);
    }
    let mut i: usize = 0;
    while p.len() <= s.len() - i
        invariant
            0 < p@.len() <= s@.len(),
            i <= s@.len(),
            forall|j: int| 0 <= j < i ==> !match_at(s@, j, p@),
        decreases s@.len() - i,
    {
        if eq_at(s, i, p) {
            return Some(i);
        }
        i = i + 1;
    }
    proof {
        assert forall|j: int| !match_at(s@, j, p@) by {
            if 0 <= j && j + p@.len() <= s@.len() {
                assert(j < i);
            }
        }
    }
    None
}

/// The position of the first occurrence of `p` in `s`, if any.
pub open spec fn find_seq(s: Seq<char>, p: Seq<char>) -> Option<int>
    decreases s.len(),
{
    if p.len() == 0 {
        Some(0)
    } else if s.len() < p.len() {
        None
    } else if s.take(p.len() as int) == p {
        Some(0)
    } else {
        match find_seq(s.drop_first(), p) {
            Some(i) => Some(i + 1),
            None => None,
        }
    }
}

/// What the first occurrence returned by [`find_seq`] satisfies.
pub proof fn lemma_find_seq(s: Seq<char>, p: Seq<char>)
    ensures
        match find_seq(s, p) {
            Some(i) => match_at(s, i, p) && (forall|j: int| 0 <= j < i ==> !match_at(s, j, p)),
            None => !contains_seq(s, p),
        },
    decreases s.len(),
{
    if p.len() == 0 {
        assert(s.subrange(0, 0) =~= p);
    } else if s.len() < p.len() {
        assert forall|j: int| !match_at(s, j, p) by {}
    } else if s.take(p.len() as int) == p {
        assert(s.subrange(0, p.len() as int) =~= s.take(p.len() as int));
    } else {
        let t = s.drop_first();
        lemma_find_seq(t, p);
        assert forall|j: int| 1 <= j implies (match_at(s, j, p) == match_at(t, j - 1, p)) by {
            if 0 <= j - 1 && j - 1 + p.len() <= t.len() {
                assert(t.subrange(j - 1, j - 1 + p.len() as int) =~= s.subrange(
                    j,
                    j + p.len() as int,
                ));
            }
        }
        assert(!match_at(s, 0, p)) by {
            assert(s.take(p.len() as int) =~= s.subrange(0, p.len() as int));
        }
        match find_seq(t, p) {
            Some(i) => {},
            None => {
                if contains_seq(s, p) {
                    let j = choose|j: int| match_at(s, j, p);
                    assert(match_at(t, j - 1, p));
                }
            },
        }
    }
}

/// The position of the first occurrence of `p` in `s`, as [`find_seq`]
/// gives it.
pub fn find_first(s: &Vec<char>, p: &Vec<char>) -> (r: Option<usize>)
    ensures
        (r is Some) == (find_seq(s@, p@) is Some),
        r matches Some(i) ==> find_seq(s@, p@) == Some(i as int),
{
    let r = find_in(s, p);
    proof {
        lemma_find_seq(s@, p@);
        match r {
            Some(i) => {
                assert(match_at(s@, i as int, p@));
                assert(contains_seq(s@, p@));
            },
            None => {
                if let Some(k) = find_seq(s@, p@) {
                    assert(match_at(s@, k, p@));
                    assert(contains_seq(s@, p@));
                    assert(false);
                }
            },
        }
    }
    r
}

/// Whether `p` occurs in `s`.
pub fn contains_in(s: &Vec<char>, p: &Vec<char>) -> (r: bool)
    ensures
        r == contains_seq(s@, p@),
{
    match find_in(s, p) {
        Some(_) => true,
        None => false,
    }
}

/// Whether `s` begins with `p`.
pub fn starts_with_in(s: &Vec<char>, p: &Vec<char>) -> (r: bool)
    ensures
        r == (p@.len() <= s@.len() && s@.take(p@.len() as int) == p@),
{
    if p.len() > s.len() {
        return false;
    }
    proof {
        assert(s@.take(p@.len() as int) =~= s@.subrange(0, p@.len() as int));
    }
    eq_at(s, 0, p)
}

/// Whether `s` ends with `p`.
pub fn ends_with_in(s: &Vec<char>, p: &Vec<char>) -> (r: bool)
    ensures
        r == (p@.len() <= s@.len() && s@.skip(s@.len() - p@.len()) == p@),
{
    if p.len() > s.len() {
        return false;
    }
    proof {
        assert(s@.skip(s@.len() - p@.len()) =~= s@.subrange(
            s@.len() - p@.len(),
            (s@.len() - p@.len()) + p@.len() as int,
        ));
    }
    eq_at(s, s.len() - p.len(), p)
}

/// Appends all characters of `src` to `dst`.
pub fn append_chars(dst: &mut Vec<char>, src: &Vec<char>)
    ensures
        final(dst)@ == old(dst)@ + src@,
{
    let mut j: usize = 0;
    while j < src.len()
        invariant
            j <= src@.len(),
            dst@ == old(dst)@ + src@.take(j as int),
        decreases src@.len() - j,
    {
        dst.push(src[j]);
        proof {
            assert(old(dst)@ + src@.take(j as int) + seq![src@[j as int]] =~= old(dst)@
                + src@.take(j + 1));
        }
        j = j + 1;
    }
    proof {
        assert(old(dst)@ + src@.take(src@.len() as int) =~= old(dst)@ + src@);
    }
}

/// A copy of the characters of `s` from `a` (inclusive) to `b` (exclusive).
pub fn subrange_chars(s: &Vec<char>, a: usize, b: usize) -> (r: Vec<char>)
    requires
        a <= b <= s@.len(),
    ensures
        r@ == s@.subrange(a as int, b as int),
{
    let mut r: Vec<char> = Vec::new();
    let mut j: usize = a;
    while j < b
        invariant
            a <= j <= b <= s@.len(),
            r@ == s@.subrange(a as int, j as int),
        decreases b - j,
    {
        r.push(s[j]);
        proof {
            assert(s@.subrange(a as int, j as int).push(s@[j as int]) =~= s@.subrange(
                a as int,
                j + 1,
            ));
        }
        j = j + 1;
    }
    r
}

/// `s` with every non-overlapping occurrence of `from`, found left to right,
/// replaced by `to`.
pub open spec fn spec_replace(s: Seq<char>, from: Seq<char>, to: Seq<char>) -> Seq<char>
    decreases s.len(),
        when from.len() > 0
{
    if s.len() < from.len() {
        s
    } else if s.take(from.len() as int) == from {
        to + spec_replace(s.skip(from.len() as int), from, to)
    } else {
        seq![s[0]] + spec_replace(s.drop_first(), from, to)
    }
}

/// Replacement never lengthens the text when the replacement is no longer
/// than the pattern.
pub proof fn lemma_replace_len_le(s: Seq<char>, from: Seq<char>, to: Seq<char>)
    requires
        from.len() > 0,
        to.len() <= from.len(),
    ensures
        spec_replace(s, from, to).len() <= s.len(),
    decreases s.len(),
{
    if s.len() < from.len() {
    } else if s.take(from.len() as int) == from {
        lemma_replace_len_le(s.skip(from.len() as int), from, to);
    } else {
        lemma_replace_len_le(s.drop_first(), from, to);
    }
}

/// Replacement strictly shortens the text when the pattern occurs and the
/// replacement is shorter than the pattern.
pub proof fn lemma_replace_len_lt(s: Seq<char>, from: Seq<char>, to: Seq<char>)
    requires
        from.len() > 0,
        to.len() < from.len(),
        contains_seq(s, from),
    ensures
        spec_replace(s, from, to).len() < s.len(),
    decreases s.len(),
{
    let i = choose|i: int| match_at(s, i, from);
    if s.len() < from.len() {
        assert(false);
    } else if s.take(from.len() as int) == from {
        lemma_replace_len_le(s.skip(from.len() as int), from, to);
    } else {
        if i == 0 {
            assert(s.subrange(0, from.len() as int) =~= s.take(from.len() as int));
            assert(false);
        }
        assert(s.drop_first().subrange(i - 1, i - 1 + from.len() as int) =~= s.subrange(
            i,
            i + from.len() as int,
        ));
        assert(match_at(s.drop_first(), i - 1, from));
        lemma_replace_len_lt(s.drop_first(), from, to);
    }
}

/// `s` with every occurrence of `from` replaced by `to`.
pub fn replace_in(s: &Vec<char>, from: &Vec<char>, to: &Vec<char>) -> (r: Vec<char>)
    requires
        from@.len() > 0,
    ensures
        r@ == spec_replace(s@, from@, to@),
{
    let mut r: Vec<char> = Vec::new();
    let mut i: usize = 0;
    proof {
        assert(s@.skip(0) =~= s@);
    }
    while i < s.len()
        invariant
            i <= s@.len(),
            from@.len() > 0,
            spec_replace(s@, from@, to@) == r@ + spec_replace(s@.skip(i as int), from@, to@),
        decreases s@.len() - i,
    {
        let ghost rest = s@.skip(i as int);
        if from.len() <= s.len() - i && eq_at(s, i, from) {
            let ghost r0 = r@;
            proof {
                assert(rest.take(from@.len() as int) =~= s@.subrange(i as int, i + from@.len() as int));
                assert(rest.skip(from@.len() as int) =~= s@.skip(i + from@.len() as int));
            }
            append_chars(&mut r, to);
            proof {
                assert((r0 + to@) + spec_replace(s@.skip(i + from@.len() as int), from@, to@)
                    =~= r0 + (to@ + spec_replace(s@.skip(i + from@.len() as int), from@, to@)));
            }
            i = i + from.len();
        } else {
            proof {
                if rest.len() >= from@.len() {
                    if rest.take(from@.len() as int) == from@ {
                        assert(s@.subrange(i as int, i + from@.len() as int) =~= rest.take(
                            from@.len() as int,
                        ));
                        assert(false);
                    }
                    assert(rest.drop_first() =~= s@.skip(i + 1));
                    assert(spec_replace(rest, from@, to@) == seq![s@[i as int]] + spec_replace(
                        s@.skip(i + 1),
                        from@,
                        to@,
                    ));
                } else {
                    assert(spec_replace(rest, from@, to@) == rest);
                    assert(rest.drop_first() =~= s@.skip(i + 1));
                    assert(spec_replace(s@.skip(i + 1), from@, to@) == s@.skip(i + 1));
                    assert(rest =~= seq![s@[i as int]] + s@.skip(i + 1));
                }
                assert(r@ + spec_replace(rest, from@, to@) =~= (r@ + seq![s@[i as int]])
                    + spec_replace(s@.skip(i + 1), from@, to@));
            }
            r.push(s[i]);
            i = i + 1;
        }
    }
    proof {
        assert(s@.skip(s@.len() as int).len() == 0);
        assert(r@ + spec_replace(s@.skip(i as int), from@, to@) =~= r@);
    }
    r
}

/// `s` without its leading white space.
pub open spec fn trim_start_spec(s: Seq<char>) -> Seq<char>
    decreases s.len(),
{
    if s.len() > 0 && whitespace(s[0]) {
        trim_start_spec(s.drop_first())
    } else {
        s
    }
}

/// `s` without its trailing white space.
pub open spec fn trim_end_spec(s: Seq<char>) -> Seq<char>
    decreases s.len(),
{
    if s.len() > 0 && whitespace(s.last()) {
        trim_end_spec(s.drop_last())
    } else {
        s
    }
}

/// `s` without leading and trailing white space.
pub open spec fn trim_spec(s: Seq<char>) -> Seq<char> {
    trim_end_spec(trim_start_spec(s))
}

/// `s` without leading and trailing white space.
pub fn trim_in(s: &Vec<char>) -> (r: Vec<char>)
    ensures
        r@ == trim_spec(s@),
{
    let mut a: usize = 0;
    proof {
        assert(s@.skip(0) =~= s@);
    }
    while a < s.len() && is_whitespace_char(s[a])
        invariant
            a <= s@.len(),
            trim_start_spec(s@) == trim_start_spec(s@.skip(a as int)),
        decreases s@.len() - a,
    {
        proof {
            assert(s@.skip(a as int).drop_first() =~= s@.skip(a + 1));
        }
        a = a + 1;
    }
    proof {
        if a < s@.len() {
            assert(trim_start_spec(s@.skip(a as int)) == s@.skip(a as int));
        } else {
            assert(s@.skip(a as int).len() == 0);
        }
        assert(trim_start_spec(s@) == s@.skip(a as int));
    }
    let mut b: usize = s.len();
    while b > a && is_whitespace_char(s[b - 1])
        invariant
            a <= b <= s@.len(),
            trim_end_spec(s@.skip(a as int)) == trim_end_spec(s@.subrange(a as int, b as int)),
        decreases b,
    {
        proof {
            let t = s@.subrange(a as int, b as int);
            assert(t.last() == s@[b - 1]);
            assert(t.drop_last() =~= s@.subrange(a as int, b - 1));
        }
        b = b - 1;
    }
    proof {
        let t = s@.subrange(a as int, b as int);
        if b > a {
            assert(t.last() == s@[b - 1]);
            assert(trim_end_spec(t) == t);
        } else {
            assert(t.len() == 0);
        }
        assert(s@.skip(a as int) =~= s@.subrange(a as int, s@.len() as int));
    }
    subrange_chars(s, a, b)
}

/// The words of `s`: the maximal runs of non-white-space characters, in
/// order, with `cur` the partial word already read.
pub open spec fn split_ws_rec(s: Seq<char>, cur: Seq<char>) -> Seq<Seq<char>>
    decreases s.len(),
{
    if s.len() == 0 {
        if cur.len() == 0 {
            Seq::empty()
        } else {
            seq![cur]
        }
    } else if whitespace(s[0]) {
        if cur.len() == 0 {
            split_ws_rec(s.drop_first(), Seq::empty())
        } else {
            seq![cur] + split_ws_rec(s.drop_first(), Seq::empty())
        }
    } else {
        split_ws_rec(s.drop_first(), cur.push(s[0]))
    }
}

/// The words of `s`, split on white space.
pub open spec fn split_ws_spec(s: Seq<char>) -> Seq<Seq<char>> {
    split_ws_rec(s, Seq::empty())
}

/// The words of `s`, split on white space.
pub fn split_ws_in(s: &Vec<char>) -> (r: Vec<Vec<char>>)
    ensures
        r.deep_view() == split_ws_spec(s@),
{
    let mut r: Vec<Vec<char>> = Vec::new();
    let mut cur: Vec<char> = Vec::new();
    let mut i: usize = 0;
    proof {
        assert(s@.skip(0) =~= s@);
        assert(r.deep_view() =~= Seq::<Seq<char>>::empty());
        assert(Seq::<Seq<char>>::empty() + split_ws_rec(s@, Seq::empty()) =~= split_ws_rec(
            s@,
            Seq::empty(),
        ));
    }
    while i < s.len()
        invariant
            i <= s@.len(),
            split_ws_spec(s@) == r.deep_view() + split_ws_rec(s@.skip(i as int), cur@),
        decreases s@.len() - i,
    {
        let ghost rest = s@.skip(i as int);
        proof {
            assert(rest[0] == s@[i as int]);
            assert(rest.drop_first() =~= s@.skip(i + 1));
        }
        if is_whitespace_char(s[i]) {
            if cur.len() > 0 {
                let word = cur;
                cur = Vec::new();
                let ghost prev = r.deep_view();
                r.push(word);
                proof {
                    assert(r.deep_view() =~~= prev.push(word@));
                    assert(prev + (seq![word@] + split_ws_rec(s@.skip(i + 1), Seq::empty()))
                        =~= prev.push(word@) + split_ws_rec(s@.skip(i + 1), cur@));
                }
            } else {
                proof {
                    assert(cur@ =~= Seq::<char>::empty());
                }
            }
        } else {
            cur.push(s[i]);
        }
        i = i + 1;
    }
    proof {
        assert(s@.skip(i as int).len() == 0);
    }
    if cur.len() > 0 {
        let word = cur;
        let ghost prev = r.deep_view();
        r.push(word);
        proof {
            assert(r.deep_view() =~~= prev.push(word@));
            assert(prev + seq![word@] =~= prev.push(word@));
        }
    } else {
        proof {
            assert(r.deep_view() + Seq::<Seq<char>>::empty() =~= r.deep_view());
        }
    }
    r
}

/// A terminated line's content: `s` without one trailing carriage return.
pub open spec fn strip_cr(s: Seq<char>) -> Seq<char> {
    if s.len() > 0 && s.last() == '\r' {
        s.drop_last()
    } else {
        s
    }
}

/// The lines of `s`, split at line feeds, with a carriage return before a
/// line feed removed; `cur` is the partial line already read.
pub open spec fn lines_rec(s: Seq<char>, cur: Seq<char>) -> Seq<Seq<char>>
    decreases s.len(),
{
    if s.len() == 0 {
        if cur.len() == 0 {
            Seq::empty()
        } else {
            seq![cur]
        }
    } else if s[0] == '\n' {
        seq![strip_cr(cur)] + lines_rec(s.drop_first(), Seq::empty())
    } else {
        lines_rec(s.drop_first(), cur.push(s[0]))
    }
}

/// The lines of `s`.
pub open spec fn lines_spec(s: Seq<char>) -> Seq<Seq<char>> {
    lines_rec(s, Seq::empty())
}

/// The lines of `s`.
pub fn lines_in(s: &Vec<char>) -> (r: Vec<Vec<char>>)
    ensures
        r.deep_view() == lines_spec(s@),
{
    let mut r: Vec<Vec<char>> = Vec::new();
    let mut cur: Vec<char> = Vec::new();
    let mut i: usize = 0;
    proof {
        assert(s@.skip(0) =~= s@);
        assert(r.deep_view() =~= Seq::<Seq<char>>::empty());
        assert(Seq::<Seq<char>>::empty() + lines_rec(s@, Seq::empty()) =~= lines_rec(
            s@,
            Seq::empty(),
        ));
    }
    while i < s.len()
        invariant
            i <= s@.len(),
            lines_spec(s@) == r.deep_view() + lines_rec(s@.skip(i as int), cur@),
        decreases s@.len() - i,
    {
        let ghost rest = s@.skip(i as int);
        proof {
            assert(rest[0] == s@[i as int]);
            assert(rest.drop_first() =~= s@.skip(i + 1));
        }
        if s[i] == '\n' {
            let mut line = cur;
            cur = Vec::new();
            let ghost line0 = line@;
            if line.len() > 0 && line[line.len() - 1] == '\r' {
                let _ = line.pop();
            }
            proof {
                assert(line@ =~= strip_cr(line0));
            }
            let ghost prev = r.deep_view();
            r.push(line);
            proof {
                assert(r.deep_view() =~~= prev.push(strip_cr(line0)));
                assert(prev + (seq![strip_cr(line0)] + lines_rec(s@.skip(i + 1), Seq::empty()))
                    =~= prev.push(strip_cr(line0)) + lines_rec(s@.skip(i + 1), cur@));
            }
        } else {
            cur.push(s[i]);
        }
        i = i + 1;
    }
    proof {
        assert(s@.skip(i as int).len() == 0);
    }
    if cur.len() > 0 {
        let word = cur;
        let ghost prev = r.deep_view();
        r.push(word);
        proof {
            assert(r.deep_view() =~~= prev.push(word@));
            assert(prev + seq![word@] =~= prev.push(word@));
        }
    } else {
        proof {
            assert(r.deep_view() + Seq::<Seq<char>>::empty() =~= r.deep_view());
        }
    }
    r
}

} // verus!
