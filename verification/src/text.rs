//! Character and string utilities: the few trusted bridges to `std`'s
//! Unicode-aware character classification and `String::push`, and verified
//! helpers for turning `&str` into `Vec<char>` and back, and for splitting
//! an input text into lines.

use vstd::prelude::*;
use vstd::string::StrSliceExecFns;
use vstd::string::StringExecFns;

verus! {

/// Whether `char::is_whitespace` holds of the character (Unicode `White_Space`).
pub uninterp spec fn white_char(c: char) -> bool;

/// Whether `char::is_alphabetic` holds of the character (Unicode `Alphabetic`).
pub uninterp spec fn alpha_char(c: char) -> bool;

/// Whether `char::is_numeric` holds of the character (Unicode `Number`).
pub uninterp spec fn numeric_char(c: char) -> bool;

/// Whether `char::is_uppercase` holds of the character (Unicode `Uppercase`).
pub uninterp spec fn upper_char(c: char) -> bool;

/// Relies on char::is_whitespace: true exactly on characters with the
/// Unicode White_Space property; on ASCII these are space, tab, line feed,
/// vertical tab, form feed and carriage return.
#[verifier::external_body]
pub fn char_is_white(c: char) -> (r: bool)
    ensures
        r == white_char(c),
        (c as u32) < 128 ==> (r <==> (c == ' ' || c == '\t' || c == '\n' || c == '\u{b}'
            || c == '\u{c}' || c == '\r')),
{
    c.is_whitespace()
}

/// Relies on char::is_alphabetic: true exactly on Unicode alphabetic
/// characters; on ASCII these are the letters 'a'..'z' and 'A'..'Z'.
#[verifier::external_body]
pub fn char_is_alpha(c: char) -> (r: bool)
    ensures
        r == alpha_char(c),
        (c as u32) < 128 ==> (r <==> (('a' <= c && c <= 'z') || ('A' <= c && c <= 'Z'))),
{
    c.is_alphabetic()
}

/// Relies on char::is_numeric: true exactly on Unicode numeric characters;
/// on ASCII these are the digits '0'..'9'.
#[verifier::external_body]
pub fn char_is_numeric(c: char) -> (r: bool)
    ensures
        r == numeric_char(c),
        (c as u32) < 128 ==> (r <==> ('0' <= c && c <= '9')),
{
    c.is_numeric()
}

/// Relies on char::is_uppercase: true exactly on Unicode uppercase
/// characters; on ASCII these are the letters 'A'..'Z'.
#[verifier::external_body]
pub fn char_is_upper(c: char) -> (r: bool)
    ensures
        r == upper_char(c),
        (c as u32) < 128 ==> (r <==> ('A' <= c && c <= 'Z')),
{
    c.is_uppercase()
}

/// Relies on String::push: appends one character at the end of the string.
#[verifier::external_body]
pub fn push_char(s: &mut String, c: char)
    ensures
        final(s)@ == old(s)@.push(c),
{
    s.push(c)
}

/// The characters of the string, in order.
pub fn chars_of(s: &str) -> (v: Vec<char>)
    ensures
        v@ == s@,
{
    let n = s.unicode_len();
    let mut v: Vec<char> = Vec::new();
    let mut i: usize = 0;
    while i < n
        invariant
            n == s@.len(),
            i <= n,
            v@ == s@.subrange(0, i as int),
        decreases n - i,
    {
        let c = s.get_char(i);
        v.push(c);
        i = i + 1;
        proof {
            assert(v@ =~= s@.subrange(0, i as int));
        }
    }
    proof {
        assert(v@ =~= s@);
    }
    v
}

/// A string holding exactly the characters `v[from..to]`.
pub fn string_from_range(v: &Vec<char>, from: usize, to: usize) -> (s: String)
    requires
        from <= to <= v@.len(),
    ensures
        s@ == v@.subrange(from as int, to as int),
{
    let mut s = String::new();
    let mut i: usize = from;
    while i < to
        invariant
            from <= i <= to <= v@.len(),
            s@ == v@.subrange(from as int, i as int),
        decreases to - i,
    {
        push_char(&mut s, v[i]);
        i = i + 1;
        proof {
            assert(s@ =~= v@.subrange(from as int, i as int));
        }
    }
    s
}

/// A string holding exactly the characters of `v`.
pub fn string_of(v: &Vec<char>) -> (s: String)
    ensures
        s@ == v@,
{
    let s = string_from_range(v, 0, v.len());
    proof {
        assert(v@.subrange(0, v@.len() as int) =~= v@);
    }
    s
}

/// A copy of the characters `v[from..to]`.
pub fn vec_from_range(v: &Vec<char>, from: usize, to: usize) -> (r: Vec<char>)
    requires
        from <= to <= v@.len(),
    ensures
        r@ == v@.subrange(from as int, to as int),
{
    let mut r: Vec<char> = Vec::new();
    let mut i: usize = from;
    while i < to
        invariant
            from <= i <= to <= v@.len(),
            r@ == v@.subrange(from as int, i as int),
        decreases to - i,
    {
        r.push(v[i]);
        i = i + 1;
        proof {
            assert(r@ =~= v@.subrange(from as int, i as int));
        }
    }
    r
}

// ---------------------------------------------------------------------------
// Line splitting.
// ---------------------------------------------------------------------------

/// Length of the run of characters other than a line feed starting at
/// `from`.
pub open spec fn nl_run(s: Seq<char>, from: int) -> nat
    decreases s.len() - from,
{
    if from < 0 || from >= s.len() || s[from] == '\n' {
        0
    } else {
        1 + nl_run(s, from + 1)
    }
}

/// A line terminator's optional carriage return is stripped.
pub open spec fn strip_cr(s: Seq<char>) -> Seq<char> {
    if s.len() > 0 && s.last() == '\r' {
        s.drop_last()
    } else {
        s
    }
}

/// The lines of `s` from position `pos` on: split at line feeds, a
/// carriage return before a line feed stripped, and the final line ending
/// optional.
pub open spec fn lines_from(s: Seq<char>, pos: int) -> Seq<Seq<char>>
    decreases s.len() - pos,
{
    if pos < 0 || pos >= s.len() {
        Seq::empty()
    } else {
        let d = nl_run(s, pos);
        let i = pos + d;
        if i >= s.len() {
            seq![s.subrange(pos, s.len() as int)]
        } else {
            seq![strip_cr(s.subrange(pos, i))] + lines_from(s, i + 1)
        }
    }
}

/// The lines of a whole text.
pub open spec fn spec_lines(s: Seq<char>) -> Seq<Seq<char>> {
    lines_from(s, 0)
}

/// The views of a sequence of character vectors.
pub open spec fn vecs_views(s: Seq<Vec<char>>) -> Seq<Seq<char>> {
    s.map_values(|v: Vec<char>| v@)
}

/// Count the run of characters other than a line feed starting at `from`.
fn nl_run_count(v: &Vec<char>, from: usize) -> (r: usize)
    requires
        from <= v@.len(),
    ensures
        r == nl_run(v@, from as int),
        from + r <= v@.len(),
{
    let mut i: usize = from;
    while i < v.len() && v[i] != '\n'
        invariant
            from <= i <= v@.len(),
            nl_run(v@, from as int) == i - from + nl_run(v@, i as int),
        decreases v@.len() - i,
    {
        i = i + 1;
    }
    i - from
}

/// Split a text into its lines, as `spec_lines` says.
pub fn split_lines(v: &Vec<char>) -> (r: Vec<Vec<char>>)
    ensures
        vecs_views(r@) == spec_lines(v@),
{
    let mut r: Vec<Vec<char>> = Vec::new();
    let mut pos: usize = 0;
    proof {
        assert(vecs_views(r@) =~= Seq::<Seq<char>>::empty());
        assert(vecs_views(r@) + lines_from(v@, 0) =~= lines_from(v@, 0));
    }
    while pos < v.len()
        invariant
            pos <= v@.len(),
            vecs_views(r@) + lines_from(v@, pos as int) == spec_lines(v@),
        decreases v@.len() - pos,
    {
        let ghost r0 = vecs_views(r@);
        let d = nl_run_count(v, pos);
        let i = pos + d;
        if i >= v.len() {
            let line = vec_from_range(v, pos, v.len());
            r.push(line);
            proof {
                assert(vecs_views(r@) =~= r0.push(line@));
                assert(vecs_views(r@) + lines_from(v@, v@.len() as int) =~= r0 + lines_from(
                    v@,
                    pos as int,
                ));
            }
            pos = v.len();
        } else {
            let mut line = vec_from_range(v, pos, i);
            if d > 0 && v[i - 1] == '\r' {
                let ghost pre = line@;
                line.pop();
                proof {
                    assert(line@ =~= pre.drop_last());
                }
            }
            proof {
                assert(line@ =~= strip_cr(v@.subrange(pos as int, i as int)));
            }
            r.push(line);
            proof {
                assert(vecs_views(r@) =~= r0.push(line@));
                assert(vecs_views(r@) + lines_from(v@, i + 1) =~= r0 + lines_from(v@, pos as int));
            }
            pos = i + 1;
        }
    }
    proof {
        assert(vecs_views(r@) + lines_from(v@, pos as int) =~= vecs_views(r@));
    }
    r
}

} // verus!
