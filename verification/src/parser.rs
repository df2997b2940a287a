//! The response parser: extracts a normalized answer token from raw model
//! text using the fixed marker convention the prompt asks for.
//!
//! An answer is announced by the marker `**Answer:`, optionally followed by
//! whitespace, then a shortest non-empty run of non-whitespace characters,
//! then `**`. The parser takes the *last* occurrence in the text (models
//! sometimes restate the format while reasoning before the final answer),
//! and lowercases the extracted token. When no occurrence matches, it
//! returns the empty string, which can never equal a real non-empty
//! solution, so a malformed reply scores as wrong rather than failing.

use vstd::prelude::*;
use vstd::string::*;

verus! {

/// The marker that announces the final answer inside a model reply.
pub open spec fn marker() -> Seq<char> {
    "**Answer:"@
}

/// The whitespace characters recognized between the marker and the answer
/// token.
pub open spec fn is_space_char(c: char) -> bool {
    c == ' ' || c == '\t' || c == '\n' || c == '\r' || c == '\u{b}' || c == '\u{c}'
}

/// The marker occurs in `text` starting at position `p`.
pub open spec fn marker_at(text: Seq<char>, p: int) -> bool {
    &&& 0 <= p
    &&& p + marker().len() <= text.len()
    &&& text.subrange(p, p + marker().len()) == marker()
}

/// The first position at or after `i` holding a non-whitespace character
/// (or the end of the text).
pub open spec fn skip_ws(text: Seq<char>, i: int) -> int
    decreases text.len() - i,
{
    if 0 <= i && i < text.len() && is_space_char(text[i]) {
        skip_ws(text, i + 1)
    } else {
        i
    }
}

/// Scanning from `j`: the first position where the closing `**` begins,
/// provided every character on the way there is non-whitespace; `-1` when
/// whitespace or the end of the text comes first.
pub open spec fn token_end(text: Seq<char>, j: int) -> int
    decreases text.len() - j,
{
    if !(0 <= j && j < text.len()) {
        -1
    } else if j + 2 <= text.len() && text[j] == '*' && text[j + 1] == '*' {
        j
    } else if is_space_char(text[j]) {
        -1
    } else {
        token_end(text, j + 1)
    }
}

/// The bounds of the answer token captured by a marker occurrence at `p`:
/// the marker, then any whitespace, then a shortest non-empty run of
/// non-whitespace characters closed by `**`. `None` when `p` starts no
/// complete occurrence.
pub open spec fn match_capture(text: Seq<char>, p: int) -> Option<(int, int)> {
    if marker_at(text, p) {
        let q = skip_ws(text, p + marker().len());
        if q < text.len() {
            let e = token_end(text, q + 1);
            if e >= 0 {
                Some((q, e))
            } else {
                None
            }
        } else {
            None
        }
    } else {
        None
    }
}

/// A complete marker occurrence starts at `p`.
pub open spec fn has_match_at(text: Seq<char>, p: int) -> bool {
    match_capture(text, p) is Some
}

/// The last position at or before `p` where a complete marker occurrence
/// starts, or `-1` when there is none.
pub open spec fn last_match_from(text: Seq<char>, p: int) -> int
    decreases p + 1,
{
    if p < 0 {
        -1
    } else if has_match_at(text, p) {
        p
    } else {
        last_match_from(text, p - 1)
    }
}

/// What `lowercase` returns: the lowercase equivalent of a string,
/// determined by its characters alone.
pub uninterp spec fn lower_of(s: Seq<char>) -> Seq<char>;

/// Relies on str::to_lowercase: the result depends on the characters of the
/// input alone, and an empty input stays empty.
#[verifier::external_body]
fn lowercase(s: &str) -> (r: String)
    ensures
        r@ == lower_of(s@),
        s@.len() == 0 ==> r@.len() == 0,
{
    s.to_lowercase()
}

/// The normalized answer extracted from `text`: the lowercased token of the
/// last complete marker occurrence, or the empty string when there is none.
pub open spec fn parse_answer_spec(text: Seq<char>) -> Seq<char> {
    let p = last_match_from(text, text.len() - 1);
    if p >= 0 {
        let qe = match_capture(text, p)->Some_0;
        lower_of(text.subrange(qe.0, qe.1))
    } else {
        Seq::<char>::empty()
    }
}

/// Whether `c` is one of the recognized whitespace characters.
fn is_space(c: char) -> (r: bool)
    ensures
        r == is_space_char(c),
{
    c == ' ' || c == '\t' || c == '\n' || c == '\r' || c == '\u{b}' || c == '\u{c}'
}

/// The characters of `s`, in order.
fn chars_of(s: &str) -> (v: Vec<char>)
    ensures
        v@ == s@,
{
    let len = s.unicode_len();
    let mut v: Vec<char> = Vec::new();
    let mut i: usize = 0;
    while i < len
        invariant
            i <= len,
            len == s@.len(),
            v@ == s@.subrange(0, i as int),
        decreases len - i,
    {
        let c = s.get_char(i);
        v.push(c);
        proof {
            assert(s@.subrange(0, i + 1 as int) =~= s@.subrange(0, i as int).push(
                s@[i as int],
            ));
        }
        i = i + 1;
    }
    proof {
        assert(v@ =~= s@);
    }
    v
}

/// Looks for a complete marker occurrence starting at `p`, returning the
/// bounds of the captured token.
fn try_match_at(v: &Vec<char>, p: usize) -> (r: Option<(usize, usize)>)
    requires
        p <= v@.len(),
    ensures
        match r {
            Some(qe) => match_capture(v@, p as int) == Some((qe.0 as int, qe.1 as int))
                && p <= qe.0 < qe.1 && qe.1 + 2 <= v@.len(),
            None => match_capture(v@, p as int) is None,
        },
{
    let m: &str = "**Answer:";
    let mlen: usize = m.unicode_len();
    let vlen: usize = v.len();
    if vlen - p < mlen {
        proof {
            assert(!marker_at(v@, p as int));
        }
        return None;
    }
    proof {
        assert(m@ == marker());
    }
    let mut t: usize = 0;
    while t < mlen
        invariant
            t <= mlen,
            m@ == marker(),
            mlen == marker().len(),
            p + mlen <= v@.len() <= usize::MAX,
            forall|k: int| 0 <= k < t ==> v@[p + k] == marker()[k],
        decreases mlen - t,
    {
        if v[p + t] != m.get_char(t) {
            proof {
                assert(v@.subrange(p as int, p + mlen as int) != marker()) by {
                    assert(v@.subrange(p as int, p + mlen as int)[t as int] != marker()[t as int]);
                }
            }
            return None;
        }
        t = t + 1;
    }
    proof {
        assert(v@.subrange(p as int, p + mlen as int) =~= marker());
        assert(marker_at(v@, p as int));
    }
    let mut q: usize = p + mlen;
    while q < v.len() && is_space(v[q])
        invariant
            p + mlen <= q <= v@.len(),
            mlen == marker().len(),
            skip_ws(v@, p + mlen as int) == skip_ws(v@, q as int),
        decreases v@.len() - q,
    {
        proof {
            assert(skip_ws(v@, q as int) == skip_ws(v@, q + 1 as int));
        }
        q = q + 1;
    }
    proof {
        assert(skip_ws(v@, q as int) == q as int);
        assert(skip_ws(v@, p + marker().len()) == q as int);
    }
    if q >= v.len() {
        return None;
    }
    let mut j: usize = q + 1;
    loop
        invariant
            q + 1 <= j <= v@.len(),
            p + marker().len() <= q < v@.len(),
            token_end(v@, q + 1 as int) == token_end(v@, j as int),
            skip_ws(v@, p + marker().len()) == q as int,
            marker_at(v@, p as int),
        decreases v@.len() - j,
    {
        if j >= v.len() {
            proof {
                assert(token_end(v@, j as int) == -1);
            }
            return None;
        }
        if j + 1 < v.len() {
            if v[j] == '*' && v[j + 1] == '*' {
                proof {
                    assert(token_end(v@, j as int) == j as int);
                }
                return Some((q, j));
            }
        }
        if is_space(v[j]) {
            proof {
                assert(token_end(v@, j as int) == -1);
            }
            return None;
        }
        proof {
            assert(token_end(v@, j as int) == token_end(v@, j + 1 as int));
        }
        j = j + 1;
    }
}

/// Scans the raw model text for the last complete occurrence of the answer
/// marker and returns the lowercased token it announces; returns the empty
/// string when no occurrence matches. The token never contains whitespace,
/// so no further trimming is needed before comparing it to a stored
/// solution.
pub fn parse_answer(raw_text: &str) -> (r: String)
    ensures
        r@ == parse_answer_spec(raw_text@),
{
    let v = chars_of(raw_text);
    let text_len = v.len();
    let mut p: usize = text_len;
    let mut found: bool = false;
    let mut cap_q: usize = 0;
    let mut cap_e: usize = 0;
    while p > 0
        invariant_except_break
            text_len == v@.len(),
            v@ == raw_text@,
            p <= text_len,
            !found,
            last_match_from(v@, text_len as int - 1) == last_match_from(v@, p as int - 1),
        ensures
            v@ == raw_text@,
            found ==> {
                &&& last_match_from(v@, text_len as int - 1) >= 0
                &&& match_capture(v@, last_match_from(v@, text_len as int - 1)) == Some(
                    (cap_q as int, cap_e as int),
                )
                &&& cap_q < cap_e <= v@.len()
            },
            !found ==> last_match_from(v@, text_len as int - 1) == -1,
        decreases p,
    {
        p = p - 1;
        let m = try_match_at(&v, p);
        match m {
            Some(qe) => {
                cap_q = qe.0;
                cap_e = qe.1;
                found = true;
                proof {
                    assert(has_match_at(v@, p as int));
                    assert(last_match_from(v@, p as int) == p as int);
                }
                break ;
            },
            None => {
                proof {
                    assert(!has_match_at(v@, p as int));
                    assert(last_match_from(v@, p as int) == last_match_from(v@, p as int - 1));
                }
            },
        }
    }
    if found {
        let token = raw_text.substring_char(cap_q, cap_e);
        lowercase(token)
    } else {
        proof {
            assert(last_match_from(v@, text_len as int - 1) == -1);
        }
        String::new()
    }
}

/// Every position at or before `p` starts no complete occurrence when the
/// marker appears nowhere in the text.
proof fn lemma_no_match_from(text: Seq<char>, p: int)
    requires
        forall|k: int| !marker_at(text, k),
    ensures
        last_match_from(text, p) == -1,
    decreases p + 1,
{
    if p >= 0 {
        assert(!has_match_at(text, p));
        lemma_no_match_from(text, p - 1);
    }
}

/// Law: text in which the answer marker never occurs always parses to the
/// empty string.
pub proof fn lemma_no_marker_parses_empty(text: Seq<char>)
    requires
        forall|k: int| !marker_at(text, k),
    ensures
        parse_answer_spec(text) == Seq::<char>::empty(),
{
    lemma_no_match_from(text, text.len() - 1);
}

/// Every character scanned on the way to `token_end` is non-whitespace.
proof fn lemma_token_chars_nonspace(text: Seq<char>, j: int)
    requires
        token_end(text, j) >= 0,
    ensures
        forall|i: int| j <= i < token_end(text, j) ==> !is_space_char(#[trigger] text[i]),
    decreases text.len() - j,
{
    if 0 <= j && j < text.len() {
        if j + 2 <= text.len() && text[j] == '*' && text[j + 1] == '*' {
        } else if !is_space_char(text[j]) {
            lemma_token_chars_nonspace(text, j + 1);
        }
    }
}

/// The positions skipped over by `skip_ws` hold whitespace, and the
/// position it stops at does not (unless it is the end of the text).
proof fn lemma_skip_ws_bounds(text: Seq<char>, i: int)
    requires
        0 <= i <= text.len(),
    ensures
        i <= skip_ws(text, i) <= text.len(),
        skip_ws(text, i) < text.len() ==> !is_space_char(text[skip_ws(text, i)]),
    decreases text.len() - i,
{
    if i < text.len() && is_space_char(text[i]) {
        lemma_skip_ws_bounds(text, i + 1);
    }
}

/// Law: a captured answer token contains no whitespace, so trimming it is
/// the identity and the parser may compare it to a solution directly.
pub proof fn lemma_capture_has_no_whitespace(text: Seq<char>, p: int, q: int, e: int)
    requires
        match_capture(text, p) == Some((q, e)),
    ensures
        forall|i: int| q <= i < e ==> !is_space_char(#[trigger] text[i]),
{
    lemma_skip_ws_bounds(text, p + marker().len());
    lemma_token_chars_nonspace(text, q + 1);
}

} // verus!
