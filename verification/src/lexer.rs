//! Low-level text matchers: whitespace skipping, identifier
//! recognition, keyword lookup and substring search.
//!
//! Every matcher works on a position inside a `&str`, measured in
//! characters, and has a specification-level twin that defines its
//! result exactly.

use vstd::prelude::*;

use crate::is_space;
use crate::is_ident_start;
use crate::is_ident_char;

verus! {

/// The first position at or after `i` that does not hold whitespace
/// (or the end of the text).
pub open spec fn skip_ws_spec(s: Seq<char>, i: int) -> int
    decreases s.len() - i,
{
    if i < s.len() && is_space(s[i]) {
        skip_ws_spec(s, i + 1)
    } else {
        i
    }
}

pub proof fn lemma_skip_ws_bounds(s: Seq<char>, i: int)
    requires
        0 <= i <= s.len(),
    ensures
        i <= skip_ws_spec(s, i) <= s.len(),
    decreases s.len() - i,
{
    if i < s.len() && is_space(s[i]) {
        lemma_skip_ws_bounds(s, i + 1);
    }
}

/// Executable whitespace skipper; returns exactly the position that
/// `skip_ws_spec` names.
pub fn skip_ws(s: &str, i: usize) -> (j: usize)
    requires
        i <= s@.len(),
    ensures
        j == skip_ws_spec(s@, i as int),
        i <= j <= s@.len(),
{
    let n = s.unicode_len();
    let mut j = i;
    while j < n && is_space_exec(s.get_char(j))
        invariant
            i <= j <= n,
            n == s@.len(),
            skip_ws_spec(s@, i as int) == skip_ws_spec(s@, j as int),
        decreases n - j,
    {
        j = j + 1;
    }
    j
}

fn is_space_exec(c: char) -> (r: bool)
    ensures
        r == is_space(c),
{
    c == ' ' || c == '\t' || c == '\n' || c == '\r'
}

fn is_ident_char_exec(c: char) -> (r: bool)
    ensures
        r == is_ident_char(c),
{
    ('a' <= c && c <= 'z') || ('A' <= c && c <= 'Z') || c == '_' || ('0' <= c && c <= '9')
}

/// The end of the run of identifier characters that starts at `i`.
pub open spec fn ident_end(s: Seq<char>, i: int) -> int
    decreases s.len() - i,
{
    if i < s.len() && is_ident_char(s[i]) {
        ident_end(s, i + 1)
    } else {
        i
    }
}

pub proof fn lemma_ident_end(s: Seq<char>, i: int)
    requires
        0 <= i <= s.len(),
    ensures
        i <= ident_end(s, i) <= s.len(),
        forall|k: int| i <= k < ident_end(s, i) ==> is_ident_char(#[trigger] s[k]),
    decreases s.len() - i,
{
    if i < s.len() && is_ident_char(s[i]) {
        lemma_ident_end(s, i + 1);
    }
}

/// Where the identifier starting at `i` ends, or `None` if no
/// identifier starts there.
pub open spec fn parse_ident_spec(s: Seq<char>, i: int) -> Option<int> {
    if i < s.len() && is_ident_start(s[i]) {
        Some(ident_end(s, i + 1))
    } else {
        None
    }
}

pub proof fn lemma_parse_ident(s: Seq<char>, i: int)
    requires
        0 <= i <= s.len(),
    ensures
        match parse_ident_spec(s, i) {
            Some(j) => i < j <= s.len() && crate::types::valid_ident(s.subrange(i, j)),
            None => true,
        },
{
    if i < s.len() && is_ident_start(s[i]) {
        lemma_ident_end(s, i + 1);
        let j = ident_end(s, i + 1);
        let id = s.subrange(i, j);
        assert(id[0] == s[i]);
        assert(forall|k: int| 0 <= k < id.len() ==> #[trigger] id[k] == s[i + k]);
    }
}

/// Executable identifier recognizer; mirrors `parse_ident_spec`.
pub fn parse_ident(s: &str, i: usize) -> (r: Option<usize>)
    requires
        i <= s@.len(),
    ensures
        match r {
            Some(j) => parse_ident_spec(s@, i as int) == Some(j as int) && i < j <= s@.len(),
            None => parse_ident_spec(s@, i as int) is None,
        },
{
    let n = s.unicode_len();
    if i < n && is_ident_start_exec(s.get_char(i)) {
        let mut j = i + 1;
        while j < n && is_ident_char_exec(s.get_char(j))
            invariant
                i < j <= n,
                n == s@.len(),
                ident_end(s@, i + 1) == ident_end(s@, j as int),
            decreases n - j,
        {
            j = j + 1;
        }
        Some(j)
    } else {
        None
    }
}

fn is_ident_start_exec(c: char) -> (r: bool)
    ensures
        r == is_ident_start(c),
{
    ('a' <= c && c <= 'z') || ('A' <= c && c <= 'Z') || c == '_'
}

/// The keyword `interface` stands at position `i`.
pub open spec fn interface_at(s: Seq<char>, i: int) -> bool {
    &&& 0 <= i
    &&& i + 9 <= s.len()
    &&& s[i] == 'i'
    &&& s[i + 1] == 'n'
    &&& s[i + 2] == 't'
    &&& s[i + 3] == 'e'
    &&& s[i + 4] == 'r'
    &&& s[i + 5] == 'f'
    &&& s[i + 6] == 'a'
    &&& s[i + 7] == 'c'
    &&& s[i + 8] == 'e'
}

/// The keyword `type` stands at position `i`.
pub open spec fn type_at(s: Seq<char>, i: int) -> bool {
    &&& 0 <= i
    &&& i + 4 <= s.len()
    &&& s[i] == 't'
    &&& s[i + 1] == 'y'
    &&& s[i + 2] == 'p'
    &&& s[i + 3] == 'e'
}

/// One of the two declaration keywords stands at position `i`.
pub open spec fn kw_at(s: Seq<char>, i: int) -> bool {
    interface_at(s, i) || type_at(s, i)
}

pub fn interface_at_exec(s: &str, i: usize) -> (r: bool)
    requires
        i <= s@.len(),
    ensures
        r == interface_at(s@, i as int),
{
    let n = s.unicode_len();
    if n - i < 9 {
        return false;
    }
    s.get_char(i) == 'i' && s.get_char(i + 1) == 'n' && s.get_char(i + 2) == 't' && s.get_char(
        i + 3,
    ) == 'e' && s.get_char(i + 4) == 'r' && s.get_char(i + 5) == 'f' && s.get_char(i + 6) == 'a'
        && s.get_char(i + 7) == 'c' && s.get_char(i + 8) == 'e'
}

pub fn type_at_exec(s: &str, i: usize) -> (r: bool)
    requires
        i <= s@.len(),
    ensures
        r == type_at(s@, i as int),
{
    let n = s.unicode_len();
    if n - i < 4 {
        return false;
    }
    s.get_char(i) == 't' && s.get_char(i + 1) == 'y' && s.get_char(i + 2) == 'p' && s.get_char(
        i + 3,
    ) == 'e'
}

/// The first position at or after `i` where a declaration keyword
/// stands, if any.
pub open spec fn find_kw_spec(s: Seq<char>, i: int) -> Option<int>
    decreases s.len() - i,
{
    if i >= s.len() {
        None
    } else if kw_at(s, i) {
        Some(i)
    } else {
        find_kw_spec(s, i + 1)
    }
}

pub proof fn lemma_find_kw(s: Seq<char>, i: int)
    requires
        0 <= i <= s.len(),
    ensures
        match find_kw_spec(s, i) {
            Some(j) => i <= j && j + 4 <= s.len() && kw_at(s, j) && forall|k: int|
                i <= k < j ==> !kw_at(s, k),
            None => forall|k: int| i <= k < s.len() ==> !kw_at(s, k),
        },
    decreases s.len() - i,
{
    if i < s.len() && !kw_at(s, i) {
        lemma_find_kw(s, i + 1);
    }
}

/// Executable keyword search; mirrors `find_kw_spec`.
pub fn find_kw(s: &str, i: usize) -> (r: Option<usize>)
    requires
        i <= s@.len(),
    ensures
        match r {
            Some(j) => find_kw_spec(s@, i as int) == Some(j as int) && i <= j && j + 4 <= s@.len(),
            None => find_kw_spec(s@, i as int) is None,
        },
{
    let n = s.unicode_len();
    let mut j = i;
    while j < n
        invariant
            i <= j <= n,
            n == s@.len(),
            find_kw_spec(s@, i as int) == find_kw_spec(s@, j as int),
        decreases n - j,
    {
        if interface_at_exec(s, j) || type_at_exec(s, j) {
            proof {
                lemma_find_kw(s@, j as int);
            }
            return Some(j);
        }
        j = j + 1;
    }
    None
}

/// The first position at or after `i` that holds a double quote.
pub open spec fn find_quote_spec(s: Seq<char>, i: int) -> Option<int>
    decreases s.len() - i,
{
    if i >= s.len() {
        None
    } else if s[i] == '"' {
        Some(i)
    } else {
        find_quote_spec(s, i + 1)
    }
}

/// What a leading double-quoted run of text matches: the text between
/// the first quote and the next one, and the remainder after the
/// closing quote. `None` when the text does not start with a quote or
/// no quote closes it.
pub open spec fn unquote_spec(s: Seq<char>) -> Option<(Seq<char>, Seq<char>)> {
    if s.len() > 0 && s[0] == '"' {
        match find_quote_spec(s, 1) {
            Some(j) => Some((s.subrange(1, j), s.subrange(j + 1, s.len() as int))),
            None => None,
        }
    } else {
        None
    }
}

/// Splits a leading double-quoted run off a text: the matched content
/// and the unconsumed remainder, exactly as `unquote_spec` names them.
pub fn unquote(s: &str) -> (r: Option<(String, String)>)
    ensures
        match r {
            Some((matched, rest)) => unquote_spec(s@) == Some((matched@, rest@)),
            None => unquote_spec(s@) is None,
        },
{
    let n = s.unicode_len();
    if n == 0 || s.get_char(0) != '"' {
        return None;
    }
    let mut j: usize = 1;
    while j < n && s.get_char(j) != '"'
        invariant
            1 <= j <= n,
            n == s@.len(),
            find_quote_spec(s@, 1) == find_quote_spec(s@, j as int),
        decreases n - j,
    {
        j = j + 1;
    }
    if j >= n {
        return None;
    }
    let matched = s.substring_char(1, j).to_owned();
    let rest = s.substring_char(j + 1, n).to_owned();
    Some((matched, rest))
}

/// The needle stands in the haystack at position `i`.
pub open spec fn occurs_at(hay: Seq<char>, needle: Seq<char>, i: int) -> bool {
    0 <= i && i + needle.len() <= hay.len() && hay.subrange(i, i + needle.len()) == needle
}

/// The needle stands somewhere in the haystack.
pub open spec fn contains_seq(hay: Seq<char>, needle: Seq<char>) -> bool {
    exists|i: int| occurs_at(hay, needle, i)
}

/// Substring search: whether `needle` occurs anywhere in `hay`.
pub fn contains_substring(hay: &str, needle: &str) -> (r: bool)
    ensures
        r == contains_seq(hay@, needle@),
{
    let n = hay.unicode_len();
    let m = needle.unicode_len();
    if m > n {
        proof {
            assert(forall|i: int| !occurs_at(hay@, needle@, i));
        }
        return false;
    }
    if m == 0 {
        proof {
            assert(hay@.subrange(0, 0) =~= needle@);
            assert(occurs_at(hay@, needle@, 0));
        }
        return true;
    }
    let mut i: usize = 0;
    while i <= n - m
        invariant
            0 < m <= n,
            i <= n - m + 1,
            n == hay@.len(),
            m == needle@.len(),
            forall|q: int| 0 <= q < i ==> !occurs_at(hay@, needle@, q),
        decreases n - i,
    {
        let mut k: usize = 0;
        let mut mismatch = false;
        while k < m && !mismatch
            invariant
                0 < m <= n,
                i + m <= n,
                k <= m,
                n == hay@.len(),
                m == needle@.len(),
                !mismatch ==> forall|t: int| 0 <= t < k ==> hay@[i + t] == needle@[t],
                mismatch ==> !occurs_at(hay@, needle@, i as int),
            decreases m - k + (if mismatch {
                0int
            } else {
                1int
            }),
        {
            if hay.get_char(i + k) != needle.get_char(k) {
                proof {
                    if occurs_at(hay@, needle@, i as int) {
                        assert(hay@.subrange(i as int, i + needle@.len())[k as int]
                            == needle@[k as int]);
                    }
                }
                mismatch = true;
            } else {
                k = k + 1;
            }
        }
        if !mismatch {
            proof {
                assert(hay@.subrange(i as int, i + needle@.len()) =~= needle@);
                assert(occurs_at(hay@, needle@, i as int));
            }
            return true;
        }
        i = i + 1;
    }
    proof {
        assert forall|q: int| !occurs_at(hay@, needle@, q) by {
            if occurs_at(hay@, needle@, q) {
                assert(0 <= q && q + m <= n);
            }
        }
    }
    false
}

} // verus!
