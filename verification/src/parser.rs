//! The declaration grammar: one property entry, one declaration
//! block, and the scan of a whole text.
//!
//! Each executable parser returns exactly what its
//! specification-level twin names, so the grammar is written down
//! once, as spec functions over character sequences.

use vstd::prelude::*;

use crate::lexer::skip_ws_spec;
use crate::lexer::skip_ws;
use crate::lexer::lemma_skip_ws_bounds;
use crate::lexer::parse_ident_spec;
use crate::lexer::parse_ident;
use crate::lexer::lemma_parse_ident;
use crate::lexer::interface_at;
use crate::lexer::type_at;
use crate::lexer::kw_at;
use crate::lexer::find_kw_spec;
use crate::lexer::find_kw;
use crate::lexer::lemma_find_kw;
use crate::lexer::interface_at_exec;
use crate::lexer::type_at_exec;
use crate::types::Type;
use crate::types::TypeV;
use crate::types::ErrorKind;
use crate::types::ScanError;
use crate::types::valid_ident;
use crate::types::valid_type_token;

verus! {

/// Where the type token (identifier plus optional `[]` array marker)
/// starting at `i` ends, or `None` if none starts there.
pub open spec fn parse_type_token_spec(s: Seq<char>, i: int) -> Option<int> {
    match parse_ident_spec(s, i) {
        Some(j) => if j + 2 <= s.len() && s[j] == '[' && s[j + 1] == ']' {
            Some(j + 2)
        } else {
            Some(j)
        },
        None => None,
    }
}

pub proof fn lemma_parse_type_token(s: Seq<char>, i: int)
    requires
        0 <= i <= s.len(),
    ensures
        match parse_type_token_spec(s, i) {
            Some(j) => i < j <= s.len() && valid_type_token(s.subrange(i, j)),
            None => true,
        },
{
    lemma_parse_ident(s, i);
    if parse_ident_spec(s, i) is Some {
        let j = parse_ident_spec(s, i)->Some_0;
        if j + 2 <= s.len() && s[j] == '[' && s[j + 1] == ']' {
            let tok = s.subrange(i, j + 2);
            assert(tok.take(tok.len() - 2) =~= s.subrange(i, j));
        }
    }
}

/// One property entry: `<identifier> ":" <type-token>`, with
/// whitespace allowed around each part and an optional trailing `;`.
/// Yields the property name, the type token as written, and the
/// position of the unconsumed remainder.
pub open spec fn parse_property_spec(s: Seq<char>, i: int) -> Option<(Seq<char>, Seq<char>, int)> {
    let i1 = skip_ws_spec(s, i);
    match parse_ident_spec(s, i1) {
        Some(j1) => {
            let i2 = skip_ws_spec(s, j1);
            if i2 < s.len() && s[i2] == ':' {
                let i3 = skip_ws_spec(s, i2 + 1);
                match parse_type_token_spec(s, i3) {
                    Some(j2) => {
                        let i4 = skip_ws_spec(s, j2);
                        if i4 < s.len() && s[i4] == ';' {
                            Some((s.subrange(i1, j1), s.subrange(i3, j2), i4 + 1))
                        } else {
                            Some((s.subrange(i1, j1), s.subrange(i3, j2), i4))
                        }
                    },
                    None => None,
                }
            } else {
                None
            }
        },
        None => None,
    }
}

pub proof fn lemma_parse_property(s: Seq<char>, i: int)
    requires
        0 <= i <= s.len(),
    ensures
        match parse_property_spec(s, i) {
            Some((name, tok, j)) => i < j <= s.len() && valid_ident(name) && valid_type_token(tok),
            None => true,
        },
{
    lemma_skip_ws_bounds(s, i);
    let i1 = skip_ws_spec(s, i);
    lemma_parse_ident(s, i1);
    if parse_ident_spec(s, i1) is Some {
        let j1 = parse_ident_spec(s, i1)->Some_0;
        lemma_skip_ws_bounds(s, j1);
        let i2 = skip_ws_spec(s, j1);
        if i2 < s.len() && s[i2] == ':' {
            lemma_skip_ws_bounds(s, i2 + 1);
            let i3 = skip_ws_spec(s, i2 + 1);
            lemma_parse_type_token(s, i3);
            if parse_type_token_spec(s, i3) is Some {
                let j2 = parse_type_token_spec(s, i3)->Some_0;
                lemma_skip_ws_bounds(s, j2);
            }
        }
    }
}

/// The one-or-more property entries of a block body, up to and
/// including the closing `}`. Reports `UnterminatedBlock` when the
/// text ends first and `MalformedProperty` when an entry is broken.
pub open spec fn parse_props_spec(s: Seq<char>, i: int) -> Result<
    (Seq<(Seq<char>, Seq<char>)>, int),
    (ErrorKind, int),
>
    decreases s.len() - i
        when 0 <= i <= s.len()
        via parse_props_spec_decreases
{
    let i1 = skip_ws_spec(s, i);
    if i1 >= s.len() {
        Err((ErrorKind::UnterminatedBlock, i1))
    } else if s[i1] == '}' {
        Ok((Seq::empty(), i1 + 1))
    } else {
        match parse_property_spec(s, i1) {
            Some((name, tok, j)) => match parse_props_spec(s, j) {
                Ok((rest, end)) => Ok((seq![(name, tok)] + rest, end)),
                Err(e) => Err(e),
            },
            None => Err((ErrorKind::MalformedProperty, i1)),
        }
    }
}

#[via_fn]
proof fn parse_props_spec_decreases(s: Seq<char>, i: int) {
    lemma_skip_ws_bounds(s, i);
    let i1 = skip_ws_spec(s, i);
    if i1 < s.len() && s[i1] != '}' {
        lemma_parse_property(s, i1);
    }
}

pub proof fn lemma_parse_props(s: Seq<char>, i: int)
    requires
        0 <= i <= s.len(),
    ensures
        match parse_props_spec(s, i) {
            Ok((props, end)) => i < end <= s.len() && forall|k: int|
                0 <= k < props.len() ==> valid_ident((#[trigger] props[k]).0) && valid_type_token(
                    props[k].1,
                ),
            Err((kind, off)) => 0 <= off <= s.len(),
        },
    decreases s.len() - i,
{
    lemma_skip_ws_bounds(s, i);
    let i1 = skip_ws_spec(s, i);
    if i1 < s.len() && s[i1] != '}' {
        lemma_parse_property(s, i1);
        if parse_property_spec(s, i1) is Some {
            let (name, tok, j) = parse_property_spec(s, i1)->Some_0;
            lemma_parse_props(s, j);
        }
    }
}

/// One declaration block: the keyword `interface` or `type`, the
/// declared name (optionally followed by `=` for the alias form), and
/// a `{ ... }` body with at least one property.
pub open spec fn parse_decl_spec(s: Seq<char>, i: int) -> Result<(TypeV, int), (ErrorKind, int)> {
    if !kw_at(s, i) {
        Err((ErrorKind::NoMatch, i))
    } else {
        let k = if interface_at(s, i) {
            i + 9
        } else {
            i + 4
        };
        let i1 = skip_ws_spec(s, k);
        match parse_ident_spec(s, i1) {
            Some(j1) => {
                let i2 = skip_ws_spec(s, j1);
                let i3 = if i2 < s.len() && s[i2] == '=' {
                    skip_ws_spec(s, i2 + 1)
                } else {
                    i2
                };
                if i3 < s.len() && s[i3] == '{' {
                    match parse_props_spec(s, i3 + 1) {
                        Ok((props, end)) => if props.len() == 0 {
                            Err((ErrorKind::EmptyBlock, i3))
                        } else {
                            Ok((TypeV { name: s.subrange(i1, j1), props }, end))
                        },
                        Err(e) => Err(e),
                    }
                } else {
                    Err((ErrorKind::UnterminatedBlock, i3))
                }
            },
            None => Err((ErrorKind::NoMatch, i1)),
        }
    }
}

pub proof fn lemma_parse_decl(s: Seq<char>, i: int)
    requires
        0 <= i <= s.len(),
    ensures
        match parse_decl_spec(s, i) {
            Ok((t, end)) => i < end <= s.len() && t.wf() && t.props.len() > 0,
            Err((kind, off)) => 0 <= off <= s.len(),
        },
{
    if kw_at(s, i) {
        let k = if interface_at(s, i) {
            i + 9
        } else {
            i + 4
        };
        lemma_skip_ws_bounds(s, k);
        let i1 = skip_ws_spec(s, k);
        lemma_parse_ident(s, i1);
        if parse_ident_spec(s, i1) is Some {
            let j1 = parse_ident_spec(s, i1)->Some_0;
            lemma_skip_ws_bounds(s, j1);
            let i2 = skip_ws_spec(s, j1);
            if i2 < s.len() && s[i2] == '=' {
                lemma_skip_ws_bounds(s, i2 + 1);
            }
            let i3 = if i2 < s.len() && s[i2] == '=' {
                skip_ws_spec(s, i2 + 1)
            } else {
                i2
            };
            if i3 < s.len() && s[i3] == '{' {
                lemma_parse_props(s, i3 + 1);
            }
        }
    }
}

/// The scan of a whole text: skip to each next keyword occurrence in
/// turn and read one declaration block there; stop when no keyword
/// remains. The first broken declaration aborts the whole scan.
pub open spec fn scan_spec(s: Seq<char>, i: int) -> Result<Seq<TypeV>, (ErrorKind, int)>
    decreases s.len() - i
        when 0 <= i <= s.len()
        via scan_spec_decreases
{
    match find_kw_spec(s, i) {
        None => Ok(Seq::empty()),
        Some(j) => match parse_decl_spec(s, j) {
            Ok((t, end)) => match scan_spec(s, end) {
                Ok(rest) => Ok(seq![t] + rest),
                Err(e) => Err(e),
            },
            Err(e) => Err(e),
        },
    }
}

#[via_fn]
proof fn scan_spec_decreases(s: Seq<char>, i: int) {
    lemma_find_kw(s, i);
    if find_kw_spec(s, i) is Some {
        let j = find_kw_spec(s, i)->Some_0;
        lemma_parse_decl(s, j);
    }
}

/// Executable type-token recognizer; mirrors `parse_type_token_spec`.
pub fn parse_type_token(s: &str, i: usize) -> (r: Option<usize>)
    requires
        i <= s@.len(),
    ensures
        match r {
            Some(j) => parse_type_token_spec(s@, i as int) == Some(j as int) && i < j <= s@.len(),
            None => parse_type_token_spec(s@, i as int) is None,
        },
{
    match parse_ident(s, i) {
        Some(j) => {
            let n = s.unicode_len();
            if n - j >= 2 && s.get_char(j) == '[' && s.get_char(j + 1) == ']' {
                Some(j + 2)
            } else {
                Some(j)
            }
        },
        None => None,
    }
}

/// Executable property parser; returns the property name, the type
/// token as written (array suffix kept), and the position of the
/// remainder, exactly as `parse_property_spec` names them.
///
/// A broken entry (missing identifier, colon or type token) yields
/// `None`; the block parser reports that as `MalformedProperty`, with
/// the entry's offset. A missing trailing separator is not an error.
pub fn parse_property(s: &str, i: usize) -> (r: Option<(String, String, usize)>)
    requires
        i <= s@.len(),
    ensures
        match r {
            Some((name, tok, j)) => parse_property_spec(s@, i as int) == Some(
                (name@, tok@, j as int),
            ) && i < j <= s@.len(),
            None => parse_property_spec(s@, i as int) is None,
        },
{
    proof {
        lemma_parse_property(s@, i as int);
    }
    let i1 = skip_ws(s, i);
    match parse_ident(s, i1) {
        Some(j1) => {
            let name = s.substring_char(i1, j1).to_owned();
            let i2 = skip_ws(s, j1);
            let n = s.unicode_len();
            if i2 < n && s.get_char(i2) == ':' {
                let i3 = skip_ws(s, i2 + 1);
                match parse_type_token(s, i3) {
                    Some(j2) => {
                        let tok = s.substring_char(i3, j2).to_owned();
                        let i4 = skip_ws(s, j2);
                        if i4 < n && s.get_char(i4) == ';' {
                            Some((name, tok, i4 + 1))
                        } else {
                            Some((name, tok, i4))
                        }
                    },
                    None => None,
                }
            } else {
                None
            }
        },
        None => None,
    }
}

/// Executable block-body parser; mirrors `parse_props_spec`.
fn parse_props(s: &str, i: usize) -> (r: Result<(Vec<(String, String)>, usize), ScanError>)
    requires
        i <= s@.len(),
    ensures
        match r {
            Ok((props, end)) => parse_props_spec(s@, i as int) == Ok::<
                _,
                (ErrorKind, int),
            >((props.deep_view(), end as int)) && i < end <= s@.len(),
            Err(e) => parse_props_spec(s@, i as int) == Err::<
                (Seq<(Seq<char>, Seq<char>)>, int),
                _,
            >((e.kind, e.offset as int)) && e.offset <= s@.len(),
        },
{
    proof {
        lemma_parse_props(s@, i as int);
    }
    let n = s.unicode_len();
    let mut props: Vec<(String, String)> = Vec::new();
    let mut cur = i;
    proof {
        assert(props.deep_view() =~= Seq::<(Seq<char>, Seq<char>)>::empty());
    }
    loop
        invariant
            i <= cur <= n,
            n == s@.len(),
            parse_props_spec(s@, i as int) == (match parse_props_spec(s@, cur as int) {
                Ok((rest, end)) => Ok::<_, (ErrorKind, int)>((props.deep_view() + rest, end)),
                Err(e) => Err(e),
            }),
        decreases n - cur,
    {
        proof {
            lemma_parse_props(s@, i as int);
            lemma_parse_props(s@, cur as int);
        }
        let i1 = skip_ws(s, cur);
        if i1 >= n {
            return Err(ScanError { kind: ErrorKind::UnterminatedBlock, offset: i1 });
        }
        if s.get_char(i1) == '}' {
            proof {
                assert(props.deep_view() + Seq::<(Seq<char>, Seq<char>)>::empty()
                    =~= props.deep_view());
            }
            return Ok((props, i1 + 1));
        }
        match parse_property(s, i1) {
            Some((name, tok, j)) => {
                let ghost old_props = props.deep_view();
                let ghost gname = name@;
                let ghost gtok = tok@;
                props.push((name, tok));
                proof {
                    assert(props.deep_view() =~= old_props.push((gname, gtok)));
                    if parse_props_spec(s@, j as int) is Ok {
                        let (rest, end) = parse_props_spec(s@, j as int)->Ok_0;
                        assert(old_props + (seq![(gname, gtok)] + rest) =~= props.deep_view()
                            + rest);
                    }
                }
                cur = j;
            },
            None => {
                return Err(ScanError { kind: ErrorKind::MalformedProperty, offset: i1 });
            },
        }
    }
}

/// Executable declaration parser; yields one populated `Type` record
/// and the position of the remainder, exactly as `parse_decl_spec`
/// names them, or the error that `parse_decl_spec` names.
///
/// The keyword is expected at `i` itself: skipping interposed text to
/// the next keyword occurrence is the scanner's work (see `scan`).
pub fn parse_declaration(s: &str, i: usize) -> (r: Result<(Type, usize), ScanError>)
    requires
        i <= s@.len(),
    ensures
        match r {
            Ok((t, end)) => parse_decl_spec(s@, i as int) == Ok::<
                _,
                (ErrorKind, int),
            >((t@, end as int)) && i < end <= s@.len(),
            Err(e) => parse_decl_spec(s@, i as int) == Err::<
                (TypeV, int),
                _,
            >((e.kind, e.offset as int)) && e.offset <= s@.len(),
        },
{
    proof {
        lemma_parse_decl(s@, i as int);
    }
    let n = s.unicode_len();
    let is_interface = interface_at_exec(s, i);
    if !is_interface && !type_at_exec(s, i) {
        return Err(ScanError { kind: ErrorKind::NoMatch, offset: i });
    }
    let k = if is_interface {
        i + 9
    } else {
        i + 4
    };
    let i1 = skip_ws(s, k);
    match parse_ident(s, i1) {
        Some(j1) => {
            let name = s.substring_char(i1, j1).to_owned();
            let i2 = skip_ws(s, j1);
            let i3 = if i2 < n && s.get_char(i2) == '=' {
                skip_ws(s, i2 + 1)
            } else {
                i2
            };
            if i3 < n && s.get_char(i3) == '{' {
                match parse_props(s, i3 + 1) {
                    Ok((props, end)) => {
                        if props.len() == 0 {
                            Err(ScanError { kind: ErrorKind::EmptyBlock, offset: i3 })
                        } else {
                            Ok((Type { name, prop_type: props }, end))
                        }
                    },
                    Err(e) => Err(e),
                }
            } else {
                Err(ScanError { kind: ErrorKind::UnterminatedBlock, offset: i3 })
            }
        },
        None => Err(ScanError { kind: ErrorKind::NoMatch, offset: i1 }),
    }
}

/// Scans a whole text for declaration blocks, in source order.
///
/// On success the returned records are exactly the ones that
/// `scan_spec` names; a text with no keyword occurrence at all yields
/// the empty sequence. The first broken declaration aborts the scan
/// with the kind and offset that `scan_spec` names.
pub fn scan(s: &str) -> (r: Result<Vec<Type>, ScanError>)
    ensures
        match r {
            Ok(types) => scan_spec(s@, 0) == Ok::<_, (ErrorKind, int)>(types.deep_view()),
            Err(e) => scan_spec(s@, 0) == Err::<Seq<TypeV>, _>((e.kind, e.offset as int)),
        },
{
    let n = s.unicode_len();
    let mut types: Vec<Type> = Vec::new();
    let mut cur: usize = 0;
    proof {
        assert(types.deep_view() =~= Seq::<TypeV>::empty());
    }
    loop
        invariant
            cur <= n,
            n == s@.len(),
            scan_spec(s@, 0) == (match scan_spec(s@, cur as int) {
                Ok(rest) => Ok::<_, (ErrorKind, int)>(types.deep_view() + rest),
                Err(e) => Err(e),
            }),
        decreases n - cur,
    {
        match find_kw(s, cur) {
            None => {
                proof {
                    assert(types.deep_view() + Seq::<TypeV>::empty() =~= types.deep_view());
                }
                return Ok(types);
            },
            Some(j) => {
                match parse_declaration(s, j) {
                    Ok((t, end)) => {
                        let ghost old_types = types.deep_view();
                        let ghost gt = t@;
                        types.push(t);
                        proof {
                            assert(types.deep_view() =~= old_types.push(gt));
                            if scan_spec(s@, end as int) is Ok {
                                let rest = scan_spec(s@, end as int)->Ok_0;
                                assert(old_types + (seq![gt] + rest) =~= types.deep_view() + rest);
                            }
                        }
                        cur = end;
                    },
                    Err(e) => {
                        return Err(e);
                    },
                }
            },
        }
    }
}

pub proof fn lemma_scan(s: Seq<char>, i: int)
    requires
        0 <= i <= s.len(),
    ensures
        match scan_spec(s, i) {
            Ok(types) => forall|k: int|
                0 <= k < types.len() ==> (#[trigger] types[k]).wf() && types[k].props.len() > 0,
            Err((kind, off)) => 0 <= off <= s.len(),
        },
    decreases s.len() - i,
{
    lemma_find_kw(s, i);
    if find_kw_spec(s, i) is Some {
        let j = find_kw_spec(s, i)->Some_0;
        lemma_parse_decl(s, j);
        if parse_decl_spec(s, j) is Ok {
            let (t, end) = parse_decl_spec(s, j)->Ok_0;
            lemma_scan(s, end);
        }
    }
}

/// No declaration keyword occurs in `s` at any position in `[i, j)`.
pub open spec fn gap_free(s: Seq<char>, i: int, j: int) -> bool {
    forall|k: int| i <= k < j ==> !kw_at(s, k)
}

/// From position `i` on, the text consists of exactly
/// `blocks.len()` well-formed, non-overlapping declaration blocks in
/// order, each preceded by interleaving text in which no keyword
/// occurs, with only keyword-free text after the last.
pub open spec fn wf_blocks(s: Seq<char>, i: int, blocks: Seq<TypeV>) -> bool
    decreases blocks.len(),
{
    if blocks.len() == 0 {
        gap_free(s, i, s.len() as int)
    } else {
        exists|j: int|
            {
                &&& i <= j
                &&& gap_free(s, i, j)
                &&& #[trigger] kw_at(s, j)
                &&& parse_decl_spec(s, j) is Ok
                &&& parse_decl_spec(s, j)->Ok_0.0 == blocks[0]
                &&& wf_blocks(s, parse_decl_spec(s, j)->Ok_0.1, blocks.drop_first())
            }
    }
}

proof fn lemma_find_kw_first(s: Seq<char>, i: int, j: int)
    requires
        0 <= i <= j,
        gap_free(s, i, j),
        kw_at(s, j),
    ensures
        find_kw_spec(s, i) == Some(j),
    decreases j - i,
{
    if i < j {
        lemma_find_kw_first(s, i + 1, j);
    }
}

proof fn lemma_find_kw_none(s: Seq<char>, i: int)
    requires
        0 <= i,
        gap_free(s, i, s.len() as int),
    ensures
        find_kw_spec(s, i) is None,
    decreases s.len() - i,
{
    if i < s.len() {
        lemma_find_kw_none(s, i + 1);
    }
}

/// A text that holds exactly `blocks.len()` well-formed,
/// non-overlapping declaration blocks scans to exactly those blocks,
/// in source order: one `Type` per block, no more and no fewer.
pub proof fn lemma_scan_wf_blocks(s: Seq<char>, i: int, blocks: Seq<TypeV>)
    requires
        0 <= i <= s.len(),
        wf_blocks(s, i, blocks),
    ensures
        scan_spec(s, i) == Ok::<_, (ErrorKind, int)>(blocks),
    decreases blocks.len(),
{
    if blocks.len() == 0 {
        lemma_find_kw_none(s, i);
        assert(blocks =~= Seq::<TypeV>::empty());
    } else {
        let j = choose|j: int|
            {
                &&& i <= j
                &&& gap_free(s, i, j)
                &&& #[trigger] kw_at(s, j)
                &&& parse_decl_spec(s, j) is Ok
                &&& parse_decl_spec(s, j)->Ok_0.0 == blocks[0]
                &&& wf_blocks(s, parse_decl_spec(s, j)->Ok_0.1, blocks.drop_first())
            };
        lemma_find_kw_first(s, i, j);
        lemma_parse_decl(s, j);
        let (t, end) = parse_decl_spec(s, j)->Ok_0;
        lemma_scan_wf_blocks(s, end, blocks.drop_first());
        assert(blocks =~= seq![t] + blocks.drop_first());
    }
}

} // verus!
