//! Parsing of the free-text affected-package list carried by an action line.
//!
//! The value is a comma-separated list of `name:architecture` tokens, each
//! optionally followed by a parenthesized version group that is discarded.
//! Commas inside parentheses do not split tokens; spaces are skipped
//! everywhere. Each token must contain a `:`; the name is everything before
//! the first `:`, the architecture everything after it.

use vstd::prelude::*;

verus! {

/// One parsed `name:architecture` token.
pub struct PkgTok {
    pub name: String,
    pub arch: String,
}

/// Mathematical value of a `PkgTok`.
pub ghost struct TokV {
    pub name: Seq<char>,
    pub arch: Seq<char>,
}

impl View for PkgTok {
    type V = TokV;

    open spec fn view(&self) -> TokV {
        TokV { name: self.name@, arch: self.arch@ }
    }
}

pub open spec fn toks_view(s: Seq<PkgTok>) -> Seq<TokV> {
    s.map_values(|t: PkgTok| t@)
}

/// The first position at or after `i` holding a colon, if any.
pub open spec fn spec_find_colon(tok: Seq<char>, i: int) -> Option<int>
    decreases tok.len() - i,
{
    if i < 0 || i >= tok.len() {
        None
    } else if tok[i] == ':' {
        Some(i)
    } else {
        spec_find_colon(tok, i + 1)
    }
}

/// Splits an accumulated token at its first colon into name and
/// architecture; a token without a colon is malformed.
pub open spec fn spec_split_token(tok: Seq<char>) -> Option<TokV> {
    match spec_find_colon(tok, 0) {
        Some(j) => Some(TokV { name: tok.subrange(0, j), arch: tok.subrange(j + 1, tok.len() as int) }),
        None => None,
    }
}

/// The character scan over the action-line value, from position `i`, with
/// the parenthesis flag `inside`, the token accumulated so far and the
/// tokens already completed. `None` means a malformed token was flushed.
pub open spec fn spec_scan(
    s: Seq<char>,
    i: int,
    inside: bool,
    tok: Seq<char>,
    acc: Seq<TokV>,
) -> Option<Seq<TokV>>
    decreases s.len() - i,
{
    if i < 0 || i >= s.len() {
        match spec_split_token(tok) {
            Some(t) => Some(acc.push(t)),
            None => None,
        }
    } else {
        let c = s[i];
        if c == ' ' {
            spec_scan(s, i + 1, inside, tok, acc)
        } else if c == '(' {
            spec_scan(s, i + 1, true, tok, acc)
        } else if c == ')' {
            spec_scan(s, i + 1, false, tok, acc)
        } else if c == ',' && !inside {
            match spec_split_token(tok) {
                Some(t) => spec_scan(s, i + 1, inside, Seq::empty(), acc.push(t)),
                None => None,
            }
        } else if !inside {
            spec_scan(s, i + 1, inside, tok.push(c), acc)
        } else {
            spec_scan(s, i + 1, inside, tok, acc)
        }
    }
}

/// The token list an action-line value parses to, or `None` when some
/// token lacks its `name:architecture` separator. The final token (no
/// trailing comma) is flushed when the scan ends.
pub open spec fn spec_scan_tokens(s: Seq<char>) -> Option<Seq<TokV>> {
    spec_scan(s, 0, false, Seq::empty(), Seq::empty())
}

/// The scan only reads a sequence's suffix: equal suffixes scan alike.
proof fn lemma_scan_suffix(
    s1: Seq<char>,
    i1: int,
    s2: Seq<char>,
    i2: int,
    inside: bool,
    tok: Seq<char>,
    acc: Seq<TokV>,
)
    requires
        0 <= i1 <= s1.len(),
        0 <= i2 <= s2.len(),
        s1.len() - i1 == s2.len() - i2,
        forall|d: int| 0 <= d < s1.len() - i1 ==> #[trigger] s1[i1 + d] == s2[i2 + d],
    ensures
        spec_scan(s1, i1, inside, tok, acc) == spec_scan(s2, i2, inside, tok, acc),
    decreases s1.len() - i1,
{
    if i1 < s1.len() {
        assert(s1[i1] == s2[i2]) by {
            assert(s1[i1 + 0] == s2[i2 + 0]);
        }
        assert(forall|d: int|
            0 <= d < s1.len() - (i1 + 1) ==> #[trigger] s1[i1 + 1 + d] == s1[i1 + (d + 1)] && s1[i1
                + (d + 1)] == s2[i2 + (d + 1)] && s2[i2 + (d + 1)] == s2[i2 + 1 + d]);
        let c = s1[i1];
        if c == ' ' || c == '(' || c == ')' {
            lemma_scan_suffix(
                s1,
                i1 + 1,
                s2,
                i2 + 1,
                spec_scan_inside_after(inside, c),
                tok,
                acc,
            );
        } else if c == ',' && !inside {
            match spec_split_token(tok) {
                Some(t) => {
                    lemma_scan_suffix(s1, i1 + 1, s2, i2 + 1, inside, Seq::empty(), acc.push(t));
                },
                None => {},
            }
        } else if !inside {
            lemma_scan_suffix(s1, i1 + 1, s2, i2 + 1, inside, tok.push(c), acc);
        } else {
            lemma_scan_suffix(s1, i1 + 1, s2, i2 + 1, inside, tok, acc);
        }
    }
}

/// While the cursor is inside a parenthesized group, every character up to
/// the next closing parenthesis is skipped outright.
proof fn lemma_scan_skips_inside(s: Seq<char>, i: int, j: int, tok: Seq<char>, acc: Seq<TokV>)
    requires
        0 <= i <= j <= s.len(),
        forall|d: int| i <= d < j ==> s[d] != ')',
    ensures
        spec_scan(s, i, true, tok, acc) == spec_scan(s, j, true, tok, acc),
    decreases j - i,
{
    if i < j {
        lemma_scan_skips_inside(s, i + 1, j, tok, acc);
    }
}

/// Parenthesized content never reaches the token list: whatever stands
/// between a version group's parentheses — an inner comma included — the
/// surrounding text parses to the same tokens, so an inner comma cannot
/// split a token.
pub proof fn lemma_parenthesized_content_ignored(
    a: Seq<char>,
    mid1: Seq<char>,
    mid2: Seq<char>,
    b: Seq<char>,
)
    requires
        forall|d: int| 0 <= d < mid1.len() ==> #[trigger] mid1[d] != ')',
        forall|d: int| 0 <= d < mid2.len() ==> #[trigger] mid2[d] != ')',
    ensures
        spec_scan_tokens(a + seq!['('] + mid1 + seq![')'] + b) == spec_scan_tokens(
            a + seq!['('] + mid2 + seq![')'] + b,
        ),
{
    lemma_scan_framed(a, mid1, mid2, b, 0, false, Seq::empty(), Seq::empty());
}

/// The induction behind `lemma_parenthesized_content_ignored`: until the
/// opening parenthesis both scans read the same characters, then the group
/// is skipped whole, and after the closing parenthesis the suffixes agree.
proof fn lemma_scan_framed(
    a: Seq<char>,
    mid1: Seq<char>,
    mid2: Seq<char>,
    b: Seq<char>,
    i: int,
    inside: bool,
    tok: Seq<char>,
    acc: Seq<TokV>,
)
    requires
        0 <= i <= a.len(),
        forall|d: int| 0 <= d < mid1.len() ==> #[trigger] mid1[d] != ')',
        forall|d: int| 0 <= d < mid2.len() ==> #[trigger] mid2[d] != ')',
    ensures
        spec_scan(a + seq!['('] + mid1 + seq![')'] + b, i, inside, tok, acc) == spec_scan(
            a + seq!['('] + mid2 + seq![')'] + b,
            i,
            inside,
            tok,
            acc,
        ),
    decreases a.len() - i,
{
    let s1 = a + seq!['('] + mid1 + seq![')'] + b;
    let s2 = a + seq!['('] + mid2 + seq![')'] + b;
    assert(s1.len() == a.len() + mid1.len() + b.len() + 2);
    assert(s2.len() == a.len() + mid2.len() + b.len() + 2);
    if i < a.len() {
        assert(s1[i] == a[i]);
        assert(s2[i] == a[i]);
        let c = a[i];
        if c == ' ' || c == '(' || c == ')' {
            lemma_scan_framed(a, mid1, mid2, b, i + 1, spec_scan_inside_after(inside, c), tok, acc);
        } else if c == ',' && !inside {
            match spec_split_token(tok) {
                Some(t) => {
                    lemma_scan_framed(a, mid1, mid2, b, i + 1, inside, Seq::empty(), acc.push(t));
                },
                None => {},
            }
        } else if !inside {
            lemma_scan_framed(a, mid1, mid2, b, i + 1, inside, tok.push(c), acc);
        } else {
            lemma_scan_framed(a, mid1, mid2, b, i + 1, inside, tok, acc);
        }
    } else {
        // Both scans stand on the opening parenthesis.
        assert(s1[i] == '(');
        assert(s2[i] == '(');
        assert(spec_scan(s1, i, inside, tok, acc) == spec_scan(s1, i + 1, true, tok, acc));
        assert(spec_scan(s2, i, inside, tok, acc) == spec_scan(s2, i + 1, true, tok, acc));
        let c1 = a.len() as int + 1 + mid1.len() as int;
        let c2 = a.len() as int + 1 + mid2.len() as int;
        assert(forall|d: int| i + 1 <= d < c1 ==> #[trigger] s1[d] == mid1[d - (a.len() + 1)]);
        assert(forall|d: int| i + 1 <= d < c2 ==> #[trigger] s2[d] == mid2[d - (a.len() + 1)]);
        lemma_scan_skips_inside(s1, i + 1, c1, tok, acc);
        lemma_scan_skips_inside(s2, i + 1, c2, tok, acc);
        // Both scans stand on the closing parenthesis.
        assert(s1[c1] == ')');
        assert(s2[c2] == ')');
        assert(spec_scan(s1, c1, true, tok, acc) == spec_scan(s1, c1 + 1, false, tok, acc));
        assert(spec_scan(s2, c2, true, tok, acc) == spec_scan(s2, c2 + 1, false, tok, acc));
        // The remaining suffixes agree character for character.
        assert(forall|d: int| 0 <= d < b.len() ==> #[trigger] s1[c1 + 1 + d] == b[d]);
        assert(forall|d: int| 0 <= d < b.len() ==> #[trigger] s2[c2 + 1 + d] == b[d]);
        lemma_scan_suffix(s1, c1 + 1, s2, c2 + 1, false, tok, acc);
    }
}

/// The parenthesis flag after one scanned character.
pub open spec fn spec_scan_inside_after(inside: bool, c: char) -> bool {
    if c == '(' {
        true
    } else if c == ')' {
        false
    } else {
        inside
    }
}

/// The first colon of `tok[..]`, by linear scan.
fn find_colon(tok: &Vec<char>) -> (r: Option<usize>)
    ensures
        match r {
            Some(j) => 0 <= j < tok@.len() && spec_find_colon(tok@, 0) == Some(j as int),
            None => spec_find_colon(tok@, 0) is None,
        },
{
    let mut i: usize = 0;
    while i < tok.len()
        invariant
            i <= tok@.len(),
            spec_find_colon(tok@, 0) == spec_find_colon(tok@, i as int),
        decreases tok@.len() - i,
    {
        if tok[i] == ':' {
            return Some(i);
        }
        i += 1;
    }
    None
}

/// Splits the accumulated token characters into a parsed token.
fn split_token(tok: &Vec<char>) -> (r: Option<PkgTok>)
    ensures
        match r {
            Some(t) => spec_split_token(tok@) == Some(t@),
            None => spec_split_token(tok@) is None,
        },
{
    match find_colon(tok) {
        Some(j) => {
            let n = tok.len();
            assert(j < n);
            let name = crate::strutil::chars_to_string(tok, 0, j);
            let arch = crate::strutil::chars_to_string(tok, j + 1, n);
            Some(PkgTok { name, arch })
        },
        None => None,
    }
}

/// Parses an action-line value (as characters) into its token list;
/// `None` reports a malformed package token.
pub fn parse_action_tokens(s: &Vec<char>) -> (r: Option<Vec<PkgTok>>)
    ensures
        match r {
            Some(toks) => spec_scan_tokens(s@) == Some(toks_view(toks@)),
            None => spec_scan_tokens(s@) is None,
        },
{
    let mut toks: Vec<PkgTok> = Vec::new();
    let mut tok: Vec<char> = Vec::new();
    let mut inside = false;
    let mut i: usize = 0;
    assert(toks_view(toks@) =~= Seq::<TokV>::empty());
    while i < s.len()
        invariant
            i <= s@.len(),
            spec_scan_tokens(s@) == spec_scan(s@, i as int, inside, tok@, toks_view(toks@)),
        decreases s@.len() - i,
    {
        let ghost pre_toks = toks_view(toks@);
        let c = s[i];
        if c == ' ' {
        } else if c == '(' {
            inside = true;
        } else if c == ')' {
            inside = false;
        } else if c == ',' && !inside {
            match split_token(&tok) {
                Some(t) => {
                    let ghost tv = t@;
                    toks.push(t);
                    tok = Vec::new();
                    assert(toks_view(toks@) =~= pre_toks.push(tv));
                },
                None => {
                    return None;
                },
            }
        } else if !inside {
            tok.push(c);
        } else {
        }
        i += 1;
    }
    match split_token(&tok) {
        Some(t) => {
            let ghost tv = t@;
            let ghost pre_toks = toks_view(toks@);
            toks.push(t);
            assert(toks_view(toks@) =~= pre_toks.push(tv));
            Some(toks)
        },
        None => None,
    }
}

} // verus!
