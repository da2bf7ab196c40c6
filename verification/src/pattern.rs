//! The text pattern of record filters: `%` stands for any run of characters, `_` for any one
//! character, and ASCII letters match in either case.

use crate::encoding;
use crate::text::chars_of;
use vstd::prelude::*;

verus! {

/// The most bytes that a pattern may have.
pub const MAX_PATTERN: usize = 50000;

/// Whether a text with `%` before and behind it makes a pattern with too many bytes.
pub open spec fn too_long(part: Seq<char>) -> bool {
    encoding::bytes_of(part).len() + 2 > MAX_PATTERN
}

/// Whether a text with `%` before and behind it makes a pattern with too many bytes.
pub fn exceeds_limit(part: &str) -> (r: bool)
    ensures
        r == too_long(part@),
{
    let bytes: usize = part.as_bytes().len();
    bytes > MAX_PATTERN - 2
}

/// The lower-case form of an ASCII letter; other characters stay as they are.
pub open spec fn fold(c: char) -> char {
    if 'A' <= c && c <= 'Z' {
        ((c as int) + 32) as char
    } else {
        c
    }
}

/// Whether pattern `p` matches the whole of text `t`.
pub open spec fn like(p: Seq<char>, t: Seq<char>) -> bool
    decreases p.len() + t.len(),
{
    if p.len() == 0 {
        t.len() == 0
    } else if p[0] == '%' {
        like(p.drop_first(), t) || (t.len() > 0 && like(p, t.drop_first()))
    } else {
        t.len() > 0 && (p[0] == '_' || fold(p[0]) == fold(t[0])) && like(
            p.drop_first(),
            t.drop_first(),
        )
    }
}

/// The text up to its first NUL character, which is all that a pattern match looks at.
pub open spec fn upto_nul(s: Seq<char>) -> Seq<char>
    decreases s.len(),
{
    if s.len() == 0 || s[0] == '\0' {
        Seq::empty()
    } else {
        seq![s[0]] + upto_nul(s.drop_first())
    }
}

/// Whether `part`, read as a pattern, occurs in `whole`.
pub open spec fn contains_like(whole: Seq<char>, part: Seq<char>) -> bool {
    like(upto_nul(seq!['%'] + part + seq!['%']), upto_nul(whole))
}

fn lower(c: char) -> (r: char)
    ensures
        r == fold(c),
{
    if 'A' <= c && c <= 'Z' {
        ((c as u8) + 32u8) as char
    } else {
        c
    }
}

fn cut_at_nul(s: Vec<char>) -> (r: Vec<char>)
    ensures
        r@ == upto_nul(s@),
{
    let mut r: Vec<char> = Vec::new();
    let mut i: usize = 0;
    assert(s@.skip(0) =~= s@);
    assert(r@ + upto_nul(s@.skip(0)) =~= upto_nul(s@));
    while i < s.len() && s[i] != '\0'
        invariant
            i <= s@.len(),
            r@ + upto_nul(s@.skip(i as int)) == upto_nul(s@),
        decreases s@.len() - i,
    {
        let ghost before = r@;
        assert(s@.skip(i as int).drop_first() =~= s@.skip(i + 1));
        r.push(s[i]);
        assert(r@ + upto_nul(s@.skip(i + 1)) =~= before + (seq![s@[i as int]] + upto_nul(
            s@.skip(i + 1),
        )));
        i = i + 1;
    }
    assert(upto_nul(s@.skip(i as int)) =~= Seq::empty());
    assert(r@ + Seq::<char>::empty() =~= r@);
    r
}

/// Whether the pattern matches the text. Works through the suffixes of the pattern from the
/// shortest on, keeping for each suffix of the text whether it matches.
fn matches_like(p: &Vec<char>, t: &Vec<char>) -> (r: bool)
    ensures
        r == like(p@, t@),
{
    let n: usize = t.len();
    // row[k] tells whether the current suffix of the pattern matches the last k + 1 characters of
    // the text, and empty whether it matches the empty text.
    let mut row: Vec<bool> = Vec::new();
    for j in 0..n
        invariant
            n == t@.len(),
            row@.len() == j,
            forall|k: int|
                0 <= k < j ==> #[trigger] row@[k] == like(
                    p@.skip(p@.len() as int),
                    t@.skip(n - 1 - k),
                ),
    {
        row.push(false);
    }
    let mut empty: bool = true;
    let mut i: usize = p.len();
    while i > 0
        invariant
            n == t@.len(),
            i <= p@.len(),
            row@.len() == n,
            empty == like(p@.skip(i as int), t@.skip(n as int)),
            forall|k: int|
                0 <= k < n ==> #[trigger] row@[k] == like(p@.skip(i as int), t@.skip(n - 1 - k)),
        decreases i,
    {
        i = i - 1;
        let c: char = p[i];
        let ghost suffix = p@.skip(i as int);
        assert(suffix.drop_first() =~= p@.skip(i + 1));
        let next_empty: bool = c == '%' && empty;
        let mut next: Vec<bool> = Vec::new();
        for j in 0..n
            invariant
                n == t@.len(),
                i < p@.len(),
                c == p@[i as int],
                suffix == p@.skip(i as int),
                suffix.drop_first() == p@.skip(i + 1),
                row@.len() == n,
                empty == like(p@.skip(i + 1), t@.skip(n as int)),
                next_empty == like(suffix, t@.skip(n as int)),
                next@.len() == j,
                forall|k: int|
                    0 <= k < n ==> #[trigger] row@[k] == like(p@.skip(i + 1), t@.skip(n - 1 - k)),
                forall|k: int|
                    0 <= k < j ==> #[trigger] next@[k] == like(suffix, t@.skip(n - 1 - k)),
        {
            let ghost rest = t@.skip(n - 1 - j);
            assert(rest.drop_first() =~= t@.skip(n - j));
            let d: char = t[n - 1 - j];
            let shorter: bool = if j == 0 { next_empty } else { next[j - 1] };
            let diagonal: bool = if j == 0 { empty } else { row[j - 1] };
            let m: bool = if c == '%' {
                row[j] || shorter
            } else {
                (c == '_' || lower(c) == lower(d)) && diagonal
            };
            assert(m == like(suffix, rest));
            next.push(m);
        }
        row = next;
        empty = next_empty;
    }
    assert(p@.skip(0) =~= p@);
    assert(t@.skip(0) =~= t@);
    if n == 0 {
        empty
    } else {
        row[n - 1]
    }
}

/// Whether `part`, read as a pattern, occurs in `whole`.
pub fn occurs_like(whole: &str, part: &str) -> (r: bool)
    ensures
        r == contains_like(whole@, part@),
{
    let mut p: Vec<char> = Vec::new();
    p.push('%');
    let mut inner = chars_of(part);
    p.append(&mut inner);
    p.push('%');
    assert(p@ =~= seq!['%'] + part@ + seq!['%']);
    let pattern = cut_at_nul(p);
    let text = cut_at_nul(chars_of(whole));
    matches_like(&pattern, &text)
}

} // verus!
