//! White space, lines and words.

use crate::text;
use crate::text::{chars_of, string_of};
use vstd::prelude::*;

verus! {

/// Whether a character has the Unicode property `White_Space`.
pub open spec fn is_space(c: char) -> bool {
    let n = c as int;
    ||| 0x09 <= n <= 0x0d
    ||| n == 0x20
    ||| n == 0x85
    ||| n == 0xa0
    ||| n == 0x1680
    ||| 0x2000 <= n <= 0x200a
    ||| n == 0x2028
    ||| n == 0x2029
    ||| n == 0x202f
    ||| n == 0x205f
    ||| n == 0x3000
}

/// Whether a character is white space.
pub fn space(c: char) -> (r: bool)
    ensures
        r == is_space(c),
{
    let n: u32 = c as u32;
    (0x09 <= n && n <= 0x0d) || n == 0x20 || n == 0x85 || n == 0xa0 || n == 0x1680 || (0x2000 <= n
        && n <= 0x200a) || n == 0x2028 || n == 0x2029 || n == 0x202f || n == 0x205f || n == 0x3000
}

/// The text without leading white space.
pub open spec fn trim_start(s: Seq<char>) -> Seq<char>
    decreases s.len(),
{
    if s.len() > 0 && is_space(s[0]) {
        trim_start(s.drop_first())
    } else {
        s
    }
}

/// The text without trailing white space.
pub open spec fn trim_end(s: Seq<char>) -> Seq<char>
    decreases s.len(),
{
    if s.len() > 0 && is_space(s.last()) {
        trim_end(s.drop_last())
    } else {
        s
    }
}

/// The text without white space at its ends.
pub open spec fn trim(s: Seq<char>) -> Seq<char> {
    trim_end(trim_start(s))
}

/// The text without white space at its ends.
pub fn trimmed(s: &str) -> (r: String)
    ensures
        r@ == trim(s@),
{
    let v = chars_of(s);
    let mut from: usize = 0;
    assert(v@.skip(0) =~= v@);
    while from < v.len() && space(v[from])
        invariant
            from <= v@.len(),
            trim_start(v@.skip(from as int)) == trim_start(v@),
        decreases v@.len() - from,
    {
        assert(v@.skip(from as int).drop_first() =~= v@.skip(from + 1));
        from = from + 1;
    }
    let mut to: usize = v.len();
    let ghost whole = v@.skip(from as int);
    assert(v@.subrange(from as int, to as int) =~= whole);
    while to > from && space(v[to - 1])
        invariant
            from <= to <= v@.len(),
            trim_end(v@.subrange(from as int, to as int)) == trim_end(whole),
        decreases to,
    {
        assert(v@.subrange(from as int, to as int).drop_last() =~= v@.subrange(
            from as int,
            to - 1,
        ));
        to = to - 1;
    }
    string_of(&v, from, to)
}

/// The pieces of a text between the occurrences of a character.
pub open spec fn split(s: Seq<char>, at: char) -> Seq<Seq<char>>
    decreases s.len(),
{
    if s.len() == 0 {
        seq![Seq::empty()]
    } else {
        let before = split(s.drop_last(), at);
        if s.last() == at {
            before.push(Seq::empty())
        } else {
            before.drop_last().push(before.last().push(s.last()))
        }
    }
}

/// The pieces of a text between the occurrences of a character.
pub fn split_on(s: &str, at: char) -> (r: Vec<String>)
    ensures
        text::texts(r@) == split(s@, at),
        r@.len() > 0,
{
    let v = chars_of(s);
    let mut done: Vec<String> = Vec::new();
    let mut piece = String::new();
    assert(text::texts(done@).push(piece@) =~= seq![Seq::<char>::empty()]);
    assert(v@.take(0) =~= Seq::<char>::empty());
    for i in 0..v.len()
        invariant
            text::texts(done@).push(piece@) == split(v@.take(i as int), at),
    {
        assert(v@.take(i + 1).drop_last() =~= v@.take(i as int));
        let ghost before = text::texts(done@).push(piece@);
        let c: char = v[i];
        if c == at {
            let ghost old_done = done@;
            let ghost full = piece@;
            done.push(piece);
            assert(text::texts(done@) =~= text::texts(old_done).push(full));
            piece = String::new();
            assert(text::texts(done@).push(piece@) =~= before.push(Seq::empty()));
        } else {
            piece.push(c);
            assert(before.drop_last() =~= text::texts(done@));
        }
    }
    assert(v@.take(v@.len() as int) =~= v@);
    let ghost old_done = done@;
    let ghost full = piece@;
    done.push(piece);
    assert(text::texts(done@) =~= text::texts(old_done).push(full));
    done
}

/// A text without the carriage return at its end.
pub open spec fn without_return(s: Seq<char>) -> Seq<char> {
    if s.len() > 0 && s.last() == '\r' {
        s.drop_last()
    } else {
        s
    }
}

/// The lines among the first `n` pieces of a text, of which the last ends the text: its line ends
/// with the text, the others with a line feed or a carriage return and a line feed.
pub open spec fn lines_in(pieces: Seq<Seq<char>>, n: int) -> Seq<Seq<char>>
    decreases n,
{
    if n <= 0 {
        Seq::empty()
    } else if n < pieces.len() {
        lines_in(pieces, n - 1).push(without_return(pieces[n - 1]))
    } else if pieces[n - 1].len() > 0 {
        lines_in(pieces, n - 1).push(pieces[n - 1])
    } else {
        lines_in(pieces, n - 1)
    }
}

/// The lines of a text.
pub open spec fn lines(s: Seq<char>) -> Seq<Seq<char>> {
    let pieces = split(s, '\n');
    lines_in(pieces, pieces.len() as int)
}

/// A text without the carriage return at its end.
fn strip_return(s: &str) -> (r: String)
    ensures
        r@ == without_return(s@),
{
    let v = chars_of(s);
    let n: usize = v.len();
    if n > 0 && v[n - 1] == '\r' {
        let r = string_of(&v, 0, n - 1);
        assert(r@ =~= s@.drop_last());
        r
    } else {
        s.to_owned()
    }
}

/// The lines of a text.
pub fn split_lines(s: &str) -> (r: Vec<String>)
    ensures
        text::texts(r@) == lines(s@),
{
    let pieces = split_on(s, '\n');
    let ghost all = text::texts(pieces@);
    let n: usize = pieces.len();
    let mut r: Vec<String> = Vec::new();
    assert(text::texts(r@) =~= lines_in(all, 0));
    for i in 0..n
        invariant
            n == pieces@.len(),
            all == text::texts(pieces@),
            text::texts(r@) == lines_in(all, i as int),
    {
        let ghost before = r@;
        assert(all[i as int] == pieces@[i as int]@);
        if i + 1 < n {
            let t = strip_return(pieces[i].as_str());
            r.push(t);
            assert(text::texts(r@) =~= text::texts(before).push(t@));
        } else if !pieces[i].as_str().is_empty() {
            let t = pieces[i].clone();
            r.push(t);
            assert(text::texts(r@) =~= text::texts(before).push(t@));
        }
    }
    r
}

/// The finished words of a text and the word at its end, which may be empty.
pub open spec fn words_and_rest(s: Seq<char>) -> (Seq<Seq<char>>, Seq<char>)
    decreases s.len(),
{
    if s.len() == 0 {
        (Seq::empty(), Seq::empty())
    } else {
        let (done, rest) = words_and_rest(s.drop_last());
        if !is_space(s.last()) {
            (done, rest.push(s.last()))
        } else if rest.len() > 0 {
            (done.push(rest), Seq::empty())
        } else {
            (done, rest)
        }
    }
}

/// The words of a text: its longest runs of characters other than white space.
pub open spec fn words(s: Seq<char>) -> Seq<Seq<char>> {
    let (done, rest) = words_and_rest(s);
    if rest.len() > 0 {
        done.push(rest)
    } else {
        done
    }
}

/// The words of a text.
pub fn split_words(s: &str) -> (r: Vec<String>)
    ensures
        text::texts(r@) == words(s@),
{
    let v = chars_of(s);
    let mut done: Vec<String> = Vec::new();
    let mut rest = String::new();
    let mut filled: bool = false;
    assert(text::texts(done@) =~= Seq::<Seq<char>>::empty());
    assert(v@.take(0) =~= Seq::<char>::empty());
    for i in 0..v.len()
        invariant
            (text::texts(done@), rest@) == words_and_rest(v@.take(i as int)),
            filled == (rest@.len() > 0),
    {
        assert(v@.take(i + 1).drop_last() =~= v@.take(i as int));
        let c: char = v[i];
        if !space(c) {
            rest.push(c);
            filled = true;
        } else if filled {
            let ghost old_done = done@;
            let ghost full = rest@;
            done.push(rest);
            assert(text::texts(done@) =~= text::texts(old_done).push(full));
            rest = String::new();
            filled = false;
        }
    }
    assert(v@.take(v@.len() as int) =~= v@);
    if filled {
        let ghost old_done = done@;
        let ghost full = rest@;
        done.push(rest);
        assert(text::texts(done@) =~= text::texts(old_done).push(full));
    }
    done
}

/// The pieces with a separator between neighbours.
pub open spec fn join(parts: Seq<Seq<char>>, sep: Seq<char>) -> Seq<char>
    decreases parts.len(),
{
    if parts.len() == 0 {
        Seq::empty()
    } else if parts.len() == 1 {
        parts[0]
    } else {
        join(parts.drop_last(), sep) + sep + parts.last()
    }
}

/// The first `count` pieces, joined.
pub fn join_first(parts: &Vec<String>, count: usize, sep: &str) -> (r: String)
    requires
        count <= parts@.len(),
    ensures
        r@ == join(text::texts(parts@).take(count as int), sep@),
{
    let mut r = String::new();
    let ghost all = text::texts(parts@);
    assert(r@ =~= join(all.take(0), sep@));
    for i in 0..count
        invariant
            count <= parts@.len(),
            all == text::texts(parts@),
            r@ == join(all.take(i as int), sep@),
    {
        assert(all.take(i + 1).drop_last() =~= all.take(i as int));
        if i > 0 {
            r.append(sep);
        }
        r.append(parts[i].as_str());
        assert(i == 0 ==> r@ =~= all[0]);
    }
    r
}

} // verus!
