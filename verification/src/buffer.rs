//! Reports that could not be made and are kept in a file, a line each.

use crate::text;
use crate::words;
use crate::words::{split_lines, trimmed};
use vstd::prelude::*;

verus! {

/// The lines among the first `n` that hold more than white space.
pub open spec fn filled(lines: Seq<Seq<char>>, n: int) -> Seq<Seq<char>>
    decreases n,
{
    if n <= 0 {
        Seq::empty()
    } else if words::trim(lines[n - 1]).len() > 0 {
        filled(lines, n - 1).push(lines[n - 1])
    } else {
        filled(lines, n - 1)
    }
}

/// The lines of a file that hold a report.
pub open spec fn kept_lines(content: Seq<char>) -> Seq<Seq<char>> {
    let lines = words::lines(content);
    filled(lines, lines.len() as int)
}

/// The file that holds the given lines.
pub open spec fn file_of(lines: Seq<Seq<char>>) -> Seq<char>
    decreases lines.len(),
{
    if lines.len() == 0 {
        Seq::empty()
    } else {
        (file_of(lines.drop_last()) + lines.last()).push('\n')
    }
}

/// The file of kept reports.
#[derive(Debug)]
pub struct RetryBuffer {
    pub path: String,
}

impl RetryBuffer {
    /// The file at a path.
    pub fn new(path: &str) -> (r: RetryBuffer)
        ensures
            r.path@ == path@,
    {
        RetryBuffer { path: path.to_owned() }
    }

    /// What is written behind the file's content to keep one more report.
    pub fn append(&self, line: &str) -> (r: String)
        ensures
            r@ == line@.push('\n'),
    {
        let mut r = line.to_owned();
        r.push('\n');
        r
    }

    /// The pass over the file, given its content, which is none where there is no file; `None`
    /// where there is nothing to do.
    pub fn replay(&self, content: Option<&str>) -> (r: Option<Replay>)
        ensures
            match r {
                None => content is None || words::trim(content->0@).len() == 0,
                Some(pass) => content is Some && words::trim(content->0@).len() > 0 && pass@ == (
                ReplayView {
                    pending: kept_lines(content->0@),
                    replayed: 0,
                    remaining: Seq::empty(),
                }),
            },
    {
        match content {
            Some(content) => Replay::new(content),
            None => None,
        }
    }
}

/// A pass over the kept reports.
#[derive(Debug)]
pub struct Replay {
    lines: Vec<String>,
    next: usize,
    replayed: usize,
    remaining: Vec<String>,
}

/// The view of a pass: the lines still to come, how many reports were made, and the lines that
/// stay.
#[verifier::ext_equal]
pub struct ReplayView {
    pub pending: Seq<Seq<char>>,
    pub replayed: nat,
    pub remaining: Seq<Seq<char>>,
}

impl View for Replay {
    type V = ReplayView;

    closed spec fn view(&self) -> ReplayView {
        ReplayView {
            pending: text::texts(self.lines@).skip(self.next as int),
            replayed: self.replayed as nat,
            remaining: text::texts(self.remaining@),
        }
    }
}

impl ReplayView {
    /// The pass after it became known whether the report of the next line was made.
    pub open spec fn settled(self, made: bool) -> ReplayView {
        if self.pending.len() == 0 {
            self
        } else if made {
            ReplayView {
                pending: self.pending.drop_first(),
                replayed: self.replayed + 1,
                remaining: self.remaining,
            }
        } else {
            ReplayView {
                pending: self.pending.drop_first(),
                replayed: self.replayed,
                remaining: self.remaining.push(self.pending[0]),
            }
        }
    }

    /// The pass after all that is known of its lines, in order.
    pub open spec fn after(self, made: Seq<bool>) -> ReplayView
        decreases made.len(),
    {
        if made.len() == 0 {
            self
        } else {
            self.after(made.drop_last()).settled(made.last())
        }
    }
}

/// The lines of a pass whose reports were not made, among the first `n`.
pub open spec fn unmade(lines: Seq<Seq<char>>, made: Seq<bool>, n: int) -> Seq<Seq<char>>
    decreases n,
{
    if n <= 0 {
        Seq::empty()
    } else if made[n - 1] {
        unmade(lines, made, n - 1)
    } else {
        unmade(lines, made, n - 1).push(lines[n - 1])
    }
}

/// A pass loses no report: every line was either replayed, which is counted, or stays, in the
/// order of the file, or is still to come.
pub proof fn law_replay_loses_nothing(lines: Seq<Seq<char>>, made: Seq<bool>)
    requires
        made.len() <= lines.len(),
    ensures
        ({
            let begun = ReplayView { pending: lines, replayed: 0, remaining: Seq::empty() };
            let now = begun.after(made);
            &&& now.pending == lines.skip(made.len() as int)
            &&& now.remaining == unmade(lines, made, made.len() as int)
            &&& now.replayed + now.remaining.len() == made.len()
        }),
    decreases made.len(),
{
    let begun = ReplayView { pending: lines, replayed: 0, remaining: Seq::empty() };
    if made.len() == 0 {
        assert(lines.skip(0) =~= lines);
    } else {
        let n = made.len() - 1;
        law_replay_loses_nothing(lines, made.drop_last());
        assert(lines.skip(n).drop_first() =~= lines.skip(n + 1));
        lemma_unmade_prefix(lines, made, n);
    }
}

proof fn lemma_unmade_prefix(lines: Seq<Seq<char>>, made: Seq<bool>, n: int)
    requires
        0 <= n < made.len(),
    ensures
        unmade(lines, made.drop_last(), n) == unmade(lines, made, n),
    decreases n,
{
    if n > 0 {
        lemma_unmade_prefix(lines, made, n - 1);
    }
}

/// Whether a text is one line that a file can hold: no line feed in it, no carriage return at its
/// end, and not blank.
pub open spec fn is_entry(line: Seq<char>) -> bool {
    &&& !line.contains('\n')
    &&& line.len() > 0 ==> line.last() != '\r'
    &&& words::trim(line).len() > 0
}

/// Whether a file ends where a line does.
pub open spec fn is_closed(content: Seq<char>) -> bool {
    content.len() == 0 || content.last() == '\n'
}

proof fn lemma_split_more(s: Seq<char>, t: Seq<char>)
    requires
        !t.contains('\n'),
    ensures
        words::split(s + t, '\n').len() == words::split(s, '\n').len() > 0,
        words::split(s + t, '\n').drop_last() == words::split(s, '\n').drop_last(),
        words::split(s + t, '\n').last() == words::split(s, '\n').last() + t,
    decreases t.len(),
{
    if t.len() == 0 {
        lemma_split_some(s);
        assert(s + t =~= s);
        assert(words::split(s, '\n').last() + t =~= words::split(s, '\n').last());
    } else {
        let shorter = t.drop_last();
        assert forall|i: int| 0 <= i < shorter.len() implies shorter[i] != '\n' by {
            assert(t.contains(t[i]));
        }
        assert(t.contains(t.last()));
        lemma_split_more(s, shorter);
        assert((s + t).drop_last() =~= s + shorter);
        assert((s + t).last() == t.last());
        let before = words::split(s + shorter, '\n');
        assert(words::split(s + t, '\n') == before.drop_last().push(
            before.last().push(t.last()),
        ));
        assert(before.drop_last().push(before.last().push(t.last())).drop_last()
            =~= before.drop_last());
        assert((words::split(s, '\n').last() + shorter).push(t.last()) =~= words::split(
            s,
            '\n',
        ).last() + t);
    }
}

proof fn lemma_split_some(s: Seq<char>)
    ensures
        words::split(s, '\n').len() > 0,
        is_closed(s) ==> words::split(s, '\n').last().len() == 0,
    decreases s.len(),
{
    if s.len() > 0 {
        lemma_split_some(s.drop_last());
    }
}

proof fn lemma_lines_prefix(a: Seq<Seq<char>>, b: Seq<Seq<char>>, n: int)
    requires
        0 <= n < a.len(),
        n < b.len(),
        forall|i: int| 0 <= i < n ==> a[i] == b[i],
    ensures
        words::lines_in(a, n) == words::lines_in(b, n),
    decreases n,
{
    if n > 0 {
        lemma_lines_prefix(a, b, n - 1);
    }
}

proof fn lemma_filled_prefix(a: Seq<Seq<char>>, b: Seq<Seq<char>>, n: int)
    requires
        0 <= n <= a.len(),
        n <= b.len(),
        forall|i: int| 0 <= i < n ==> a[i] == b[i],
    ensures
        filled(a, n) == filled(b, n),
    decreases n,
{
    if n > 0 {
        lemma_filled_prefix(a, b, n - 1);
    }
}

/// A report that is kept comes back, after those that were kept before.
pub proof fn law_kept_report_comes_back(content: Seq<char>, line: Seq<char>)
    requires
        is_closed(content),
        is_entry(line),
    ensures
        kept_lines(content + line.push('\n')) == kept_lines(content).push(line),
        is_closed(content + line.push('\n')),
{
    let old_pieces = words::split(content, '\n');
    let n = old_pieces.len() as int;
    lemma_split_some(content);
    lemma_split_more(content, line);
    let whole = content + line.push('\n');
    assert(whole.drop_last() =~= content + line);
    let pieces = words::split(whole, '\n');
    let joined = words::split(content + line, '\n');
    assert(pieces == joined.push(Seq::empty()));
    assert(old_pieces.last() + line =~= line);
    assert(joined[n - 1] == line);
    assert forall|i: int| 0 <= i < n - 1 implies pieces[i] == old_pieces[i] by {
        assert(joined.drop_last()[i] == old_pieces.drop_last()[i]);
    }
    lemma_lines_prefix(pieces, old_pieces, n - 1);
    let before = words::lines(content);
    let after = words::lines(whole);
    assert(before == words::lines_in(old_pieces, n - 1));
    assert(words::lines_in(pieces, n) == words::lines_in(pieces, n - 1).push(line));
    assert(after == before.push(line));
    lemma_filled_prefix(after, before, before.len() as int);
}

/// A file that is written anew holds the lines it was written from.
pub proof fn law_file_holds_its_lines(lines: Seq<Seq<char>>)
    requires
        forall|i: int| 0 <= i < lines.len() ==> is_entry(#[trigger] lines[i]),
    ensures
        kept_lines(file_of(lines)) == lines,
        is_closed(file_of(lines)),
    decreases lines.len(),
{
    if lines.len() == 0 {
        assert(words::split(file_of(lines), '\n') =~= seq![Seq::<char>::empty()]);
        let pieces = words::split(file_of(lines), '\n');
        assert(words::lines_in(pieces, 1) == words::lines_in(pieces, 0));
        assert(words::lines(file_of(lines)).len() == 0);
        assert(kept_lines(file_of(lines)) =~= lines);
    } else {
        let shorter = lines.drop_last();
        assert forall|i: int| 0 <= i < shorter.len() implies is_entry(#[trigger] shorter[i]) by {
            assert(is_entry(lines[i]));
        }
        law_file_holds_its_lines(shorter);
        assert(is_entry(lines[lines.len() - 1]));
        law_kept_report_comes_back(file_of(shorter), lines.last());
        assert(file_of(lines) =~= file_of(shorter) + lines.last().push('\n'));
        assert(shorter.push(lines.last()) =~= lines);
    }
}

/// What becomes of the file after a pass.
#[derive(Debug)]
pub enum Leftover {
    /// Nothing is left: the file goes.
    Remove,
    /// The file is written anew.
    Rewrite(String),
}

impl Replay {
    #[verifier::type_invariant]
    closed spec fn inv(self) -> bool {
        self.replayed <= self.next <= self.lines@.len()
    }

    /// A pass over a file, or `None` where the file holds nothing but white space.
    pub fn new(content: &str) -> (r: Option<Replay>)
        ensures
            match r {
                None => words::trim(content@).len() == 0,
                Some(pass) => words::trim(content@).len() > 0 && pass@ == (ReplayView {
                    pending: kept_lines(content@),
                    replayed: 0,
                    remaining: Seq::empty(),
                }),
            },
    {
        if trimmed(content).as_str().is_empty() {
            return None;
        }
        let all = split_lines(content);
        let ghost lines = text::texts(all@);
        let mut kept: Vec<String> = Vec::new();
        assert(text::texts(kept@) =~= filled(lines, 0));
        for i in 0..all.len()
            invariant
                lines == text::texts(all@),
                text::texts(kept@) == filled(lines, i as int),
        {
            let ghost before = kept@;
            assert(lines[i as int] == all@[i as int]@);
            if !trimmed(all[i].as_str()).as_str().is_empty() {
                let t = all[i].clone();
                kept.push(t);
                assert(text::texts(kept@) =~= text::texts(before).push(t@));
            }
        }
        let pass = Replay { lines: kept, next: 0, replayed: 0, remaining: Vec::new() };
        assert(pass@.pending =~= kept_lines(content@));
        assert(pass@.remaining =~= Seq::<Seq<char>>::empty());
        Some(pass)
    }

    /// The line that comes next.
    pub fn line(&self) -> (r: Option<&str>)
        ensures
            match r {
                Some(line) => self@.pending.len() > 0 && line@ == self@.pending[0],
                None => self@.pending.len() == 0,
            },
    {
        proof {
            use_type_invariant(self);
        }
        if self.next < self.lines.len() {
            Some(self.lines[self.next].as_str())
        } else {
            None
        }
    }

    /// Notes what became of the next line: its report was made, or the line stays.
    pub fn settle(&mut self, made: bool)
        ensures
            final(self)@ == old(self)@.settled(made),
    {
        proof {
            use_type_invariant(&*self);
        }
        let next: usize = self.next;
        if next < self.lines.len() {
            let ghost before = self.remaining@;
            let ghost all = text::texts(self.lines@);
            let line = self.lines[next].clone();
            assert(all.skip(next as int).drop_first() =~= all.skip(next + 1));
            self.next = next + 1;
            if made {
                let replayed: usize = self.replayed;
                self.replayed = replayed + 1;
            } else {
                let mut remaining: Vec<String> = Vec::new();
                std::mem::swap(&mut remaining, &mut self.remaining);
                remaining.push(line);
                self.remaining = remaining;
                assert(text::texts(self.remaining@) =~= text::texts(before).push(line@));
            }
        }
    }

    /// How many reports were made, and what becomes of the file.
    pub fn finish(self) -> (r: (usize, Leftover))
        ensures
            r.0 == self@.replayed,
            match r.1 {
                Leftover::Remove => self@.remaining.len() == 0,
                Leftover::Rewrite(content) => self@.remaining.len() > 0 && content@ == file_of(
                    self@.remaining,
                ),
            },
    {
        let n: usize = self.remaining.len();
        let ghost lines = text::texts(self.remaining@);
        if n == 0 {
            return (self.replayed, Leftover::Remove);
        }
        let mut content = String::new();
        assert(content@ =~= file_of(lines.take(0)));
        for i in 0..n
            invariant
                n == self.remaining@.len(),
                lines == text::texts(self.remaining@),
                content@ == file_of(lines.take(i as int)),
        {
            assert(lines.take(i + 1).drop_last() =~= lines.take(i as int));
            content.append(self.remaining[i].as_str());
            content.push('\n');
        }
        assert(lines.take(n as int) =~= lines);
        (self.replayed, Leftover::Rewrite(content))
    }
}

} // verus!
