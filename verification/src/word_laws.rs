//! What trimming, splitting and the clock of a zone come to.

use crate::calendar;
use crate::words;
use crate::zone;
use vstd::prelude::*;

verus! {

/// Blanks, tabs and line ends are white space; visible characters of ASCII are not.
pub proof fn law_white_space(c: char)
    ensures
        words::is_space(' ') && words::is_space('\t') && words::is_space('\n') && words::is_space(
            '\r',
        ),
        '!' <= c && c <= '~' ==> !words::is_space(c),
{
}

/// Trimming takes white space off both ends and nothing else: what is left begins and ends with
/// another character, stands in the text, and all around it is white space.
pub proof fn law_trimming(s: Seq<char>)
    ensures
        ({
            let t = words::trim(s);
            &&& t.len() > 0 ==> !words::is_space(t[0]) && !words::is_space(t.last())
            &&& exists|k: int| #[trigger] stands_alone(s, t, k)
        }),
{
    let a = words::trim_start(s);
    let t = words::trim(s);
    lemma_trim_start(s);
    lemma_trim_end(a);
    let k = s.len() - a.len();
    assert forall|i: int| 0 <= i < s.len() && !(k <= i < k + t.len()) implies words::is_space(
        #[trigger] s[i],
    ) by {
        if i >= k + t.len() {
            assert(s[i] == a[i - k]);
        }
    }
    assert(s.subrange(k, k + t.len()) =~= t);
    assert(stands_alone(s, t, k));
    if t.len() > 0 {
        assert(t[0] == a[0]);
    }
}

/// Whether `t` stands in `s` from place `k` on with nothing but white space around it.
pub open spec fn stands_alone(s: Seq<char>, t: Seq<char>, k: int) -> bool {
    &&& 0 <= k
    &&& k + t.len() <= s.len()
    &&& s.subrange(k, k + t.len()) == t
    &&& forall|i: int|
        0 <= i < s.len() && !(k <= i < k + t.len()) ==> words::is_space(#[trigger] s[i])
}

proof fn lemma_trim_start(s: Seq<char>)
    ensures
        ({
            let a = words::trim_start(s);
            &&& a.len() <= s.len()
            &&& a == s.skip(s.len() - a.len())
            &&& a.len() > 0 ==> !words::is_space(a[0])
            &&& forall|i: int| 0 <= i < s.len() - a.len() ==> words::is_space(#[trigger] s[i])
        }),
    decreases s.len(),
{
    let a = words::trim_start(s);
    if s.len() > 0 && words::is_space(s[0]) {
        lemma_trim_start(s.drop_first());
        assert(a =~= s.skip(s.len() - a.len()));
        assert forall|i: int| 0 <= i < s.len() - a.len() implies words::is_space(#[trigger] s[i]) by {
            if i > 0 {
                assert(s[i] == s.drop_first()[i - 1]);
            }
        }
    } else {
        assert(a =~= s.skip(0));
    }
}

proof fn lemma_trim_end(s: Seq<char>)
    ensures
        ({
            let a = words::trim_end(s);
            &&& a.len() <= s.len()
            &&& a == s.take(a.len() as int)
            &&& a.len() > 0 ==> !words::is_space(a.last())
            &&& forall|i: int| a.len() <= i < s.len() ==> words::is_space(#[trigger] s[i])
        }),
    decreases s.len(),
{
    let a = words::trim_end(s);
    if s.len() > 0 && words::is_space(s.last()) {
        lemma_trim_end(s.drop_last());
        assert(a =~= s.take(a.len() as int));
        assert forall|i: int| a.len() <= i < s.len() implies words::is_space(#[trigger] s[i]) by {
            if i < s.len() - 1 {
                assert(s[i] == s.drop_last()[i]);
            }
        }
    } else {
        assert(a =~= s.take(s.len() as int));
    }
}

/// The pieces of a split text, joined by the character at which it was split, are the text again, and
/// none of them holds that character.
pub proof fn law_split_pieces_join_again(s: Seq<char>, at: char)
    ensures
        words::split(s, at).len() >= 1,
        words::join(words::split(s, at), seq![at]) == s,
        forall|i: int|
            0 <= i < words::split(s, at).len() ==> !(#[trigger] words::split(s, at)[i]).contains(at),
    decreases s.len(),
{
    let all = words::split(s, at);
    if s.len() > 0 {
        let before = words::split(s.drop_last(), at);
        law_split_pieces_join_again(s.drop_last(), at);
        if s.last() == at {
            assert(all.drop_last() =~= before);
            assert(words::join(all, seq![at]) =~= s);
        } else {
            let front = before.drop_last();
            assert(all.drop_last() =~= front);
            assert(words::join(all, seq![at]) =~= words::join(before, seq![at]).push(s.last()));
            assert(s =~= s.drop_last().push(s.last()));
            assert forall|i: int| 0 <= i < all.len() implies !(#[trigger] all[i]).contains(at) by {
                if i == all.len() - 1 {
                    let piece = before.last();
                    assert(all[i] == piece.push(s.last()));
                    assert(!before[before.len() - 1].contains(at));
                    if all[i].contains(at) {
                        let k = choose|k: int| 0 <= k < all[i].len() && all[i][k] == at;
                        assert(piece[k] == at);
                        assert(piece.contains(at));
                    }
                } else {
                    assert(all[i] == before[i]);
                }
            }
        }
    }
}

/// A word behind a text and a blank is one more word; a blank at the end changes nothing.
pub proof fn law_words_lie_between_white_space(s: Seq<char>, w: Seq<char>)
    requires
        w.len() > 0,
        forall|i: int| 0 <= i < w.len() ==> !words::is_space(#[trigger] w[i]),
    ensures
        words::words(Seq::<char>::empty()).len() == 0,
        words::words(s.push(' ')) == words::words(s),
        words::words(s.push(' ') + w) == words::words(s).push(w),
{
    let front = s.push(' ');
    assert(front.drop_last() =~= s);
    assert(words::words_and_rest(front) == (words::words(s), Seq::<char>::empty()));
    lemma_word(front, w);
}

proof fn lemma_word(front: Seq<char>, w: Seq<char>)
    requires
        words::words_and_rest(front).1.len() == 0,
        forall|i: int| 0 <= i < w.len() ==> !words::is_space(#[trigger] w[i]),
    ensures
        words::words_and_rest(front + w) == (words::words_and_rest(front).0, w),
    decreases w.len(),
{
    if w.len() == 0 {
        assert(front + w =~= front);
        assert(words::words_and_rest(front).1 =~= w);
    } else {
        lemma_word(front, w.drop_last());
        assert((front + w).drop_last() =~= front + w.drop_last());
        assert((front + w).last() == w.last());
        assert(w.drop_last().push(w.last()) =~= w);
    }
}

/// One carriage return at the end of a line is left out, and nothing else.
pub proof fn law_carriage_return_is_left_out(line: Seq<char>)
    ensures
        line.len() == 0 || line.last() != '\r' ==> words::without_return(line) == line,
        words::without_return(line.push('\r')) == line,
{
    assert(line.push('\r').drop_last() =~= line);
}

/// In a zone the wall clock shows the instant and the offset together, and the date is that of this
/// reading.
pub proof fn law_wall_clock_is_the_instant_and_the_offset(name: Seq<char>, ts: int)
    requires
        calendar::representable(ts),
    ensures
        zone::local_time(name, ts) == ts + zone::zone_offset(name, ts),
        calendar::representable(ts + zone::zone_offset(name, ts)) ==> {
            let day = zone::date_at(name, ts) - calendar::EPOCH_DAY;
            day * 86400 <= ts + zone::zone_offset(name, ts) < (day + 1) * 86400
        },
{
}

/// A date starts at the earliest instant of its first minute that the wall clock shows: midnight,
/// unless the clock leaves it out.
pub proof fn law_date_starts_with_its_first_minute(name: Seq<char>, day: int, minute: int)
    requires
        0 <= minute < 1440,
        zone::local_instants(name, (day - calendar::EPOCH_DAY) * 86400 + minute * 60).len() > 0,
        forall|m: int|
            0 <= m < minute ==> #[trigger] zone::local_instants(
                name,
                (day - calendar::EPOCH_DAY) * 86400 + m * 60,
            ).len() == 0,
    ensures
        zone::date_start(name, day) == zone::local_instants(
            name,
            (day - calendar::EPOCH_DAY) * 86400 + minute * 60,
        )[0],
{
    lemma_first_shown(name, day, 0, minute);
}

proof fn lemma_first_shown(name: Seq<char>, day: int, from: int, minute: int)
    requires
        0 <= from <= minute < 1440,
        zone::local_instants(name, (day - calendar::EPOCH_DAY) * 86400 + minute * 60).len() > 0,
        forall|m: int|
            0 <= m < minute ==> #[trigger] zone::local_instants(
                name,
                (day - calendar::EPOCH_DAY) * 86400 + m * 60,
            ).len() == 0,
    ensures
        zone::first_shown(name, day, from) == minute,
    decreases minute - from,
{
    if from < minute {
        assert(zone::local_instants(
            name,
            (day - calendar::EPOCH_DAY) * 86400 + from * 60,
        ).len() == 0);
        lemma_first_shown(name, day, from + 1, minute);
    }
}

} // verus!
