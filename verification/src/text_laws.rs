//! What numerals, durations and dates look like as text.

use crate::calendar;
use crate::html;
use crate::importer;
use crate::pattern;
use crate::rhythm;
use crate::stats;
use crate::text;
use crate::words;
use crate::zone;
use vstd::prelude::*;

verus! {

/// A numeral is made of decimal digits, has no needless zero in front, and stands for its number.
pub proof fn law_numeral_stands_for_its_number(n: nat)
    ensures
        importer::all_digits(text::dec_nat(n)),
        importer::digits_value(text::dec_nat(n)) == n,
        n > 0 ==> text::dec_nat(n)[0] != '0',
        n < 10 ==> text::dec_nat(n).len() == 1,
        n < 100 ==> text::dec_nat(n).len() <= 2,
        n < 1000 ==> text::dec_nat(n).len() <= 3,
        n < 10000 ==> text::dec_nat(n).len() <= 4,
    decreases n,
{
    let s = text::dec_nat(n);
    if n < 10 {
        assert(s =~= seq![text::digit(n as int)]);
        assert(s.drop_last() =~= Seq::<char>::empty());
        reveal_with_fuel(importer::digits_value, 2);
    } else {
        law_numeral_stands_for_its_number(n / 10);
        let front = text::dec_nat(n / 10);
        assert(s.drop_last() =~= front);
        assert(s.last() == text::digit((n % 10) as int));
        assert forall|i: int| 0 <= i < s.len() implies '0' <= #[trigger] s[i] && s[i] <= '9' by {
            if i < front.len() {
                assert(s[i] == front[i]);
            }
        }
        assert(s[0] == front[0]);
    }
}

/// A numeral of an integer is that of its size, after a minus sign where it is negative.
pub proof fn law_negative_numbers_have_a_sign(i: int)
    ensures
        i >= 0 ==> text::dec(i) == text::dec_nat(i as nat),
        i < 0 ==> text::dec(i) == seq!['-'] + text::dec_nat((-i) as nat),
{
}

proof fn lemma_zeros_value(n: int, s: Seq<char>)
    requires
        importer::all_digits(s),
    ensures
        importer::digits_value(text::zeros(n) + s) == importer::digits_value(s),
        importer::all_digits(text::zeros(n) + s),
    decreases s.len(),
{
    let z = text::zeros(n);
    let whole = z + s;
    assert(whole.drop_last() =~= z + s.drop_last());
    assert(whole.last() == s.last());
    if s.len() > 1 {
        let t = s.drop_last();
        assert(forall|i: int| 0 <= i < t.len() ==> t[i] == s[i]);
        lemma_zeros_value(n, t);
    } else {
        assert(z + s.drop_last() =~= z);
        lemma_only_zeros(z);
        assert(importer::digits_value(s.drop_last()) == 0);
    }
}

proof fn lemma_only_zeros(z: Seq<char>)
    requires
        forall|i: int| 0 <= i < z.len() ==> #[trigger] z[i] == '0',
    ensures
        importer::digits_value(z) == 0,
    decreases z.len(),
{
    if z.len() > 0 {
        lemma_only_zeros(z.drop_last());
    }
}

/// A padded numeral stands for the same number and is at least as wide as asked, no wider than need
/// be.
pub proof fn law_padding_keeps_the_number(n: nat, width: nat)
    ensures
        importer::digits_value(text::padded(n, width)) == n,
        importer::all_digits(text::padded(n, width)),
        text::padded(n, width).len() >= width,
        text::padded(n, width).len() == width || text::padded(n, width) == text::dec_nat(n),
{
    law_numeral_stands_for_its_number(n);
    lemma_zeros_value((width - text::dec_nat(n).len()) as int, text::dec_nat(n));
    if text::dec_nat(n).len() >= width {
        assert(text::padded(n, width) =~= text::dec_nat(n));
    }
}

/// A duration in words: nothing or less is `0 s`; else its days, hours, minutes and seconds, the
/// latter three in two digits, from the largest one that it has, hours and minutes left out where they
/// and what follows them are none. The seconds are always told.
pub proof fn law_duration_in_words(t: int, d: int, h: int, m: int, s: int)
    requires
        t == 86400 * d + 3600 * h + 60 * m + s,
        0 <= d,
        0 <= h < 24,
        0 <= m < 60,
        0 <= s < 60,
    ensures
        t == 0 ==> stats::duration_text(t) == "0 s"@,
        t > 0 && d == 0 && h == 0 && m == 0 ==> stats::duration_text(t) == text::padded(
            s as nat,
            2,
        ) + " s"@,
        d == 0 && h == 0 && m > 0 ==> stats::duration_text(t) == text::padded(m as nat, 2) + " m"@
            + " "@ + (text::padded(s as nat, 2) + " s"@),
        d == 0 && h > 0 && (m > 0 || s > 0) ==> stats::duration_text(t) == text::padded(
            h as nat,
            2,
        ) + " h"@ + " "@ + (text::padded(m as nat, 2) + " m"@) + " "@ + (text::padded(s as nat, 2)
            + " s"@),
        d == 0 && h > 0 && m == 0 && s == 0 ==> stats::duration_text(t) == text::padded(
            h as nat,
            2,
        ) + " h"@ + " "@ + (text::padded(0, 2) + " s"@),
        d > 0 && (m > 0 || s > 0) ==> stats::duration_text(t) == text::dec_nat(d as nat) + " d"@
            + " "@ + (text::padded(h as nat, 2) + " h"@) + " "@ + (text::padded(m as nat, 2)
            + " m"@) + " "@ + (text::padded(s as nat, 2) + " s"@),
        d > 0 && h > 0 && m == 0 && s == 0 ==> stats::duration_text(t) == text::dec_nat(d as nat)
            + " d"@ + " "@ + (text::padded(h as nat, 2) + " h"@) + " "@ + (text::padded(0, 2)
            + " s"@),
        d > 0 && h == 0 && m == 0 && s == 0 ==> stats::duration_text(t) == text::dec_nat(d as nat)
            + " d"@ + " "@ + (text::padded(0, 2) + " s"@),
{
    assert(t / 86400 == d && t % 86400 / 3600 == h && t % 3600 / 60 == m && t % 60 == s);
    let days = text::dec_nat(d as nat) + " d"@;
    let hours = text::padded(h as nat, 2) + " h"@;
    let minutes = text::padded(m as nat, 2) + " m"@;
    let seconds = text::padded(s as nat, 2) + " s"@;
    let parts = stats::duration_parts(t);
    if t > 0 {
        if d == 0 && h == 0 && m == 0 {
            assert(parts =~= seq![seconds]);
        } else if d == 0 && h == 0 {
            assert(parts =~= seq![minutes, seconds]);
            lemma_join_two(minutes, seconds);
        } else if d == 0 && (m > 0 || s > 0) {
            assert(parts =~= seq![hours, minutes, seconds]);
            lemma_join_three(hours, minutes, seconds);
        } else if d == 0 {
            assert(parts =~= seq![hours, seconds]);
            lemma_join_two(hours, seconds);
        } else if m > 0 || s > 0 {
            assert(parts =~= seq![days, hours, minutes, seconds]);
            lemma_join_three(days, hours, minutes);
            assert(seq![days, hours, minutes, seconds].drop_last() =~= seq![days, hours, minutes]);
        } else if h > 0 {
            assert(parts =~= seq![days, hours, seconds]);
            lemma_join_three(days, hours, seconds);
        } else {
            assert(parts =~= seq![days, seconds]);
            lemma_join_two(days, seconds);
        }
    }
}

proof fn lemma_join_two(a: Seq<char>, b: Seq<char>)
    ensures
        words::join(seq![a, b], " "@) == a + " "@ + b,
{
    assert(seq![a, b].drop_last() =~= seq![a]);
    reveal_with_fuel(words::join, 2);
}

proof fn lemma_join_three(a: Seq<char>, b: Seq<char>, c: Seq<char>)
    ensures
        words::join(seq![a, b, c], " "@) == a + " "@ + b + " "@ + c,
{
    assert(seq![a, b, c].drop_last() =~= seq![a, b]);
    lemma_join_two(a, b);
}

/// A date is the year in four digits, the month and the day of the month in two, with dashes between
/// them; a month is the same without the day.
pub proof fn law_date_text(y: int, m: int, d: int)
    requires
        calendar::is_date(y, m, d),
        0 <= y <= 9999,
    ensures
        calendar::date_text(calendar::day_number(y, m, d)) == text::padded(y as nat, 4) + seq!['-']
            + text::padded(m as nat, 2) + seq!['-'] + text::padded(d as nat, 2),
        calendar::month_text(calendar::day_number(y, m, d)) == text::padded(y as nat, 4) + seq![
            '-',
        ] + text::padded(m as nat, 2),
{
    calendar::lemma_civil(y, m, d);
}

/// Day numbers count the dates: the next day of a month, the first of the next month, and the first of
/// the next year follow, and the first of January 1970 has its number.
pub proof fn law_day_numbers_count_dates(y: int, m: int, d: int)
    requires
        calendar::is_date(y, m, d),
    ensures
        d < calendar::month_length(y, m) ==> calendar::day_number(y, m, d + 1)
            == calendar::day_number(y, m, d) + 1,
        d == calendar::month_length(y, m) && m < 12 ==> calendar::day_number(y, m + 1, 1)
            == calendar::day_number(y, m, d) + 1,
        d == 31 && m == 12 ==> calendar::day_number(y + 1, 1, 1) == calendar::day_number(y, m, d)
            + 1,
        calendar::day_number(1970, 1, 1) == calendar::EPOCH_DAY,
{
    reveal_with_fuel(calendar::days_before_month, 13);
    lemma_leap_step(y);
}

proof fn lemma_leap_step(y: int)
    ensures
        calendar::days_before_year(y + 1) == calendar::days_before_year(y) + (if y % 4 == 0 && (y
            % 100 != 0 || y % 400 == 0) {
            366int
        } else {
            365
        }),
{
    assert(y / 4 == (y - 1) / 4 + (if y % 4 == 0 {
        1int
    } else {
        0
    }));
    assert(y / 100 == (y - 1) / 100 + (if y % 100 == 0 {
        1int
    } else {
        0
    }));
    assert(y / 400 == (y - 1) / 400 + (if y % 400 == 0 {
        1int
    } else {
        0
    }));
    assert(y % 400 == 0 ==> y % 100 == 0);
    assert(y % 100 == 0 ==> y % 4 == 0);
}

/// Escaping goes character by character: the four characters with a meaning in HTML become their
/// names, all others stay.
pub proof fn law_escaping_goes_by_character(s: Seq<char>, c: char)
    ensures
        html::escaped(Seq::<char>::empty()) == Seq::<char>::empty(),
        html::escaped(s.push('&')) == html::escaped(s) + "&amp;"@,
        html::escaped(s.push('<')) == html::escaped(s) + "&lt;"@,
        html::escaped(s.push('>')) == html::escaped(s) + "&gt;"@,
        html::escaped(s.push('"')) == html::escaped(s) + "&quot;"@,
        c != '&' && c != '<' && c != '>' && c != '"' ==> html::escaped(s.push(c)) == html::escaped(
            s,
        ).push(c),
{
    assert(s.push('&').drop_last() =~= s);
    assert(s.push('<').drop_last() =~= s);
    assert(s.push('>').drop_last() =~= s);
    assert(s.push('"').drop_last() =~= s);
    assert(s.push(c).drop_last() =~= s);
    assert(html::escaped(s) + seq![c] =~= html::escaped(s).push(c));
}

proof fn lemma_parts_of_a_moment(day: int, hour: int, minute: int, second: int, ts: int)
    requires
        0 <= hour < 24,
        0 <= minute < 60,
        0 <= second < 60,
        ts == (day - calendar::EPOCH_DAY) * 86400 + hour * 3600 + minute * 60 + second,
    ensures
        calendar::day_of(ts) == day,
        calendar::hour_of(ts) == hour,
        calendar::minute_of(ts) == minute,
        ts % 60 == second,
{
    let days = day - calendar::EPOCH_DAY;
    let of_day = hour * 3600 + minute * 60 + second;
    let of_hour = minute * 60 + second;
    vstd::arithmetic::div_mod::lemma_fundamental_div_mod_converse(ts, 86400, days, of_day);
    vstd::arithmetic::div_mod::lemma_fundamental_div_mod_converse(of_day, 3600, hour, of_hour);
    vstd::arithmetic::div_mod::lemma_fundamental_div_mod_converse(
        ts,
        3600,
        days * 24 + hour,
        of_hour,
    );
    vstd::arithmetic::div_mod::lemma_fundamental_div_mod_converse(of_hour, 60, minute, second);
    vstd::arithmetic::div_mod::lemma_fundamental_div_mod_converse(
        ts,
        60,
        days * 1440 + hour * 60 + minute,
        second,
    );
}

/// A moment in UTC is its date, the hour, the minute and the second, in two digits each.
#[verifier::spinoff_prover]
#[verifier::rlimit(40)]
pub proof fn law_moment_text(y: int, m: int, d: int, hour: int, minute: int, second: int, ts: int)
    requires
        calendar::is_date(y, m, d),
        0 <= y <= 9999,
        0 <= hour < 24,
        0 <= minute < 60,
        0 <= second < 60,
        ts == (calendar::day_number(y, m, d) - calendar::EPOCH_DAY) * 86400 + hour * 3600 + minute
            * 60 + second,
        calendar::representable(ts),
    ensures
        html::stamp_text(ts) == text::padded(y as nat, 4) + seq!['-'] + text::padded(m as nat, 2)
            + seq!['-'] + text::padded(d as nat, 2) + seq![' '] + (text::padded(hour as nat, 2)
            + seq![':'] + text::padded(minute as nat, 2)) + seq![':'] + text::padded(
            second as nat,
            2,
        ),
{
    let day = calendar::day_number(y, m, d);
    lemma_parts_of_a_moment(day, hour, minute, second, ts);
    law_date_text(y, m, d);
    assert(calendar::clock_text(ts) == text::padded(hour as nat, 2) + seq![':'] + text::padded(
        minute as nat,
        2,
    ));
}

/// In a pattern `_` stands for any one character, `%` for any text, also none, and another character
/// for itself, where upper and lower case letters of ASCII are the same.
pub proof fn law_patterns(p: Seq<char>, t: Seq<char>, c: char, d: char, k: int)
    ensures
        pattern::like(seq!['_'] + p, seq![d] + t) == pattern::like(p, t),
        !pattern::like(seq!['_'] + p, Seq::<char>::empty()),
        0 <= k <= t.len() && pattern::like(p, t.skip(k)) ==> pattern::like(seq!['%'] + p, t),
        pattern::like(seq!['%'] + p, t) ==> exists|j: int|
            0 <= j <= t.len() && pattern::like(p, #[trigger] t.skip(j)),
        c != '_' && c != '%' ==> (pattern::like(seq![c] + p, seq![d] + t) <==> (c == d || (is_letter(
            c,
        ) && is_letter(d) && (c as int - d as int == 32 || d as int - c as int == 32)))
            && pattern::like(p, t)),
        pattern::like(Seq::<char>::empty(), t) <==> t.len() == 0,
{
    assert((seq!['_'] + p).drop_first() =~= p);
    assert((seq![c] + p).drop_first() =~= p);
    assert((seq![d] + t).drop_first() =~= t);
    lemma_any_text(p, t);
    if 0 <= k <= t.len() && pattern::like(p, t.skip(k)) {
        lemma_any_text_holds(p, t, k);
    }
}

/// Whether a character is a letter of ASCII.
pub open spec fn is_letter(c: char) -> bool {
    ('a' <= c && c <= 'z') || ('A' <= c && c <= 'Z')
}

proof fn lemma_any_text(p: Seq<char>, t: Seq<char>)
    ensures
        pattern::like(seq!['%'] + p, t) ==> exists|j: int|
            0 <= j <= t.len() && pattern::like(p, #[trigger] t.skip(j)),
    decreases t.len(),
{
    assert((seq!['%'] + p).drop_first() =~= p);
    assert(t.skip(0) =~= t);
    if pattern::like(seq!['%'] + p, t) && !pattern::like(p, t) {
        lemma_any_text(p, t.drop_first());
        let j = choose|j: int|
            0 <= j <= t.drop_first().len() && pattern::like(p, #[trigger] t.drop_first().skip(j));
        assert(t.drop_first().skip(j) =~= t.skip(j + 1));
    }
}

proof fn lemma_any_text_holds(p: Seq<char>, t: Seq<char>, k: int)
    requires
        0 <= k <= t.len(),
        pattern::like(p, t.skip(k)),
    ensures
        pattern::like(seq!['%'] + p, t),
    decreases k,
{
    assert((seq!['%'] + p).drop_first() =~= p);
    if k == 0 {
        assert(t.skip(0) =~= t);
    } else {
        assert(t.drop_first().skip(k - 1) =~= t.skip(k));
        lemma_any_text_holds(p, t.drop_first(), k - 1);
    }
}

/// A quotient to one decimal place is the nearest tenth, a half upwards: its whole part, a point and
/// one digit, with a minus sign before it where it is negative.
pub proof fn law_tenths(n: int, d: int, tenths: int)
    requires
        0 <= n,
        0 < d,
        -d <= 20 * n - 2 * d * tenths < d,
    ensures
        stats::tenths_text(n, d) == text::dec_nat((tenths / 10) as nat) + seq!['.'] + text::dec_nat(
            (tenths % 10) as nat,
        ),
        n > 0 ==> stats::tenths_text(-n, d) == seq!['-'] + (text::dec_nat((tenths / 10) as nat)
            + seq!['.'] + text::dec_nat((tenths % 10) as nat)),
{
    let rest = 20 * n + d - tenths * (2 * d);
    assert(tenths * (2 * d) == 2 * d * tenths) by (nonlinear_arith);
    vstd::arithmetic::div_mod::lemma_fundamental_div_mod_converse(20 * n + d, 2 * d, tenths, rest);
}

/// The period that covers everything is named after its length: in months of 30 days below a year, in
/// years of 365 days from there on.
pub proof fn law_whole_period_is_named_after_its_length(days: int, tenths: int)
    requires
        0 <= days,
    ensures
        days < 365 && -30 <= 20 * days - 60 * tenths < 30 ==> stats::all_time_name(days)
            == "All Time ("@ + (text::dec_nat((tenths / 10) as nat) + seq!['.'] + text::dec_nat(
            (tenths % 10) as nat,
        )) + " months)"@,
        days >= 365 && -365 <= 20 * days - 730 * tenths < 365 ==> stats::all_time_name(days)
            == "All Time ("@ + (text::dec_nat((tenths / 10) as nat) + seq!['.'] + text::dec_nat(
            (tenths % 10) as nat,
        )) + " years)"@,
{
    if days < 365 && -30 <= 20 * days - 60 * tenths < 30 {
        law_tenths(days, 30, tenths);
    }
    if days >= 365 && -365 <= 20 * days - 730 * tenths < 365 {
        law_tenths(days, 365, tenths);
    }
}

/// The moment on a wall clock is its date, the hour and the minute, in two digits each.
pub proof fn law_wall_clock_text(
    zone_name: Seq<char>,
    y: int,
    m: int,
    d: int,
    hour: int,
    minute: int,
    second: int,
    ts: int,
)
    requires
        calendar::representable(ts),
        calendar::is_date(y, m, d),
        0 <= y <= 9999,
        0 <= hour < 24,
        0 <= minute < 60,
        0 <= second < 60,
        zone::local_time(zone_name, ts) == (calendar::day_number(y, m, d) - calendar::EPOCH_DAY)
            * 86400 + hour * 3600 + minute * 60 + second,
    ensures
        rhythm::moment_text(zone_name, ts) == text::padded(y as nat, 4) + seq!['-'] + text::padded(
            m as nat,
            2,
        ) + seq!['-'] + text::padded(d as nat, 2) + seq![' '] + (text::padded(hour as nat, 2)
            + seq![':'] + text::padded(minute as nat, 2)),
{
    let local = zone::local_time(zone_name, ts);
    lemma_parts_of_a_moment(calendar::day_number(y, m, d), hour, minute, second, local);
    law_date_text(y, m, d);
}

/// Whether a text is the beginning `a` and the end `b` of a token with stars between them: six bytes of
/// its beginning and four of its end.
pub open spec fn shows_ends(token: Seq<char>, shown: Seq<char>, a: Seq<char>, b: Seq<char>) -> bool {
    &&& shown == a + "****"@ + b
    &&& token.len() >= a.len() && token.take(a.len() as int) == a
    &&& token.len() >= b.len() && token.skip(token.len() - b.len()) == b
    &&& vstd::utf8::encode_utf8(a).len() == 6
    &&& vstd::utf8::encode_utf8(b).len() == 4
}

/// Of a token of at most twelve bytes nothing is shown; of a longer one the first six and the last
/// four bytes, where those are whole characters.
pub proof fn law_tokens_are_shown_by_their_ends(token: Seq<char>)
    ensures
        vstd::utf8::encode_utf8(token).len() <= 12 ==> html::preview(token) == "****"@,
        ({
            let bytes = vstd::utf8::encode_utf8(token);
            bytes.len() > 12 && vstd::utf8::is_char_boundary(bytes, 6)
                && vstd::utf8::is_char_boundary(bytes, bytes.len() - 4) ==> exists|
                a: Seq<char>,
                b: Seq<char>,
            | #[trigger]
                shows_ends(token, html::preview(token), a, b)
        }),
{
    let bytes = vstd::utf8::encode_utf8(token);
    let n = bytes.len() as int;
    if n > 12 && vstd::utf8::is_char_boundary(bytes, 6) && vstd::utf8::is_char_boundary(
        bytes,
        n - 4,
    ) {
        vstd::utf8::encode_utf8_valid_utf8(token);
        vstd::utf8::encode_utf8_decode_utf8(token);
        vstd::utf8::valid_utf8_split(bytes, 6);
        vstd::utf8::valid_utf8_split(bytes, n - 4);
        vstd::utf8::decode_utf8_split(bytes, 6);
        vstd::utf8::decode_utf8_split(bytes, n - 4);
        let a = vstd::utf8::decode_utf8(bytes.subrange(0, 6));
        let b = vstd::utf8::decode_utf8(bytes.subrange(n - 4, n));
        vstd::utf8::decode_utf8_encode_utf8(bytes.subrange(0, 6));
        vstd::utf8::decode_utf8_encode_utf8(bytes.subrange(n - 4, n));
        assert(token.take(a.len() as int) =~= a);
        assert(token.skip(token.len() - b.len()) =~= b);
        assert(shows_ends(token, html::preview(token), a, b));
    }
}

} // verus!
