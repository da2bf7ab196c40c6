//! The administration page.

use crate::arith::floor_mod;
use crate::calendar;
use crate::calendar::{clock_string, date_string, instant, local_day};
use crate::db;
use crate::db::{ApiToken, Record};
use crate::text;
use crate::text::{chars_of, int_text, padded_text};
use vstd::prelude::*;

verus! {

/// What stands for a character in HTML text.
pub open spec fn escape_char(c: char) -> Seq<char> {
    if c == '&' {
        "&amp;"@
    } else if c == '<' {
        "&lt;"@
    } else if c == '>' {
        "&gt;"@
    } else if c == '"' {
        "&quot;"@
    } else {
        seq![c]
    }
}

/// A text with the characters that HTML gives a meaning replaced.
pub open spec fn escaped(s: Seq<char>) -> Seq<char>
    decreases s.len(),
{
    if s.len() == 0 {
        Seq::empty()
    } else {
        escaped(s.drop_last()) + escape_char(s.last())
    }
}

/// A text with the characters that HTML gives a meaning replaced.
pub fn html_escape(s: &str) -> (r: String)
    ensures
        r@ == escaped(s@),
{
    let v = chars_of(s);
    let mut r = String::new();
    assert(v@.take(0) =~= Seq::<char>::empty());
    for i in 0..v.len()
        invariant
            v@ == s@,
            r@ == escaped(v@.take(i as int)),
    {
        assert(v@.take(i + 1).drop_last() =~= v@.take(i as int));
        let c: char = v[i];
        let ghost before = r@;
        if c == '&' {
            r.append("&amp;");
        } else if c == '<' {
            r.append("&lt;");
        } else if c == '>' {
            r.append("&gt;");
        } else if c == '"' {
            r.append("&quot;");
        } else {
            r.push(c);
            assert(r@ =~= before + escape_char(c));
        }
    }
    assert(v@.take(v@.len() as int) =~= v@);
    r
}

/// An escaped text holds no markup characters.
pub proof fn law_escaped_text_is_plain(s: Seq<char>)
    ensures
        forall|i: int|
            0 <= i < escaped(s).len() ==> #[trigger] escaped(s)[i] != '<' && escaped(s)[i] != '>'
                && escaped(s)[i] != '"',
    decreases s.len(),
{
    if s.len() > 0 {
        law_escaped_text_is_plain(s.drop_last());
        reveal_strlit("&amp;");
        reveal_strlit("&lt;");
        reveal_strlit("&gt;");
        reveal_strlit("&quot;");
        let before = escaped(s.drop_last());
        let piece = escape_char(s.last());
        assert forall|i: int| 0 <= i < escaped(s).len() implies #[trigger] escaped(s)[i] != '<'
            && escaped(s)[i] != '>' && escaped(s)[i] != '"' by {
            if i < before.len() {
                assert(escaped(s)[i] == before[i]);
            } else {
                assert(escaped(s)[i] == piece[i - before.len()]);
            }
        }
    }
}

/// `YYYY-MM-DD HH:MM:SS` in UTC; empty where the timestamp is not an instant.
pub open spec fn stamp_text(ts: int) -> Seq<char> {
    if calendar::representable(ts) {
        calendar::date_text(calendar::day_of(ts)) + seq![' '] + calendar::clock_text(ts) + seq![':']
            + text::padded((ts % 60) as nat, 2)
    } else {
        Seq::empty()
    }
}

fn stamp_string(ts: i64) -> (r: String)
    ensures
        r@ == stamp_text(ts as int),
{
    match instant(ts) {
        Some(t) => {
            let mut r = date_string(local_day(t));
            r.push(' ');
            r.append(clock_string(t).as_str());
            r.push(':');
            r.append(padded_text(floor_mod(t, 60) as u64, 2).as_str());
            assert(r@ =~= stamp_text(ts as int));
            r
        },
        None => {
            let r = String::new();
            assert(r@ =~= stamp_text(ts as int));
            r
        },
    }
}

/// What is shown of an optional text.
pub open spec fn or_dash(t: Option<Seq<char>>) -> Seq<char> {
    match t {
        Some(s) => s,
        None => "-"@,
    }
}

fn text_or_dash(t: &Option<String>) -> (r: String)
    ensures
        r@ == or_dash(text::opt_text(*t)),
{
    match t {
        Some(s) => s.clone(),
        None => "-".to_owned(),
    }
}

/// What is shown of an optional number.
pub open spec fn number_or_dash(n: Option<i64>) -> Seq<char> {
    match n {
        Some(v) => text::dec(v as int),
        None => "-"@,
    }
}

/// The row of a running session, as of `now`.
pub open spec fn session_row(r: db::ListedView, now: int) -> Seq<char> {
    "<tr><td>"@ + text::dec(r.id as int) + "</td><td>"@ + r.client_id + "</td><td>"@ + or_dash(
        r.alias,
    ) + "</td><td class=\"code\">"@ + escaped(or_dash(r.command)) + "</td><td>"@ + number_or_dash(
        r.process_id,
    ) + "</td><td>"@ + stamp_text(r.start_time as int) + "</td><td>"@ + text::dec(
        now - r.start_time,
    )
        + "s</td>\n                <td><button class=\"btn btn-end\" onclick=\"endSession("@
        + text::dec(r.id as int)
        + ")\">End</button>\n                <button class=\"btn btn-discard\" onclick=\"discardSession("@
        + text::dec(r.id as int) + ")\">Discard</button></td></tr>"@
}

fn session_string(r: &Record, now: i64) -> (s: String)
    requires
        crate::arith::fits(now - r.start_time),
    ensures
        s@ == session_row(r@, now as int),
{
    let mut s = "<tr><td>".to_owned();
    s.append(int_text(r.id).as_str());
    s.append("</td><td>");
    s.append(r.client_id.as_str());
    s.append("</td><td>");
    s.append(text_or_dash(&r.alias).as_str());
    s.append("</td><td class=\"code\">");
    s.append(html_escape(text_or_dash(&r.command).as_str()).as_str());
    s.append("</td><td>");
    let pid = match r.process_id {
        Some(p) => int_text(p),
        None => "-".to_owned(),
    };
    s.append(pid.as_str());
    s.append("</td><td>");
    s.append(stamp_string(r.start_time).as_str());
    s.append("</td><td>");
    s.append(int_text(now - r.start_time).as_str());
    s.append("s</td>\n                <td><button class=\"btn btn-end\" onclick=\"endSession(");
    s.append(int_text(r.id).as_str());
    s.append(")\">End</button>\n                <button class=\"btn btn-discard\" onclick=\"discardSession(");
    s.append(int_text(r.id).as_str());
    s.append(")\">Discard</button></td></tr>");
    s
}

/// What is shown of a token: its first six and last four bytes where it has more than twelve and
/// they are whole characters.
pub open spec fn preview(token: Seq<char>) -> Seq<char> {
    let bytes = vstd::utf8::encode_utf8(token);
    let n = bytes.len() as int;
    if n > 12 && vstd::utf8::is_char_boundary(bytes, 6) && vstd::utf8::is_char_boundary(
        bytes,
        n - 4,
    ) {
        vstd::utf8::decode_utf8(bytes.subrange(0, 6)) + "****"@ + vstd::utf8::decode_utf8(
            bytes.subrange(n - 4, n),
        )
    } else {
        "****"@
    }
}

/// What is shown of a token.
pub fn token_preview(token: &str) -> (r: String)
    ensures
        r@ == preview(token@),
{
    let n: usize = token.as_bytes().len();
    if n > 12 && token.is_char_boundary(6) && token.is_char_boundary(n - 4) {
        let (head, _rest) = token.split_at(6);
        let (_front, tail) = token.split_at(n - 4);
        proof {
            broadcast use vstd::utf8::encode_utf8_decode_utf8;

        }
        let mut r = head.to_owned();
        r.append("****");
        r.append(tail);
        r
    } else {
        "****".to_owned()
    }
}

/// The row of a token.
pub open spec fn token_row(t: db::TokenView) -> Seq<char> {
    "<tr><td class=\"token-preview\">"@ + preview(t.token) + "</td><td>"@ + or_dash(t.description)
        + "</td><td>"@ + stamp_text(t.created_at as int)
        + "</td>\n                <td><button class=\"btn btn-discard\" onclick=\"revokeToken('"@
        + escaped(t.token) + "')\">Revoke</button></td></tr>"@
}

fn token_string(t: &ApiToken) -> (s: String)
    ensures
        s@ == token_row(t@),
{
    let mut s = "<tr><td class=\"token-preview\">".to_owned();
    s.append(token_preview(t.token.as_str()).as_str());
    s.append("</td><td>");
    s.append(text_or_dash(&t.description).as_str());
    s.append("</td><td>");
    s.append(stamp_string(t.created_at).as_str());
    s.append(
        "</td>\n                <td><button class=\"btn btn-discard\" onclick=\"revokeToken('",
    );
    s.append(html_escape(t.token.as_str()).as_str());
    s.append("')\">Revoke</button></td></tr>");
    s
}

/// The rows of the first `n` running sessions.
pub open spec fn session_rows(s: Seq<db::ListedView>, now: int, n: int) -> Seq<char>
    decreases n,
{
    if n <= 0 {
        Seq::empty()
    } else {
        session_rows(s, now, n - 1) + session_row(s[n - 1], now)
    }
}

/// The rows of the first `n` tokens.
pub open spec fn token_rows(s: Seq<db::TokenView>, n: int) -> Seq<char>
    decreases n,
{
    if n <= 0 {
        Seq::empty()
    } else {
        token_rows(s, n - 1) + token_row(s[n - 1])
    }
}

/// The list of running sessions.
pub open spec fn sessions_part(s: Seq<db::ListedView>, now: int) -> Seq<char> {
    if s.len() == 0 {
        "<p>No orphaned sessions.</p>"@
    } else {
        "<table><tr><th>ID</th><th>Client</th><th>Alias</th><th>Command</th><th>PID</th><th>Start</th><th>Running</th><th>Action</th></tr>"@
            + session_rows(s, now, s.len() as int) + "</table>"@
    }
}

/// The list of tokens.
pub open spec fn tokens_part(s: Seq<db::TokenView>) -> Seq<char> {
    if s.len() == 0 {
        "<p>No tokens.</p>"@
    } else {
        "<table><tr><th>Token</th><th>Description</th><th>Created</th><th>Action</th></tr>"@
            + token_rows(s, s.len() as int) + "</table>"@
    }
}

/// The head of the page, with its style.
pub const PAGE_HEAD: &'static str = "<!DOCTYPE html>\n<html><head><meta charset=\"utf-8\"><title>WYD Admin</title>\n<style>\nbody{font-family:-apple-system,BlinkMacSystemFont,\"Segoe UI\",Helvetica,Arial,sans-serif;margin:0;padding:20px 40px;color:#333;background:#f6f8fa}\n.card{background:#fff;border-radius:8px;padding:20px;margin-bottom:20px;box-shadow:0 1px 3px rgba(0,0,0,0.1)}\nh1,h2{margin-top:0}\ntable{width:100%;border-collapse:collapse;margin-top:10px}\nth,td{padding:8px 12px;text-align:left;border-bottom:1px solid #eee}\nth{font-size:12px;color:#666;font-weight:600}\n.btn{padding:6px 12px;border:none;border-radius:4px;cursor:pointer;font-size:12px;margin-right:5px}\n.btn-end{background:#2da44e;color:#fff}\n.btn-discard{background:#cf222e;color:#fff}\n.btn-gen{background:#0969da;color:#fff}\n.nav{margin-bottom:20px}\n.nav a{color:#0969da;text-decoration:none;margin-right:15px}\n.code{font-family:monospace;background:#f6f8fa;padding:2px 6px;border-radius:3px;font-size:12px}\n.token-preview{color:#666}\n</style></head><body><div class=\"nav\"><a href=\"/\">Home</a><a href=\"/admin\">Admin</a></div><h1>Admin</h1><div class=\"card\"><h2>Orphaned Sessions</h2>";

/// What stands between the sessions and the tokens.
pub const PAGE_MIDDLE: &'static str = "</div><div class=\"card\"><h2>API Tokens</h2><button class=\"btn btn-gen\" onclick=\"genToken()\">Generate New Token</button><div id=\"token-result\" style=\"margin-top:10px\"></div>";

/// The end of the page, with its script.
pub const PAGE_END: &'static str = "</div><script>\nasync function endSession(id) {\n    if(!confirm('End session ' + id + '?')) return;\n    const r = await fetch('/api/sessions/' + id + '/end', {method:'POST'});\n    if(r.ok) location.reload(); else alert('Failed: ' + r.status);\n}\nasync function discardSession(id) {\n    if(!confirm('Discard session ' + id + '?')) return;\n    const r = await fetch('/api/sessions/' + id + '/discard', {method:'POST'});\n    if(r.ok) location.reload(); else alert('Failed: ' + r.status);\n}\nasync function genToken() {\n    const desc = prompt('Token description:');\n    if(!desc) return;\n    const clientId = prompt('Client ID (leave empty for default):') || undefined;\n    const body = clientId ? {description: desc, client_id: clientId} : {description: desc};\n    const r = await fetch('/api/admin/tokens', {\n        method:'POST',\n        headers:{'Content-Type':'application/json'},\n        body: JSON.stringify(body)\n    });\n    if(r.ok) {\n        const data = await r.json();\n        document.getElementById('token-result').innerHTML =\n            '<div style=\"background:#fff3cd;padding:10px;border-radius:4px;\">' +\n            '<strong>Copy this token now — it will not be shown again!</strong><br>' +\n            '<code style=\"font-size:14px;background:#f6f8fa;padding:4px 8px;border-radius:3px;\">' + data.token + '</code></div>';\n    } else {\n        alert('Failed: ' + r.status);\n    }\n}\nasync function revokeToken(token) {\n    if(!confirm('Revoke this token?')) return;\n    const r = await fetch('/api/admin/tokens/' + encodeURIComponent(token), {method:'DELETE'});\n    if(r.ok) location.reload(); else alert('Failed: ' + r.status);\n}\n</script></body></html>";

/// The administration page, as of `now`.
pub open spec fn admin_page(
    sessions: Seq<db::ListedView>,
    tokens: Seq<db::TokenView>,
    now: int,
) -> Seq<char> {
    PAGE_HEAD@ + sessions_part(sessions, now) + PAGE_MIDDLE@ + tokens_part(tokens) + PAGE_END@
}

fn sessions_string(sessions: &Vec<Record>, now: i64) -> (s: String)
    requires
        forall|i: int|
            0 <= i < sessions@.len() ==> crate::arith::fits(
                now - (#[trigger] sessions@[i]).start_time,
            ),
    ensures
        s@ == sessions_part(db::listed_views(sessions@), now as int),
{
    let ghost views = db::listed_views(sessions@);
    if sessions.len() == 0 {
        return "<p>No orphaned sessions.</p>".to_owned();
    }
    let mut rows = String::new();
    assert(rows@ =~= session_rows(views, now as int, 0));
    for i in 0..sessions.len()
        invariant
            views == db::listed_views(sessions@),
            forall|k: int|
                0 <= k < sessions@.len() ==> crate::arith::fits(
                    now - (#[trigger] sessions@[k]).start_time,
                ),
            rows@ == session_rows(views, now as int, i as int),
    {
        assert(views[i as int] == sessions@[i as int]@);
        rows.append(session_string(&sessions[i], now).as_str());
    }
    let mut s = "<table><tr><th>ID</th><th>Client</th><th>Alias</th><th>Command</th><th>PID</th><th>Start</th><th>Running</th><th>Action</th></tr>".to_owned();
    s.append(rows.as_str());
    s.append("</table>");
    s
}

fn tokens_string(tokens: &Vec<ApiToken>) -> (s: String)
    ensures
        s@ == tokens_part(db::token_views(tokens@)),
{
    let ghost views = db::token_views(tokens@);
    if tokens.len() == 0 {
        return "<p>No tokens.</p>".to_owned();
    }
    let mut rows = String::new();
    assert(rows@ =~= token_rows(views, 0));
    for i in 0..tokens.len()
        invariant
            views == db::token_views(tokens@),
            rows@ == token_rows(views, i as int),
    {
        assert(views[i as int] == tokens@[i as int]@);
        rows.append(token_string(&tokens[i]).as_str());
    }
    let mut s = "<table><tr><th>Token</th><th>Description</th><th>Created</th><th>Action</th></tr>".to_owned();
    s.append(rows.as_str());
    s.append("</table>");
    s
}

/// The administration page of running sessions and tokens, as of `now`.
pub fn render_admin(sessions: &Vec<Record>, tokens: &Vec<ApiToken>, now: i64) -> (s: String)
    requires
        forall|i: int|
            0 <= i < sessions@.len() ==> crate::arith::fits(
                now - (#[trigger] sessions@[i]).start_time,
            ),
    ensures
        s@ == admin_page(db::listed_views(sessions@), db::token_views(tokens@), now as int),
{
    let mut s = PAGE_HEAD.to_owned();
    s.append(sessions_string(sessions, now).as_str());
    s.append(PAGE_MIDDLE);
    s.append(tokens_string(tokens).as_str());
    s.append(PAGE_END);
    s
}

} // verus!
