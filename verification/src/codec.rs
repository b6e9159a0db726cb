//! Wire format of the connection boundary: each command and event is a
//! self-describing tagged structure in JSON over a text-frame transport.
//!
//! Commands are payload-free variants, accepted in either JSON rendering —
//! the bare tag string (`"Increment"`) or the tagged object
//! (`{"Increment":null}`) — with surrounding whitespace ignored, as a JSON
//! reader would.  Events encode as single-key objects
//! (`{"UpdateScore":7}`,
//! `{"UpdateScoreboard":[{"username":"a","score":3}]}`) with `null` for a
//! missing column and control characters escaped as a JSON writer does.
//! Malformed or unrecognized frames decode to nothing and are dropped by
//! the caller, never answered with an error frame.

use vstd::prelude::*;
use crate::message::ClientMessage;
use crate::message::ScoreboardEntry;
use crate::message::ServerMessage;
use crate::store::EntryModel;
use crate::store::models;

verus! {

/// Decimal digit character of `d`.
pub open spec fn digit_char(d: nat) -> char {
    if d == 0 {
        '0'
    } else if d == 1 {
        '1'
    } else if d == 2 {
        '2'
    } else if d == 3 {
        '3'
    } else if d == 4 {
        '4'
    } else if d == 5 {
        '5'
    } else if d == 6 {
        '6'
    } else if d == 7 {
        '7'
    } else if d == 8 {
        '8'
    } else {
        '9'
    }
}

/// Decimal digits of `n`, most significant first, no leading zeros except
/// for zero itself.
pub open spec fn dec_digits(n: nat) -> Seq<char>
    decreases n,
{
    if n < 10 {
        seq![digit_char(n)]
    } else {
        dec_digits(n / 10).push(digit_char(n % 10))
    }
}

/// JSON rendering of an integer: decimal digits with a leading minus sign
/// for negative values.
pub open spec fn json_int(v: int) -> Seq<char> {
    if v < 0 {
        seq!['-'] + dec_digits((-v) as nat)
    } else {
        dec_digits(v as nat)
    }
}

/// Hexadecimal digit character of `d`, lower case.
pub open spec fn hex_char(d: nat) -> char {
    if d == 0 {
        '0'
    } else if d == 1 {
        '1'
    } else if d == 2 {
        '2'
    } else if d == 3 {
        '3'
    } else if d == 4 {
        '4'
    } else if d == 5 {
        '5'
    } else if d == 6 {
        '6'
    } else if d == 7 {
        '7'
    } else if d == 8 {
        '8'
    } else if d == 9 {
        '9'
    } else if d == 10 {
        'a'
    } else if d == 11 {
        'b'
    } else if d == 12 {
        'c'
    } else if d == 13 {
        'd'
    } else if d == 14 {
        'e'
    } else {
        'f'
    }
}

/// JSON string escape of one character: quote and backslash get a
/// backslash, the five named control characters their short escapes, every
/// other control character a `\u00..` escape, and everything else stands
/// for itself.
pub open spec fn esc_char(c: char) -> Seq<char> {
    if c == '"' {
        seq!['\\', '"']
    } else if c == '\\' {
        seq!['\\', '\\']
    } else if c == '\u{8}' {
        seq!['\\', 'b']
    } else if c == '\t' {
        seq!['\\', 't']
    } else if c == '\n' {
        seq!['\\', 'n']
    } else if c == '\u{c}' {
        seq!['\\', 'f']
    } else if c == '\r' {
        seq!['\\', 'r']
    } else if c <= '\u{1f}' {
        seq!['\\', 'u', '0', '0', hex_char((c as nat) / 16), hex_char((c as nat) % 16)]
    } else {
        seq![c]
    }
}

/// JSON string escape of a character sequence.
pub open spec fn esc_str(s: Seq<char>) -> Seq<char>
    decreases s.len(),
{
    if s.len() == 0 {
        Seq::<char>::empty()
    } else {
        esc_str(s.drop_last()) + esc_char(s.last())
    }
}

/// JSON rendering of an optional string column: quoted escaped text, or
/// `null` when the column is missing.
pub open spec fn json_opt_string(o: Option<Seq<char>>) -> Seq<char> {
    match o {
        Some(s) => "\""@ + esc_str(s) + "\""@,
        None => "null"@,
    }
}

/// JSON rendering of an optional integer column.
pub open spec fn json_opt_int(o: Option<int>) -> Seq<char> {
    match o {
        Some(v) => json_int(v),
        None => "null"@,
    }
}

/// JSON rendering of one scoreboard row.
pub open spec fn json_entry(e: EntryModel) -> Seq<char> {
    "{\"username\":"@ + json_opt_string(e.username) + ",\"score\":"@ + json_opt_int(e.score)
        + "}"@
}

/// JSON rendering of the scoreboard rows, comma-separated.
pub open spec fn json_entries(b: Seq<EntryModel>) -> Seq<char>
    decreases b.len(),
{
    if b.len() == 0 {
        Seq::<char>::empty()
    } else if b.len() == 1 {
        json_entry(b[0])
    } else {
        json_entries(b.drop_last()) + ","@ + json_entry(b.last())
    }
}

/// JSON rendering of a score event.
pub open spec fn json_update_score(v: int) -> Seq<char> {
    "{\"UpdateScore\":"@ + json_int(v) + "}"@
}

/// JSON rendering of a scoreboard event.
pub open spec fn json_update_scoreboard(b: Seq<EntryModel>) -> Seq<char> {
    "{\"UpdateScoreboard\":["@ + json_entries(b) + "]}"@
}

/// JSON rendering of any event.
pub open spec fn json_server_message(m: ServerMessage) -> Seq<char> {
    match m {
        ServerMessage::UpdateScore(v) => json_update_score(v as int),
        ServerMessage::UpdateScoreboard(b) => json_update_scoreboard(models(b@)),
    }
}

/// A JSON whitespace character.
pub open spec fn json_ws(c: char) -> bool {
    c == ' ' || c == '\t' || c == '\n' || c == '\r'
}

/// Count of leading whitespace characters.
pub open spec fn lead_ws(s: Seq<char>) -> int
    decreases s.len(),
{
    if s.len() == 0 {
        0
    } else if json_ws(s[0]) {
        1 + lead_ws(s.drop_first())
    } else {
        0
    }
}

/// Count of trailing whitespace characters.
pub open spec fn trail_ws(s: Seq<char>) -> int
    decreases s.len(),
{
    if s.len() == 0 {
        0
    } else if json_ws(s.last()) {
        1 + trail_ws(s.drop_last())
    } else {
        0
    }
}

/// `s` without its surrounding whitespace.
pub open spec fn trim_ws(s: Seq<char>) -> Seq<char> {
    if lead_ws(s) == s.len() {
        Seq::<char>::empty()
    } else {
        s.subrange(lead_ws(s), s.len() - trail_ws(s))
    }
}

/// The tag between quotes.
pub open spec fn quoted(tag: Seq<char>) -> Seq<char> {
    seq!['"'] + tag + seq!['"']
}

/// After the colon: optional whitespace, then exactly the word `null`.
pub open spec fn after_colon_null(x: Seq<char>) -> bool {
    x.skip(lead_ws(x)) == "null"@
}

/// Optional whitespace, a colon, then [`after_colon_null`].
pub open spec fn colon_null(v: Seq<char>) -> bool {
    let w = v.skip(lead_ws(v));
    &&& w.len() >= 1
    &&& w[0] == ':'
    &&& after_colon_null(w.skip(1))
}

/// The object body between the braces, already trimmed: the quoted tag,
/// then a possibly space-padded colon and the word `null`.
pub open spec fn tag_colon_null(u: Seq<char>, tag: Seq<char>) -> bool {
    let q = quoted(tag);
    &&& u.len() >= q.len()
    &&& u.take(q.len() as int) == q
    &&& colon_null(u.skip(q.len() as int))
}

/// Whether the trimmed frame `t` is the command tagged `tag`: either the
/// bare tag string or the single-key object mapping the tag to `null`,
/// the two renderings of a payload-free command.
pub open spec fn frame_form(t: Seq<char>, tag: Seq<char>) -> bool {
    ||| t == quoted(tag)
    ||| (t.len() >= 2 && t[0] == '{' && t.last() == '}' && tag_colon_null(
        trim_ws(t.subrange(1, t.len() - 1)),
        tag,
    ))
}

/// Whether a text frame decodes to the command tagged `tag`; surrounding
/// whitespace is ignored, as a JSON reader would.
pub open spec fn frame_decodes_to(s: Seq<char>, tag: Seq<char>) -> bool {
    frame_form(trim_ws(s), tag)
}

proof fn lemma_lead_ws_at(s: Seq<char>, i: int)
    requires
        0 <= i <= s.len(),
        forall|k: int| 0 <= k < i ==> json_ws(s[k]),
        i < s.len() ==> !json_ws(s[i]),
    ensures
        lead_ws(s) == i,
    decreases i,
{
    if i > 0 {
        assert forall|k: int| 0 <= k < i - 1 implies json_ws(s.drop_first()[k]) by {
            assert(s.drop_first()[k] == s[k + 1]);
        }
        if i - 1 < s.drop_first().len() {
            assert(s.drop_first()[i - 1] == s[i]);
        }
        lemma_lead_ws_at(s.drop_first(), i - 1);
    }
}

proof fn lemma_trail_ws_at(s: Seq<char>, j: int)
    requires
        0 <= j <= s.len(),
        forall|k: int| j <= k < s.len() ==> json_ws(s[k]),
        j > 0 ==> !json_ws(s[j - 1]),
    ensures
        trail_ws(s) == s.len() - j,
    decreases s.len() - j,
{
    if j < s.len() {
        assert(json_ws(s.last()));
        assert forall|k: int| j <= k < s.drop_last().len() implies json_ws(s.drop_last()[k]) by {
            assert(s.drop_last()[k] == s[k]);
        }
        lemma_trail_ws_at(s.drop_last(), j);
    }
}

fn push_digit(out: &mut String, d: u64)
    requires
        d < 10,
    ensures
        final(out)@ == old(out)@ + seq![digit_char(d as nat)],
{
    if d == 0 {
        proof {
            reveal_strlit("0");
            assert("0"@ =~= seq![digit_char(0)]);
        }
        out.append("0");
    } else if d == 1 {
        proof {
            reveal_strlit("1");
            assert("1"@ =~= seq![digit_char(1)]);
        }
        out.append("1");
    } else if d == 2 {
        proof {
            reveal_strlit("2");
            assert("2"@ =~= seq![digit_char(2)]);
        }
        out.append("2");
    } else if d == 3 {
        proof {
            reveal_strlit("3");
            assert("3"@ =~= seq![digit_char(3)]);
        }
        out.append("3");
    } else if d == 4 {
        proof {
            reveal_strlit("4");
            assert("4"@ =~= seq![digit_char(4)]);
        }
        out.append("4");
    } else if d == 5 {
        proof {
            reveal_strlit("5");
            assert("5"@ =~= seq![digit_char(5)]);
        }
        out.append("5");
    } else if d == 6 {
        proof {
            reveal_strlit("6");
            assert("6"@ =~= seq![digit_char(6)]);
        }
        out.append("6");
    } else if d == 7 {
        proof {
            reveal_strlit("7");
            assert("7"@ =~= seq![digit_char(7)]);
        }
        out.append("7");
    } else if d == 8 {
        proof {
            reveal_strlit("8");
            assert("8"@ =~= seq![digit_char(8)]);
        }
        out.append("8");
    } else {
        proof {
            reveal_strlit("9");
            assert("9"@ =~= seq![digit_char(9)]);
        }
        out.append("9");
    }
}

fn push_hex(out: &mut String, d: u32)
    requires
        d < 16,
    ensures
        final(out)@ == old(out)@ + seq![hex_char(d as nat)],
{
    if d < 10 {
        push_digit(out, d as u64);
        proof {
            assert(seq![digit_char(d as nat)] =~= seq![hex_char(d as nat)]);
        }
    } else if d == 10 {
        proof {
            reveal_strlit("a");
            assert("a"@ =~= seq![hex_char(10)]);
        }
        out.append("a");
    } else if d == 11 {
        proof {
            reveal_strlit("b");
            assert("b"@ =~= seq![hex_char(11)]);
        }
        out.append("b");
    } else if d == 12 {
        proof {
            reveal_strlit("c");
            assert("c"@ =~= seq![hex_char(12)]);
        }
        out.append("c");
    } else if d == 13 {
        proof {
            reveal_strlit("d");
            assert("d"@ =~= seq![hex_char(13)]);
        }
        out.append("d");
    } else if d == 14 {
        proof {
            reveal_strlit("e");
            assert("e"@ =~= seq![hex_char(14)]);
        }
        out.append("e");
    } else {
        proof {
            reveal_strlit("f");
            assert("f"@ =~= seq![hex_char(15)]);
        }
        out.append("f");
    }
}

fn push_u64(out: &mut String, n: u64)
    ensures
        final(out)@ == old(out)@ + dec_digits(n as nat),
    decreases n,
{
    if n >= 10 {
        push_u64(out, n / 10);
    }
    push_digit(out, n % 10);
    proof {
        if n >= 10 {
            assert(old(out)@ + dec_digits((n / 10) as nat) + seq![
                digit_char((n % 10) as nat),
            ] =~= old(out)@ + dec_digits(n as nat));
        } else {
            assert(old(out)@ + seq![digit_char(n as nat)] =~= old(out)@ + dec_digits(n as nat));
        }
    }
}

fn push_i32(out: &mut String, v: i32)
    ensures
        final(out)@ == old(out)@ + json_int(v as int),
{
    if v >= 0 {
        push_u64(out, v as u64);
    } else {
        proof {
            reveal_strlit("-");
            assert("-"@ =~= seq!['-']);
        }
        out.append("-");
        let mag: u64 = (-(v as i64)) as u64;
        push_u64(out, mag);
        proof {
            assert(old(out)@ + "-"@ + dec_digits(mag as nat) =~= old(out)@ + json_int(v as int));
        }
    }
}

fn push_escaped(out: &mut String, s: &String)
    ensures
        final(out)@ == old(out)@ + esc_str(s@),
{
    let ghost base = old(out)@;
    let text = s.as_str();
    let n = text.unicode_len();
    let mut i: usize = 0;
    proof {
        assert(base + esc_str(s@.take(0)) =~= base);
    }
    while i < n
        invariant
            i <= n,
            n == s@.len(),
            text@ == s@,
            out@ == base + esc_str(s@.take(i as int)),
        decreases n - i,
    {
        let c = text.get_char(i);
        if c == '"' {
            proof {
                reveal_strlit("\\\"");
                assert("\\\""@ =~= esc_char('"'));
            }
            out.append("\\\"");
        } else if c == '\\' {
            proof {
                reveal_strlit("\\\\");
                assert("\\\\"@ =~= esc_char('\\'));
            }
            out.append("\\\\");
        } else if c == '\u{8}' {
            proof {
                reveal_strlit("\\b");
                assert("\\b"@ =~= esc_char('\u{8}'));
            }
            out.append("\\b");
        } else if c == '\t' {
            proof {
                reveal_strlit("\\t");
                assert("\\t"@ =~= esc_char('\t'));
            }
            out.append("\\t");
        } else if c == '\n' {
            proof {
                reveal_strlit("\\n");
                assert("\\n"@ =~= esc_char('\n'));
            }
            out.append("\\n");
        } else if c == '\u{c}' {
            proof {
                reveal_strlit("\\f");
                assert("\\f"@ =~= esc_char('\u{c}'));
            }
            out.append("\\f");
        } else if c == '\r' {
            proof {
                reveal_strlit("\\r");
                assert("\\r"@ =~= esc_char('\r'));
            }
            out.append("\\r");
        } else if c <= '\u{1f}' {
            let ghost mid = out@;
            proof {
                reveal_strlit("\\u00");
            }
            out.append("\\u00");
            let code = c as u32;
            push_hex(out, code / 16);
            push_hex(out, code % 16);
            proof {
                assert(mid + "\\u00"@ + seq![hex_char((code / 16) as nat)] + seq![
                    hex_char((code % 16) as nat),
                ] =~= mid + esc_char(c));
            }
        } else {
            let piece = text.substring_char(i, i + 1);
            proof {
                assert(piece@ =~= esc_char(c));
            }
            out.append(piece);
        }
        proof {
            assert(s@.take(i + 1).drop_last() =~= s@.take(i as int));
            assert(s@.take(i + 1).last() == s@[i as int]);
            assert(out@ =~= base + esc_str(s@.take(i + 1)));
        }
        i += 1;
    }
    proof {
        assert(s@.take(n as int) =~= s@);
    }
}

fn push_opt_string(out: &mut String, o: &Option<String>)
    ensures
        final(out)@ == old(out)@ + json_opt_string(
            match o {
                Some(s) => Some(s@),
                None => None,
            },
        ),
{
    match o {
        Some(s) => {
            out.append("\"");
            push_escaped(out, s);
            out.append("\"");
            proof {
                assert(old(out)@ + "\""@ + esc_str(s@) + "\""@ =~= old(out)@ + json_opt_string(
                    Some(s@),
                ));
            }
        },
        None => {
            out.append("null");
        },
    }
}

fn push_entry(out: &mut String, e: &ScoreboardEntry)
    ensures
        final(out)@ == old(out)@ + json_entry(e@),
{
    out.append("{\"username\":");
    push_opt_string(out, &e.username);
    out.append(",\"score\":");
    match e.score {
        Some(v) => push_i32(out, v),
        None => out.append("null"),
    }
    out.append("}");
    proof {
        assert(final(out)@ =~= old(out)@ + json_entry(e@));
    }
}

/// Encodes an event for the text-frame transport; the result is exactly the
/// JSON rendering the specification functions above describe.
pub fn encode_server_message(m: &ServerMessage) -> (r: String)
    ensures
        r@ == json_server_message(*m),
{
    let mut out = String::new();
    match m {
        ServerMessage::UpdateScore(v) => {
            out.append("{\"UpdateScore\":");
            push_i32(&mut out, *v);
            out.append("}");
            proof {
                assert(out@ =~= json_server_message(*m));
            }
        },
        ServerMessage::UpdateScoreboard(b) => {
            out.append("{\"UpdateScoreboard\":[");
            let ghost mid = out@;
            let ghost entries = models(b@);
            let mut i: usize = 0;
            proof {
                assert(mid + json_entries(entries.take(0)) =~= mid);
            }
            while i < b.len()
                invariant
                    i <= b.len(),
                    entries == models(b@),
                    entries.len() == b@.len(),
                    out@ == mid + json_entries(entries.take(i as int)),
                decreases b@.len() - i,
            {
                if i > 0 {
                    out.append(",");
                }
                push_entry(&mut out, &b[i]);
                proof {
                    assert(entries.take(i + 1).drop_last() =~= entries.take(i as int));
                    assert(entries.take(i + 1).last() == entries[i as int]);
                    assert(entries[i as int] == b@[i as int]@);
                    if i == 0 {
                        assert(out@ =~= mid + json_entries(entries.take(1)));
                    } else {
                        assert(out@ =~= mid + json_entries(entries.take(i + 1)));
                    }
                }
                i += 1;
            }
            out.append("]}");
            proof {
                assert(entries.take(entries.len() as int) =~= entries);
                assert(out@ =~= json_server_message(*m));
            }
        },
    }
    out
}

fn is_ws_exec(c: char) -> (r: bool)
    ensures
        r == json_ws(c),
{
    c == ' ' || c == '\t' || c == '\n' || c == '\r'
}

fn trimmed<'a>(text: &'a str) -> (t: &'a str)
    ensures
        t@ == trim_ws(text@),
{
    let n = text.unicode_len();
    let mut lo: usize = 0;
    while lo < n && is_ws_exec(text.get_char(lo))
        invariant
            lo <= n,
            n == text@.len(),
            forall|k: int| 0 <= k < lo ==> json_ws(text@[k]),
        decreases n - lo,
    {
        lo += 1;
    }
    proof {
        lemma_lead_ws_at(text@, lo as int);
    }
    if lo == n {
        let t = text.substring_char(n, n);
        proof {
            assert(t@ =~= trim_ws(text@));
        }
        return t;
    }
    let mut hi: usize = n;
    while hi > lo && is_ws_exec(text.get_char(hi - 1))
        invariant
            lo <= hi <= n,
            n == text@.len(),
            forall|k: int| hi <= k < n ==> json_ws(text@[k]),
        decreases hi,
    {
        hi -= 1;
    }
    proof {
        if hi == lo {
            assert(json_ws(text@[lo as int]));
            assert(false);
        }
        lemma_trail_ws_at(text@, hi as int);
    }
    let t = text.substring_char(lo, hi);
    proof {
        assert(t@ =~= trim_ws(text@));
    }
    t
}

fn skip_ws_str<'a>(text: &'a str) -> (t: &'a str)
    ensures
        t@ == text@.skip(lead_ws(text@)),
{
    let n = text.unicode_len();
    let mut lo: usize = 0;
    while lo < n && is_ws_exec(text.get_char(lo))
        invariant
            lo <= n,
            n == text@.len(),
            forall|k: int| 0 <= k < lo ==> json_ws(text@[k]),
        decreases n - lo,
    {
        lo += 1;
    }
    proof {
        lemma_lead_ws_at(text@, lo as int);
    }
    let t = text.substring_char(lo, n);
    proof {
        assert(t@ =~= text@.skip(lead_ws(text@)));
    }
    t
}

fn matches_at(text: &str, i: usize, pat: &str) -> (r: bool)
    requires
        i + pat@.len() <= text@.len(),
        text@.len() <= usize::MAX,
    ensures
        r == (text@.subrange(i as int, i + pat@.len()) == pat@),
{
    let m = pat.unicode_len();
    let mut k: usize = 0;
    while k < m
        invariant
            k <= m,
            m == pat@.len(),
            i + m <= text@.len(),
            text@.len() <= usize::MAX,
            forall|j: int| 0 <= j < k ==> text@[i + j] == pat@[j],
        decreases m - k,
    {
        if text.get_char(i + k) != pat.get_char(k) {
            proof {
                assert(text@.subrange(i as int, i + pat@.len())[k as int] != pat@[k as int]);
            }
            return false;
        }
        k += 1;
    }
    proof {
        assert(text@.subrange(i as int, i + pat@.len()) =~= pat@);
    }
    true
}

fn tag_frame(t: &str, tag: &str) -> (r: bool)
    ensures
        r == frame_form(t@, tag@),
{
    let n = t.unicode_len();
    let m = tag.unicode_len();
    let ghost q = quoted(tag@);

    // Bare string form: the quoted tag and nothing else.
    if n >= 2 && n - 2 == m {
        if t.get_char(0) == '"' && t.get_char(n - 1) == '"' && matches_at(t, 1, tag) {
            proof {
                assert(t@ =~= q);
            }
            return true;
        }
    }
    proof {
        if t@ == q {
            assert(t@[0] == '"' && t@[n - 1] == '"');
            assert(t@.subrange(1, 1 + m as int) =~= tag@);
            assert(false);
        }
    }

    // Object form: braces around the quoted tag, a colon and null.
    if !(n >= 2 && t.get_char(0) == '{' && t.get_char(n - 1) == '}') {
        return false;
    }
    let inner = trimmed(t.substring_char(1, n - 1));
    proof {
        assert(t@.subrange(1, n - 1) == t@.subrange(1, t@.len() - 1));
    }
    let ni = inner.unicode_len();
    if !(ni >= 2 && ni - 2 >= m) {
        return false;
    }
    if !(inner.get_char(0) == '"' && matches_at(inner, 1, tag) && inner.get_char(m + 1) == '"') {
        proof {
            let qi = q.len() as int;
            if inner@.take(qi) == q {
                assert(q[0] == '"');
                assert(q[m + 1] == '"');
                assert(inner@[0] == inner@.take(qi)[0]);
                assert(inner@[m + 1] == inner@.take(qi)[m + 1]);
                assert(inner@.subrange(1, 1 + m as int) =~= q.subrange(1, 1 + m as int));
                assert(q.subrange(1, 1 + m as int) =~= tag@);
                assert(false);
            }
        }
        return false;
    }
    proof {
        assert(inner@.take(q.len() as int) =~= q);
    }
    let rest = inner.substring_char(m + 2, ni);
    proof {
        assert(rest@ == inner@.skip(q.len() as int));
    }
    let w = skip_ws_str(rest);
    let nw = w.unicode_len();
    if !(nw >= 1 && w.get_char(0) == ':') {
        return false;
    }
    let x = skip_ws_str(w.substring_char(1, nw));
    proof {
        assert(w@.subrange(1, nw as int) == w@.skip(1));
    }
    let nx = x.unicode_len();
    let null_word = "null";
    let ln = null_word.unicode_len();
    if nx == ln && matches_at(x, 0, null_word) {
        proof {
            assert(x@.subrange(0, ln as int) =~= x@);
        }
        true
    } else {
        proof {
            if x@ == "null"@ {
                assert(x@.subrange(0, ln as int) =~= x@);
                assert(false);
            }
        }
        false
    }
}

proof fn lemma_tags_distinct(t: Seq<char>)
    ensures
        !(frame_form(t, "Increment"@) && frame_form(t, "Init"@)),
{
    reveal_strlit("Increment");
    reveal_strlit("Init");
    if frame_form(t, "Increment"@) && frame_form(t, "Init"@) {
        let q1 = quoted("Increment"@);
        let q2 = quoted("Init"@);
        assert(q1.len() == 11 && q2.len() == 6);
        assert(q1[0] == '"' && q2[0] == '"');
        if t == q1 && t == q2 {
            assert(false);
        } else if t == q1 {
            assert(t[0] == '{');
            assert(false);
        } else if t == q2 {
            assert(t[0] == '{');
            assert(false);
        } else {
            let u = trim_ws(t.subrange(1, t.len() - 1));
            assert(u.take(11)[3] == q1[3]);
            assert(u.take(6)[3] == q2[3]);
            assert(q1[3] == 'c' && q2[3] == 'i');
            assert(false);
        }
    }
}

/// Decodes a text frame into a command.  Exactly the frames a JSON reader
/// accepts for the two payload-free commands are recognized: the bare tag
/// string or the tagged object with `null`, with surrounding whitespace
/// ignored.  Every other frame is malformed and yields nothing.
pub fn decode_client_message(frame: &String) -> (r: Option<ClientMessage>)
    ensures
        r == Some(ClientMessage::Increment) <==> frame_decodes_to(frame@, "Increment"@),
        r == Some(ClientMessage::Init) <==> frame_decodes_to(frame@, "Init"@),
        r is None <==> !frame_decodes_to(frame@, "Increment"@) && !frame_decodes_to(
            frame@,
            "Init"@,
        ),
{
    let t = trimmed(frame.as_str());
    if tag_frame(t, "Increment") {
        proof {
            lemma_tags_distinct(t@);
        }
        Some(ClientMessage::Increment)
    } else if tag_frame(t, "Init") {
        Some(ClientMessage::Init)
    } else {
        None
    }
}

} // verus!
