//! The wire form of a message sent to a client: a JSON object with the text,
//! the sender's name and the time stamp,
//! `{"input_message":"…","from_username":"…","timestamp":…}`.
//! Strings are escaped as JSON asks, and in one way only, so that each message
//! has exactly one wire form.
use vstd::prelude::*;

use crate::message::ClientMessage;
use crate::text::{collect_chars, decimal, digit_char, push_char, push_decimal, push_text};

verus! {

/// What opens the wire form, up to the text.
pub const BODY_KEY: &'static str = "{\"input_message\":\"";

/// What stands between the text and the sender's name.
pub const NAME_KEY: &'static str = ",\"from_username\":\"";

/// What stands between the sender's name and the time stamp.
pub const TIME_KEY: &'static str = ",\"timestamp\":";

/// What closes the wire form.
pub const CLOSE: &'static str = "}";

/// A frame that is not the wire form of any message.
#[derive(Clone, Copy, Debug, PartialEq, Eq, Structural)]
pub enum CodecError {
    MalformedFrame,
}

/// The lower-case hexadecimal digit of `d`.
pub open spec fn hex_char(d: nat) -> char {
    if d < 10 {
        digit_char(d)
    } else {
        ((d + 87) as u8) as char
    }
}

/// The letter that follows the backslash in the two-character escape of `c`, for
/// the characters that have one.
pub open spec fn short_escape(c: char) -> Option<char> {
    if c == '"' {
        Some('"')
    } else if c == '\\' {
        Some('\\')
    } else if c == '\n' {
        Some('n')
    } else if c == '\r' {
        Some('r')
    } else if c == '\t' {
        Some('t')
    } else if c == '\x08' {
        Some('b')
    } else if c == '\x0c' {
        Some('f')
    } else {
        None
    }
}

/// The character that a backslash followed by `e` stands for.
pub open spec fn short_unescape(e: char) -> Option<char> {
    if e == '"' {
        Some('"')
    } else if e == '\\' {
        Some('\\')
    } else if e == 'n' {
        Some('\n')
    } else if e == 'r' {
        Some('\r')
    } else if e == 't' {
        Some('\t')
    } else if e == 'b' {
        Some('\x08')
    } else if e == 'f' {
        Some('\x0c')
    } else {
        None
    }
}

/// How `c` is written inside a JSON string: a two-character escape where one
/// exists, `\u00XX` for the other control characters, else the character itself.
pub open spec fn escape_char(c: char) -> Seq<char> {
    match short_escape(c) {
        Some(e) => seq!['\\', e],
        None => if (c as u32) < 0x20 {
            seq![
                '\\',
                'u',
                '0',
                '0',
                hex_char((c as u32 / 16) as nat),
                hex_char((c as u32 % 16) as nat),
            ]
        } else {
            seq![c]
        },
    }
}

/// `s` written inside a JSON string, without the quotes.
pub open spec fn escape(s: Seq<char>) -> Seq<char>
    decreases s.len(),
{
    if s.len() == 0 {
        Seq::empty()
    } else {
        escape(s.drop_last()) + escape_char(s.last())
    }
}

/// The wire form of a message with text `body`, sender `name` and time stamp
/// `sent_at`.
pub open spec fn wire(body: Seq<char>, name: Seq<char>, sent_at: u64) -> Seq<char> {
    BODY_KEY@ + escape(body) + seq!['"'] + NAME_KEY@ + escape(name) + seq!['"'] + TIME_KEY@
        + decimal(sent_at as nat) + CLOSE@
}

/// The value of a lower-case hexadecimal digit.
pub open spec fn hex_value(c: char) -> Option<nat> {
    if '0' <= c && c <= '9' {
        Some((c as u32 - 48) as nat)
    } else if 'a' <= c && c <= 'f' {
        Some((c as u32 - 87) as nat)
    } else {
        None
    }
}

/// The character of a string's contents that starts at `i` in `s`, and how many
/// characters of `s` it takes. Only the escapes that `escape_char` writes are
/// read; a raw control character, a quote or a lone backslash is not a character.
pub open spec fn char_at(s: Seq<char>, i: int) -> Option<(char, int)> {
    if i < 0 || i >= s.len() {
        None
    } else if s[i] == '\\' {
        if i + 1 >= s.len() {
            None
        } else if s[i + 1] == 'u' {
            if i + 5 < s.len() && s[i + 2] == '0' && s[i + 3] == '0' && (s[i + 4] == '0' || s[i + 4]
                == '1') && hex_value(s[i + 5]) is Some {
                let code = (if s[i + 4] == '1' {
                    16nat
                } else {
                    0nat
                }) + hex_value(s[i + 5])->0;
                let c = (code as u8) as char;
                if short_escape(c) is None {
                    Some((c, 6))
                } else {
                    None
                }
            } else {
                None
            }
        } else {
            match short_unescape(s[i + 1]) {
                Some(c) => Some((c, 2)),
                None => None,
            }
        }
    } else if (s[i] as u32) < 0x20 || s[i] == '"' {
        None
    } else {
        Some((s[i], 1))
    }
}

/// The contents of the string whose opening quote is just before `i`, and the
/// position just past its closing quote.
pub open spec fn scan_string(s: Seq<char>, i: int) -> Option<(Seq<char>, int)>
    decreases s.len() - i,
{
    if i < 0 || i >= s.len() {
        None
    } else if s[i] == '"' {
        Some((Seq::empty(), i + 1))
    } else {
        match char_at(s, i) {
            None => None,
            Some((c, w)) => if w > 0 {
                match scan_string(s, i + w) {
                    None => None,
                    Some((rest, j)) => Some((seq![c] + rest, j)),
                }
            } else {
                None
            },
        }
    }
}

/// The lower-case hexadecimal digit of `d`.
fn exec_hex_char(d: u32) -> (c: char)
    requires
        d < 16,
    ensures
        c == hex_char(d as nat),
{
    if d < 10 {
        ((d as u8) + 48u8) as char
    } else {
        ((d as u8) + 87u8) as char
    }
}

/// The letter of the two-character escape of `c`, as `short_escape` gives it.
fn exec_short_escape(c: char) -> (r: Option<char>)
    ensures
        r == short_escape(c),
{
    if c == '"' {
        Some('"')
    } else if c == '\\' {
        Some('\\')
    } else if c == '\n' {
        Some('n')
    } else if c == '\r' {
        Some('r')
    } else if c == '\t' {
        Some('t')
    } else if c == '\x08' {
        Some('b')
    } else if c == '\x0c' {
        Some('f')
    } else {
        None
    }
}

/// The character that a backslash followed by `e` stands for, as
/// `short_unescape` gives it.
fn exec_short_unescape(e: char) -> (r: Option<char>)
    ensures
        r == short_unescape(e),
{
    if e == '"' {
        Some('"')
    } else if e == '\\' {
        Some('\\')
    } else if e == 'n' {
        Some('\n')
    } else if e == 'r' {
        Some('\r')
    } else if e == 't' {
        Some('\t')
    } else if e == 'b' {
        Some('\x08')
    } else if e == 'f' {
        Some('\x0c')
    } else {
        None
    }
}

/// The value of a lower-case hexadecimal digit, as `hex_value` gives it.
fn exec_hex_value(c: char) -> (r: Option<u32>)
    ensures
        r is Some <==> hex_value(c) is Some,
        r is Some ==> r->0 as nat == hex_value(c)->0,
        r is Some ==> r->0 < 16,
{
    if '0' <= c && c <= '9' {
        Some(c as u32 - 48)
    } else if 'a' <= c && c <= 'f' {
        Some(c as u32 - 87)
    } else {
        None
    }
}

/// Appends `c` written as inside a JSON string.
fn push_escaped_char(out: &mut String, c: char)
    ensures
        final(out)@ == old(out)@ + escape_char(c),
{
    let ghost start = out@;
    let short = exec_short_escape(c);
    match short {
        Some(e) => {
            push_char(out, '\\');
            push_char(out, e);
        },
        None => {
            let code = c as u32;
            if code < 0x20 {
                push_char(out, '\\');
                push_char(out, 'u');
                push_char(out, '0');
                push_char(out, '0');
                push_char(out, exec_hex_char(code / 16));
                push_char(out, exec_hex_char(code % 16));
            } else {
                push_char(out, c);
            }
        },
    }
    assert(out@ =~= start + escape_char(c));
}

/// Appends `s` written as inside a JSON string.
fn push_escaped(out: &mut String, s: &String)
    ensures
        final(out)@ == old(out)@ + escape(s@),
{
    let ghost start = out@;
    for c in it: s.as_str().chars()
        invariant
            it.seq() == s@,
            out@ == start + escape(it.seq().subrange(0, it.index() as int)),
    {
        let ghost k = it.index() as int;
        proof {
            assert(it.seq().subrange(0, k + 1).drop_last() =~= it.seq().subrange(0, k));
        }
        push_escaped_char(out, c);
        assert(out@ =~= start + escape(it.seq().subrange(0, k + 1)));
    }
    assert(s@.subrange(0, s@.len() as int) =~= s@);
}

/// The wire form of `msg`.
pub fn encode(msg: &ClientMessage) -> (r: String)
    ensures
        r@ == wire(msg@.body, msg@.name, msg@.sent_at),
{
    let mut r = String::new();
    push_text(&mut r, BODY_KEY);
    push_escaped(&mut r, &msg.get_message());
    push_char(&mut r, '"');
    push_text(&mut r, NAME_KEY);
    push_escaped(&mut r, &msg.get_username());
    push_char(&mut r, '"');
    push_text(&mut r, TIME_KEY);
    push_decimal(&mut r, msg.get_timestamp());
    push_text(&mut r, CLOSE);
    assert(r@ =~= wire(msg@.body, msg@.name, msg@.sent_at));
    r
}

/// Whether `key` stands in `s` at `i`.
pub open spec fn key_at(s: Seq<char>, i: int, key: Seq<char>) -> bool {
    0 <= i && i + key.len() <= s.len() && s.subrange(i, i + key.len()) == key
}

pub open spec fn is_digit(c: char) -> bool {
    '0' <= c && c <= '9'
}

/// The number that the decimal digits `d` write.
pub open spec fn digits_value(d: Seq<char>) -> int
    decreases d.len(),
{
    if d.len() == 0 {
        0
    } else {
        digits_value(d.drop_last()) * 10 + (d.last() as int - 48)
    }
}

/// `d` is the decimal form of a `u64`, with no leading zero.
pub open spec fn canonical_number(d: Seq<char>) -> bool {
    &&& d.len() > 0
    &&& forall|k: int| 0 <= k < d.len() ==> is_digit(#[trigger] d[k])
    &&& (d[0] != '0' || d.len() == 1)
    &&& digits_value(d) <= u64::MAX
}

/// The text, sender name and time stamp that `s` holds, if it is laid out as the
/// wire form is.
pub open spec fn parse_wire(s: Seq<char>) -> Option<(Seq<char>, Seq<char>, u64)> {
    if !key_at(s, 0, BODY_KEY@) {
        None
    } else {
        match scan_string(s, BODY_KEY@.len() as int) {
            None => None,
            Some((body, i)) => if !key_at(s, i, NAME_KEY@) {
                None
            } else {
                match scan_string(s, i + NAME_KEY@.len()) {
                    None => None,
                    Some((name, j)) => if !key_at(s, j, TIME_KEY@) {
                        None
                    } else {
                        let k = j + TIME_KEY@.len();
                        let d = s.subrange(k, s.len() - 1);
                        if k < s.len() && s.last() == '}' && canonical_number(d) {
                            Some((body, name, digits_value(d) as u64))
                        } else {
                            None
                        }
                    },
                }
            },
        }
    }
}

/// Whether `lit` stands in `s` at `pos`.
fn matches_at(s: &Vec<char>, pos: usize, lit: &str) -> (r: bool)
    ensures
        r == key_at(s@, pos as int, lit@),
{
    let n = lit.unicode_len();
    if pos > s.len() || n > s.len() - pos {
        return false;
    }
    let mut k: usize = 0;
    while k < n
        invariant
            n == lit@.len(),
            pos + n <= s.len(),
            k <= n,
            s@.subrange(pos as int, pos + k) == lit@.subrange(0, k as int),
        decreases n - k,
    {
        if s[pos + k] != lit.get_char(k) {
            assert(s@.subrange(pos as int, pos + n)[k as int] != lit@[k as int]);
            return false;
        }
        assert(s@.subrange(pos as int, pos + k + 1) =~= lit@.subrange(0, k + 1));
        k = k + 1;
    }
    assert(lit@.subrange(0, n as int) =~= lit@);
    true
}

/// The character of a string's contents that starts at `i`, as `char_at` gives it.
fn char_at_exec(s: &Vec<char>, i: usize) -> (r: Option<(char, usize)>)
    requires
        i < s@.len(),
    ensures
        match r {
            Some((c, w)) => char_at(s@, i as int) == Some((c, w as int)),
            None => char_at(s@, i as int) is None,
        },
{
    let c = s[i];
    if c == '\\' {
        if s.len() - i <= 1 {
            return None;
        }
        let e = s[i + 1];
        if e == 'u' {
            if s.len() - i > 5 && s[i + 2] == '0' && s[i + 3] == '0' && (s[i + 4] == '0' || s[i + 4]
                == '1') {
                match exec_hex_value(s[i + 5]) {
                    None => None,
                    Some(v) => {
                        let high: u32 = if s[i + 4] == '1' {
                            16
                        } else {
                            0
                        };
                        let ch = ((high + v) as u8) as char;
                        if exec_short_escape(ch).is_none() {
                            Some((ch, 6))
                        } else {
                            None
                        }
                    },
                }
            } else {
                None
            }
        } else {
            match exec_short_unescape(e) {
                Some(ch) => Some((ch, 2)),
                None => None,
            }
        }
    } else if (c as u32) < 0x20 || c == '"' {
        None
    } else {
        Some((c, 1))
    }
}

/// `acc` put before the contents that `o` found.
pub open spec fn prepend(acc: Seq<char>, o: Option<(Seq<char>, int)>) -> Option<(Seq<char>, int)> {
    match o {
        Some((r, j)) => Some((acc + r, j)),
        None => None,
    }
}

/// The contents of the string whose opening quote is just before `start`, as
/// `scan_string` gives them.
fn scan_string_exec(s: &Vec<char>, start: usize) -> (r: Option<(String, usize)>)
    ensures
        match r {
            Some((t, j)) => scan_string(s@, start as int) == Some((t@, j as int)),
            None => scan_string(s@, start as int) is None,
        },
{
    let mut out = String::new();
    let mut i = start;
    assert(prepend(out@, scan_string(s@, i as int)) == scan_string(s@, start as int)) by {
        match scan_string(s@, start as int) {
            Some((r, j)) => {
                assert(out@ + r =~= r);
            },
            None => {},
        }
    }
    loop
        invariant
            start <= i,
            scan_string(s@, start as int) == prepend(out@, scan_string(s@, i as int)),
        decreases s@.len() - i,
    {
        if i >= s.len() {
            return None;
        }
        let c = s[i];
        if c == '"' {
            assert(out@ + Seq::<char>::empty() =~= out@);
            return Some((out, i + 1));
        }
        match char_at_exec(s, i) {
            None => {
                return None;
            },
            Some((ch, w)) => {
                let ghost prev = out@;
                push_char(&mut out, ch);
                proof {
                    match scan_string(s@, i + w) {
                        Some((r, j)) => {
                            assert(prev + (seq![ch] + r) =~= out@ + r);
                        },
                        None => {},
                    }
                }
                i = i + w;
            },
        }
    }
}

proof fn lemma_digits_value_step(d: Seq<char>, k: int)
    requires
        0 <= k < d.len(),
    ensures
        digits_value(d.subrange(0, k + 1)) == digits_value(d.subrange(0, k)) * 10 + (d[k] as int - 48),
{
    assert(d.subrange(0, k + 1).drop_last() =~= d.subrange(0, k));
}

proof fn lemma_digits_value_nonnegative(d: Seq<char>)
    requires
        forall|m: int| 0 <= m < d.len() ==> is_digit(#[trigger] d[m]),
    ensures
        digits_value(d) >= 0,
    decreases d.len(),
{
    if d.len() > 0 {
        lemma_digits_value_nonnegative(d.drop_last());
    }
}

/// A prefix of digits writes no more than the whole.
proof fn lemma_digits_value_prefix(d: Seq<char>, k: int)
    requires
        0 <= k <= d.len(),
        forall|m: int| 0 <= m < d.len() ==> is_digit(#[trigger] d[m]),
    ensures
        digits_value(d.subrange(0, k)) <= digits_value(d),
    decreases d.len(),
{
    if k == d.len() {
        assert(d.subrange(0, k) =~= d);
    } else {
        let e = d.drop_last();
        lemma_digits_value_prefix(e, k);
        assert(e.subrange(0, k) =~= d.subrange(0, k));
        lemma_digits_value_nonnegative(e);
    }
}

/// The `u64` that `s[from..to]` writes, if it is a canonical decimal number.
fn parse_number(s: &Vec<char>, from: usize, to: usize) -> (r: Option<u64>)
    requires
        from <= to <= s@.len(),
    ensures
        r == (if canonical_number(s@.subrange(from as int, to as int)) {
            Some(digits_value(s@.subrange(from as int, to as int)) as u64)
        } else {
            None::<u64>
        }),
{
    let ghost d = s@.subrange(from as int, to as int);
    if from == to {
        return None;
    }
    if s[from] == '0' && to - from > 1 {
        assert(d[0] == '0');
        return None;
    }
    let mut acc: u64 = 0;
    let mut k = from;
    assert(d.subrange(0, 0) =~= Seq::<char>::empty());
    while k < to
        invariant
            from <= k <= to <= s@.len(),
            d == s@.subrange(from as int, to as int),
            forall|m: int| 0 <= m < k - from ==> is_digit(#[trigger] d[m]),
            acc as int == digits_value(d.subrange(0, k - from)),
            from < to,
            s@[from as int] == '0' ==> to - from == 1,
        decreases to - k,
    {
        let c = s[k];
        if !('0' <= c && c <= '9') {
            assert(!is_digit(d[k - from]));
            return None;
        }
        let v = (c as u32 - 48) as u64;
        proof {
            lemma_digits_value_step(d, k - from);
        }
        if acc > (u64::MAX - v) / 10 {
            proof {
                assert(acc * 10 + v > u64::MAX) by (nonlinear_arith)
                    requires
                        acc > (u64::MAX - v) / 10,
                        v <= 9,
                ;
                if forall|m: int| 0 <= m < d.len() ==> is_digit(#[trigger] d[m]) {
                    lemma_digits_value_prefix(d, k - from + 1);
                }
            }
            return None;
        }
        assert(acc * 10 + v <= u64::MAX) by (nonlinear_arith)
            requires
                acc <= (u64::MAX - v) / 10,
                v <= 9,
        ;
        acc = acc * 10 + v;
        k = k + 1;
    }
    assert(d.subrange(0, (to - from) as int) =~= d);
    Some(acc)
}

/// The message that `frame` holds, as `parse_wire` reads it.
fn decode_fields(frame: &str) -> (r: Result<ClientMessage, CodecError>)
    ensures
        match r {
            Ok(m) => parse_wire(frame@) == Some((m@.body, m@.name, m@.sent_at)),
            Err(_) => parse_wire(frame@) is None,
        },
{
    let s = collect_chars(frame);
    if !matches_at(&s, 0, BODY_KEY) {
        return Err(CodecError::MalformedFrame);
    }
    let (body, i) = match scan_string_exec(&s, BODY_KEY.unicode_len()) {
        Some(found) => found,
        None => {
            return Err(CodecError::MalformedFrame);
        },
    };
    if !matches_at(&s, i, NAME_KEY) {
        return Err(CodecError::MalformedFrame);
    }
    let (name, j) = match scan_string_exec(&s, i + NAME_KEY.unicode_len()) {
        Some(found) => found,
        None => {
            return Err(CodecError::MalformedFrame);
        },
    };
    if !matches_at(&s, j, TIME_KEY) {
        return Err(CodecError::MalformedFrame);
    }
    let k = j + TIME_KEY.unicode_len();
    let n = s.len();
    if k < n && s[n - 1] == '}' {
        match parse_number(&s, k, n - 1) {
            Some(t) => Ok(ClientMessage::new_at(name, body, t)),
            None => Err(CodecError::MalformedFrame),
        }
    } else {
        Err(CodecError::MalformedFrame)
    }
}

proof fn lemma_escape_first(t: Seq<char>)
    requires
        t.len() > 0,
    ensures
        escape(t) == escape_char(t[0]) + escape(t.drop_first()),
    decreases t.len(),
{
    if t.len() == 1 {
        assert(t.drop_first() =~= Seq::<char>::empty());
        assert(t.drop_last() =~= Seq::<char>::empty());
        assert(escape(t) =~= escape_char(t[0]) + escape(t.drop_first()));
    } else {
        let d = t.drop_last();
        lemma_escape_first(d);
        assert(t.drop_first().drop_last() =~= d.drop_first());
        assert(t.drop_first().last() == t.last());
        assert(escape(t) =~= escape_char(t[0]) + escape(t.drop_first()));
    }
}

proof fn lemma_char_at_escape(s: Seq<char>, i: int, c: char)
    requires
        0 <= i,
        i + escape_char(c).len() <= s.len(),
        s.subrange(i, i + escape_char(c).len()) == escape_char(c),
    ensures
        char_at(s, i) == Some((c, escape_char(c).len() as int)),
        s[i] != '"',
{
    let e = escape_char(c);
    assert forall|k: int| 0 <= k < e.len() implies s[i + k] == e[k] by {
        assert(s.subrange(i, i + e.len())[k] == s[i + k]);
    }
    if short_escape(c) is Some {
        let l = short_escape(c)->0;
        assert(e =~= seq!['\\', l]);
        assert(s[i] == '\\' && s[i + 1] == l);
        assert(l != 'u');
        assert(short_unescape(l) == Some(c));
    } else if (c as u32) < 0x20 {
        let code = c as u32;
        let h = hex_char((code / 16) as nat);
        let m = hex_char((code % 16) as nat);
        assert(e =~= seq!['\\', 'u', '0', '0', h, m]);
        assert(s[i] == '\\' && s[i + 1] == 'u' && s[i + 2] == '0' && s[i + 3] == '0');
        assert(s[i + 4] == h && s[i + 5] == m);
        assert(code / 16 == 0 || code / 16 == 1);
        assert(h == '0' || h == '1');
        assert(hex_value(m) == Some((code % 16) as nat));
        assert((if h == '1' { 16nat } else { 0nat }) + (code % 16) as nat == code as nat);
        assert((((code as nat) as u8) as char) == c);
    } else {
        assert(e =~= seq![c]);
        assert(s.subrange(i, i + 1)[0] == s[i]);
        assert(s[i] == c);
    }
}

/// Scanning the escaped form of `t`, followed by a quote, gives back `t`.
proof fn lemma_scan_escaped(s: Seq<char>, i: int, t: Seq<char>)
    requires
        0 <= i,
        i + escape(t).len() < s.len(),
        s.subrange(i, i + escape(t).len()) == escape(t),
        s[i + escape(t).len()] == '"',
    ensures
        scan_string(s, i) == Some((t, i + escape(t).len() + 1)),
    decreases t.len(),
{
    if t.len() == 0 {
        assert(escape(t) =~= Seq::<char>::empty());
        assert(t =~= Seq::<char>::empty());
    } else {
        lemma_escape_first(t);
        let e0 = escape_char(t[0]);
        let rest = escape(t.drop_first());
        assert(s.subrange(i, i + e0.len()) =~= e0) by {
            assert(s.subrange(i, i + e0.len()) =~= s.subrange(i, i + escape(t).len()).subrange(0, e0.len() as int));
        }
        lemma_char_at_escape(s, i, t[0]);
        assert(s.subrange(i + e0.len(), i + e0.len() + rest.len()) =~= rest) by {
            assert(s.subrange(i + e0.len(), i + e0.len() + rest.len()) =~= s.subrange(i, i + escape(t).len()).subrange(
                e0.len() as int,
                escape(t).len() as int,
            ));
        }
        lemma_scan_escaped(s, i + e0.len(), t.drop_first());
        assert(seq![t[0]] + t.drop_first() =~= t);
    }
}

proof fn lemma_decimal_canonical(n: nat)
    ensures
        decimal(n).len() > 0,
        n < 10 ==> decimal(n).len() == 1,
        forall|k: int| 0 <= k < decimal(n).len() ==> is_digit(#[trigger] decimal(n)[k]),
        n >= 1 ==> decimal(n)[0] != '0',
        digits_value(decimal(n)) == n,
    decreases n,
{
    let d = decimal(n);
    if n >= 10 {
        lemma_decimal_canonical(n / 10);
        assert(d.drop_last() =~= decimal(n / 10));
        assert(d[0] == decimal(n / 10)[0]);
        assert forall|k: int| 0 <= k < d.len() implies is_digit(#[trigger] d[k]) by {
            if k < d.len() - 1 {
                assert(d[k] == decimal(n / 10)[k]);
            }
        }
        assert(d.last() as int - 48 == n % 10);
        assert(digits_value(d) == digits_value(decimal(n / 10)) * 10 + (d.last() as int - 48));
        assert((n / 10) * 10 + n % 10 == n);
    } else {
        assert(d.drop_last() =~= Seq::<char>::empty());
        assert(digits_value(d.drop_last()) == 0);
        assert(d.last() as int - 48 == n);
        assert(digits_value(d) == digits_value(d.drop_last()) * 10 + (d.last() as int - 48));
    }
}

/// The wire form reads back as the message it was made from, whatever its text
/// and name hold (quotes, backslashes, control characters, the empty string).
pub proof fn lemma_wire_round_trip(body: Seq<char>, name: Seq<char>, sent_at: u64)
    ensures
        parse_wire(wire(body, name, sent_at)) == Some((body, name, sent_at)),
{
    reveal_strlit("{\"input_message\":\"");
    reveal_strlit(",\"from_username\":\"");
    reveal_strlit(",\"timestamp\":");
    reveal_strlit("}");
    let s = wire(body, name, sent_at);
    let bk = BODY_KEY@;
    let nk = NAME_KEY@;
    let tk = TIME_KEY@;
    let eb = escape(body);
    let en = escape(name);
    let dt = decimal(sent_at as nat);
    let a = bk.len() as int;
    let i = a + eb.len() + 1;
    let i2 = i + nk.len();
    let j = i2 + en.len() + 1;
    let k = j + tk.len();
    assert(s =~= bk + eb + seq!['"'] + nk + en + seq!['"'] + tk + dt + seq!['}']);
    assert(s.len() == k + dt.len() + 1);
    assert(s.subrange(0, a) =~= bk);
    assert(s.subrange(a, a + eb.len()) =~= eb);
    assert(s[a + eb.len()] == '"');
    lemma_scan_escaped(s, a, body);
    assert(s.subrange(i, i + nk.len()) =~= nk);
    assert(s.subrange(i2, i2 + en.len()) =~= en);
    assert(s[i2 + en.len()] == '"');
    lemma_scan_escaped(s, i2, name);
    assert(s.subrange(j, j + tk.len()) =~= tk);
    assert(s.subrange(k, s.len() - 1) =~= dt);
    lemma_decimal_canonical(sent_at as nat);
}

proof fn lemma_hex_char_value(x: char)
    requires
        hex_value(x) is Some,
    ensures
        hex_char(hex_value(x)->0) == x,
        hex_value(x)->0 < 16,
{
}

/// What `char_at` reads is the escaped form of the character it gives.
proof fn lemma_char_at_sound(s: Seq<char>, i: int)
    requires
        char_at(s, i) is Some,
    ensures
        match char_at(s, i) {
            Some((c, w)) => i + w <= s.len() && s.subrange(i, i + w) == escape_char(c),
            None => true,
        },
{
    let (c, w) = char_at(s, i)->0;
    if s[i] == '\\' && s[i + 1] == 'u' {
        lemma_hex_char_value(s[i + 5]);
        let v = hex_value(s[i + 5])->0;
        let code = (if s[i + 4] == '1' { 16nat } else { 0nat }) + v;
        assert(c as u32 == code);
        assert((c as u32) / 16 == if s[i + 4] == '1' { 1nat } else { 0nat });
        assert((c as u32) % 16 == v);
        assert(s.subrange(i, i + w) =~= escape_char(c));
    } else if s[i] == '\\' {
        assert(short_escape(c) == Some(s[i + 1]));
        assert(s.subrange(i, i + w) =~= escape_char(c));
    } else {
        assert(short_escape(c) is None);
        assert(s.subrange(i, i + w) =~= escape_char(c));
    }
}

/// What `scan_string` reads is the escaped form of the contents it gives,
/// followed by the closing quote.
proof fn lemma_scan_sound(s: Seq<char>, i: int)
    requires
        scan_string(s, i) is Some,
    ensures
        match scan_string(s, i) {
            Some((t, j)) => i < j <= s.len() && s.subrange(i, j) == escape(t) + seq!['"'],
            None => true,
        },
    decreases s.len() - i,
{
    let (t, j) = scan_string(s, i)->0;
    if s[i] == '"' {
        assert(escape(t) =~= Seq::<char>::empty());
        assert(s.subrange(i, j) =~= escape(t) + seq!['"']);
    } else {
        let (c, w) = char_at(s, i)->0;
        lemma_char_at_sound(s, i);
        lemma_scan_sound(s, i + w);
        let (rest, j2) = scan_string(s, i + w)->0;
        assert(t == seq![c] + rest);
        lemma_escape_first(t);
        assert(t[0] == c);
        assert(t.drop_first() =~= rest);
        assert(s.subrange(i, j) =~= s.subrange(i, i + w) + s.subrange(i + w, j));
        assert(s.subrange(i, j) =~= escape(t) + seq!['"']);
    }
}

/// A canonical decimal number is the decimal form of its value.
proof fn lemma_number_sound(d: Seq<char>)
    requires
        canonical_number(d),
    ensures
        decimal(digits_value(d) as nat) == d,
    decreases d.len(),
{
    let v = digits_value(d);
    if d.len() == 1 {
        assert(d.drop_last() =~= Seq::<char>::empty());
        assert(digits_value(d.drop_last()) == 0);
        assert(v == d[0] as int - 48);
        assert(decimal(v as nat) =~= d);
    } else {
        let e = d.drop_last();
        let x = d.last() as int - 48;
        assert(is_digit(d[d.len() - 1]));
        assert forall|k: int| 0 <= k < e.len() implies is_digit(#[trigger] e[k]) by {
            assert(e[k] == d[k]);
        }
        lemma_digits_value_prefix(e, 1);
        assert(e.subrange(0, 1).drop_last() =~= Seq::<char>::empty());
        lemma_digits_value_step(e, 0);
        assert(e.subrange(0, 0) =~= Seq::<char>::empty());
        assert(digits_value(e.subrange(0, 1)) == e[0] as int - 48);
        assert(e[0] == d[0]);
        assert(digits_value(e) >= 1);
        assert(v == digits_value(e) * 10 + x);
        assert(v / 10 == digits_value(e) && v % 10 == x);
        lemma_number_sound(e);
        assert(decimal(v as nat) == decimal((v / 10) as nat).push(digit_char((v % 10) as nat)));
        assert(decimal(v as nat) =~= d);
    }
}

/// Only the wire form of a message reads as one: what `parse_wire` accepts is
/// exactly the wire form of what it gives.
proof fn lemma_parse_wire_sound(s: Seq<char>)
    requires
        parse_wire(s) is Some,
    ensures
        match parse_wire(s) {
            Some((body, name, t)) => s == wire(body, name, t),
            None => true,
        },
{
    reveal_strlit("}");
    let (body, name, t) = parse_wire(s)->0;
    let a = BODY_KEY@.len() as int;
    lemma_scan_sound(s, a);
    let (b0, i) = scan_string(s, a)->0;
    let i2 = i + NAME_KEY@.len();
    lemma_scan_sound(s, i2);
    let (n0, j) = scan_string(s, i2)->0;
    let k = j + TIME_KEY@.len();
    let d = s.subrange(k, s.len() - 1);
    lemma_number_sound(d);
    assert(s =~= s.subrange(0, a) + s.subrange(a, i) + s.subrange(i, i2) + s.subrange(i2, j) + s.subrange(j, k) + d
        + s.subrange(s.len() - 1, s.len() as int));
    assert(s.subrange(s.len() - 1, s.len() as int) =~= CLOSE@);
    assert(s.subrange(0, a) == BODY_KEY@);
    assert(s.subrange(a, i) == escape(body) + seq!['"']);
    assert(s.subrange(i, i2) == NAME_KEY@);
    assert(s.subrange(i2, j) == escape(name) + seq!['"']);
    assert(s.subrange(j, k) == TIME_KEY@);
    lemma_digits_value_nonnegative(d);
    assert(t as nat == digits_value(d));
    assert(d == decimal(t as nat));
    assert(s =~= wire(body, name, t));
}

/// The message whose wire form `frame` is. A frame that is the wire form of no
/// message is refused.
pub fn decode(frame: &str) -> (r: Result<ClientMessage, CodecError>)
    ensures
        match r {
            Ok(m) => frame@ == wire(m@.body, m@.name, m@.sent_at),
            Err(e) => e == CodecError::MalformedFrame && forall|body: Seq<char>, name: Seq<char>, sent_at: u64|
                frame@ != #[trigger] wire(body, name, sent_at),
        },
{
    let r = decode_fields(frame);
    proof {
        match &r {
            Ok(m) => {
                lemma_parse_wire_sound(frame@);
            },
            Err(_) => {
                assert forall|body: Seq<char>, name: Seq<char>, sent_at: u64|
                    frame@ != #[trigger] wire(body, name, sent_at) by {
                    lemma_wire_round_trip(body, name, sent_at);
                }
            },
        }
    }
    r
}

} // verus!
