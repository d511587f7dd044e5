//! The token wire text: a JSON object with fixed field order and no
//! whitespace, written and read by this library's own verified code.
//!
//! `{"user":U,"exp":N,"qps":M}` is the canonical signable form; the full
//! record appends `,"sig":S` before the closing brace.  U and S are JSON
//! string literals whose content is escaped by `esc`; N and M are decimal
//! numbers as written by `dec_of`.

use vstd::prelude::*;
use vstd::string::StrSliceExecFns;
use vstd::string::StringExecFns;

verus! {

/// Relies on `String::push` of std: it appends the given character.
#[verifier::external_body]
pub fn push_char(out: &mut String, c: char)
    ensures
        final(out)@ == old(out)@.push(c),
{
    out.push(c);
}

// ---------------------------------------------------------------------------
// Decimal numbers
// ---------------------------------------------------------------------------

/// The character for one decimal digit.
pub open spec fn digit_char(d: int) -> char {
    if d == 0 {
        '0'
    } else if d == 1 {
        '1'
    } else if d == 2 {
        '2'
    } else if d == 3 {
        '3'
    } else if d == 4 {
        '4'
    } else if d == 5 {
        '5'
    } else if d == 6 {
        '6'
    } else if d == 7 {
        '7'
    } else if d == 8 {
        '8'
    } else if d == 9 {
        '9'
    } else {
        ' '
    }
}

pub open spec fn is_digit(c: char) -> bool {
    c == '0' || c == '1' || c == '2' || c == '3' || c == '4' || c == '5' || c == '6' || c == '7'
        || c == '8' || c == '9'
}

/// The value of one decimal digit character.
pub open spec fn digit_val(c: char) -> int {
    if c == '0' {
        0
    } else if c == '1' {
        1
    } else if c == '2' {
        2
    } else if c == '3' {
        3
    } else if c == '4' {
        4
    } else if c == '5' {
        5
    } else if c == '6' {
        6
    } else if c == '7' {
        7
    } else if c == '8' {
        8
    } else if c == '9' {
        9
    } else {
        -1
    }
}

/// The decimal writing of `n`, most significant digit first, no sign, no
/// leading zero (except for `n == 0` itself).
pub open spec fn dec_of(n: nat) -> Seq<char>
    decreases n,
{
    if n < 10 {
        seq![digit_char(n as int)]
    } else {
        dec_of(n / 10).push(digit_char((n % 10) as int))
    }
}

/// The value of a digit string, read left to right.
pub open spec fn val_of(s: Seq<char>) -> nat
    decreases s.len(),
{
    if s.len() == 0 {
        0
    } else {
        (val_of(s.drop_last()) * 10 + if digit_val(s.last()) >= 0 {
            digit_val(s.last())
        } else {
            0
        }) as nat
    }
}

pub open spec fn all_digits(s: Seq<char>) -> bool {
    forall|i: int| 0 <= i < s.len() ==> is_digit(#[trigger] s[i])
}

pub proof fn lemma_dec_of_props(n: nat)
    ensures
        dec_of(n).len() >= 1,
        all_digits(dec_of(n)),
        val_of(dec_of(n)) == n,
        dec_of(n)[0] == '0' ==> n == 0,
    decreases n,
{
    if n < 10 {
        let s = dec_of(n);
        assert(s == seq![digit_char(n as int)]);
        assert(s.len() == 1);
        assert(s.last() == digit_char(n as int));
        assert(digit_val(digit_char(n as int)) == n as int);
        assert(s.drop_last() =~= Seq::<char>::empty());
        assert(val_of(s.drop_last()) == 0);
        assert(val_of(s) == n);
    } else {
        lemma_dec_of_props(n / 10);
        let s = dec_of(n);
        assert(s == dec_of(n / 10).push(digit_char((n % 10) as int)));
        assert(s.drop_last() =~= dec_of(n / 10));
        assert(s.last() == digit_char((n % 10) as int));
        assert(val_of(s) == val_of(dec_of(n / 10)) * 10 + n % 10);
        assert(all_digits(s)) by {
            assert(forall|i: int|
                0 <= i < s.len() - 1 ==> #[trigger] s[i] == dec_of(n / 10)[i]);
        }
        assert(s[0] == dec_of(n / 10)[0]);
    }
}

/// Writes `n` in decimal onto `out`.
pub fn append_u64(out: &mut String, n: u64)
    ensures
        final(out)@ == old(out)@ + dec_of(n as nat),
    decreases n,
{
    if n < 10 {
        let c: char = match n {
            0 => '0',
            1 => '1',
            2 => '2',
            3 => '3',
            4 => '4',
            5 => '5',
            6 => '6',
            7 => '7',
            8 => '8',
            _ => '9',
        };
        push_char(out, c);
        proof {
            assert(c == digit_char(n as int));
            assert(final(out)@ =~= old(out)@ + dec_of(n as nat));
        }
    } else {
        append_u64(out, n / 10);
        let d = n % 10;
        let c: char = match d {
            0 => '0',
            1 => '1',
            2 => '2',
            3 => '3',
            4 => '4',
            5 => '5',
            6 => '6',
            7 => '7',
            8 => '8',
            _ => '9',
        };
        push_char(out, c);
        proof {
            assert(c == digit_char((n % 10) as int));
            assert(final(out)@ =~= old(out)@ + dec_of(n as nat));
        }
    }
}

// ---------------------------------------------------------------------------
// JSON string escaping
// ---------------------------------------------------------------------------

/// The character for one hexadecimal digit, lower case.
pub open spec fn hex_char(d: int) -> char {
    if 0 <= d < 10 {
        digit_char(d)
    } else if d == 10 {
        'a'
    } else if d == 11 {
        'b'
    } else if d == 12 {
        'c'
    } else if d == 13 {
        'd'
    } else if d == 14 {
        'e'
    } else if d == 15 {
        'f'
    } else {
        ' '
    }
}

pub open spec fn is_hex(c: char) -> bool {
    is_digit(c) || c == 'a' || c == 'b' || c == 'c' || c == 'd' || c == 'e' || c == 'f'
}

/// The value of one hexadecimal digit character.
pub open spec fn hex_val(c: char) -> int {
    if c == 'a' {
        10
    } else if c == 'b' {
        11
    } else if c == 'c' {
        12
    } else if c == 'd' {
        13
    } else if c == 'e' {
        14
    } else if c == 'f' {
        15
    } else {
        digit_val(c)
    }
}

/// How one character is written inside a JSON string literal: quote and
/// backslash get a backslash escape, control characters a `\u00XX` escape,
/// everything else stands as itself.
pub open spec fn esc_char(c: char) -> Seq<char> {
    if c == '"' {
        seq!['\\', '"']
    } else if c == '\\' {
        seq!['\\', '\\']
    } else if (c as u32) < 32 {
        seq![
            '\\',
            'u',
            '0',
            '0',
            hex_char((c as u32) as int / 16),
            hex_char((c as u32) as int % 16),
        ]
    } else {
        seq![c]
    }
}

/// The escaped writing of a whole string.
pub open spec fn esc(s: Seq<char>) -> Seq<char>
    decreases s.len(),
{
    if s.len() == 0 {
        Seq::empty()
    } else {
        esc_char(s[0]) + esc(s.drop_first())
    }
}

pub proof fn lemma_esc_snoc(s: Seq<char>, c: char)
    ensures
        esc(s.push(c)) == esc(s) + esc_char(c),
    decreases s.len(),
{
    if s.len() == 0 {
        assert(s.push(c)[0] == c);
        assert(s.push(c).drop_first() =~= Seq::<char>::empty());
        assert(esc(Seq::<char>::empty()) =~= Seq::<char>::empty());
        assert(esc(s.push(c)) =~= esc_char(c) + esc(Seq::<char>::empty()));
        assert(esc(s) =~= Seq::<char>::empty());
        assert(esc(s.push(c)) =~= esc(s) + esc_char(c));
    } else {
        assert(s.push(c).drop_first() =~= s.drop_first().push(c));
        lemma_esc_snoc(s.drop_first(), c);
        assert(esc(s.push(c)) =~= esc(s) + esc_char(c));
    }
}

/// A hexadecimal digit character for `v`, lower case.
fn hex_digit(v: u32) -> (r: char)
    requires
        v < 16,
    ensures
        r == hex_char(v as int),
{
    match v {
        0 => '0',
        1 => '1',
        2 => '2',
        3 => '3',
        4 => '4',
        5 => '5',
        6 => '6',
        7 => '7',
        8 => '8',
        9 => '9',
        10 => 'a',
        11 => 'b',
        12 => 'c',
        13 => 'd',
        14 => 'e',
        _ => 'f',
    }
}

/// The control character with code `v`.
pub open spec fn ctrl_char(v: int) -> char {
    if v == 0 {
        '\u{00}'
    } else if v == 1 {
        '\u{01}'
    } else if v == 2 {
        '\u{02}'
    } else if v == 3 {
        '\u{03}'
    } else if v == 4 {
        '\u{04}'
    } else if v == 5 {
        '\u{05}'
    } else if v == 6 {
        '\u{06}'
    } else if v == 7 {
        '\u{07}'
    } else if v == 8 {
        '\u{08}'
    } else if v == 9 {
        '\u{09}'
    } else if v == 10 {
        '\u{0a}'
    } else if v == 11 {
        '\u{0b}'
    } else if v == 12 {
        '\u{0c}'
    } else if v == 13 {
        '\u{0d}'
    } else if v == 14 {
        '\u{0e}'
    } else if v == 15 {
        '\u{0f}'
    } else if v == 16 {
        '\u{10}'
    } else if v == 17 {
        '\u{11}'
    } else if v == 18 {
        '\u{12}'
    } else if v == 19 {
        '\u{13}'
    } else if v == 20 {
        '\u{14}'
    } else if v == 21 {
        '\u{15}'
    } else if v == 22 {
        '\u{16}'
    } else if v == 23 {
        '\u{17}'
    } else if v == 24 {
        '\u{18}'
    } else if v == 25 {
        '\u{19}'
    } else if v == 26 {
        '\u{1a}'
    } else if v == 27 {
        '\u{1b}'
    } else if v == 28 {
        '\u{1c}'
    } else if v == 29 {
        '\u{1d}'
    } else if v == 30 {
        '\u{1e}'
    } else if v == 31 {
        '\u{1f}'
    } else {
        ' '
    }
}

/// Two characters with the same code point are the same character.
pub proof fn lemma_char_inj(c1: char, c2: char)
    requires
        c1 as u32 == c2 as u32,
    ensures
        c1 == c2,
{
    vstd::utf8::char_u32_cast(c1, c1 as u32);
    vstd::utf8::char_u32_cast(c2, c2 as u32);
}

pub proof fn lemma_ctrl_char_code(v: int)
    requires
        0 <= v < 32,
    ensures
        ctrl_char(v) as u32 == v,
{
}

/// The control character with code `v`, as a value.
fn ctrl_char_exec(v: u32) -> (r: char)
    requires
        v < 32,
    ensures
        r == ctrl_char(v as int),
{
    match v {
        0 => '\u{00}',
        1 => '\u{01}',
        2 => '\u{02}',
        3 => '\u{03}',
        4 => '\u{04}',
        5 => '\u{05}',
        6 => '\u{06}',
        7 => '\u{07}',
        8 => '\u{08}',
        9 => '\u{09}',
        10 => '\u{0a}',
        11 => '\u{0b}',
        12 => '\u{0c}',
        13 => '\u{0d}',
        14 => '\u{0e}',
        15 => '\u{0f}',
        16 => '\u{10}',
        17 => '\u{11}',
        18 => '\u{12}',
        19 => '\u{13}',
        20 => '\u{14}',
        21 => '\u{15}',
        22 => '\u{16}',
        23 => '\u{17}',
        24 => '\u{18}',
        25 => '\u{19}',
        26 => '\u{1a}',
        27 => '\u{1b}',
        28 => '\u{1c}',
        29 => '\u{1d}',
        30 => '\u{1e}',
        _ => '\u{1f}',
    }
}

/// Writes `s` onto `out` in escaped form.
pub fn append_escaped(out: &mut String, s: &str)
    ensures
        final(out)@ == old(out)@ + esc(s@),
{
    let n = s.unicode_len();
    let mut i: usize = 0;
    proof {
        assert(s@.subrange(0, 0) =~= Seq::<char>::empty());
        assert(out@ + esc(s@.subrange(0, 0)) =~= out@);
    }
    while i < n
        invariant
            n == s@.len(),
            0 <= i <= n,
            out@ == old(out)@ + esc(s@.subrange(0, i as int)),
        decreases n - i,
    {
        let c = s.get_char(i);
        if c == '"' {
            push_char(out, '\\');
            push_char(out, '"');
        } else if c == '\\' {
            push_char(out, '\\');
            push_char(out, '\\');
        } else if (c as u32) < 32 {
            let v = c as u32;
            push_char(out, '\\');
            push_char(out, 'u');
            push_char(out, '0');
            push_char(out, '0');
            push_char(out, hex_digit(v / 16));
            push_char(out, hex_digit(v % 16));
        } else {
            push_char(out, c);
        }
        proof {
            assert(s@.subrange(0, i + 1) =~= s@.subrange(0, i as int).push(s@[i as int]));
            lemma_esc_snoc(s@.subrange(0, i as int), s@[i as int]);
            assert(out@ =~= old(out)@ + esc(s@.subrange(0, i + 1)));
        }
        i = i + 1;
    }
    proof {
        assert(s@.subrange(0, n as int) =~= s@);
    }
}

// ---------------------------------------------------------------------------
// The canonical record text
// ---------------------------------------------------------------------------

/// The closing quote of a JSON string literal.
pub open spec fn q_mark() -> Seq<char> {
    seq!['"']
}

/// The signable form: exactly the fields covered by the signature, in fixed
/// order, with no whitespace.
pub open spec fn signable_text(user: Seq<char>, exp: u64, qps: u32) -> Seq<char> {
    "{\"user\":\""@ + esc(user) + q_mark() + ",\"exp\":"@ + dec_of(exp as nat) + ",\"qps\":"@
        + dec_of(qps as nat) + "}"@
}

/// The full token record: the signable fields followed by the signature.
pub open spec fn record_text(user: Seq<char>, exp: u64, qps: u32, sig: Seq<char>) -> Seq<char> {
    "{\"user\":\""@ + esc(user) + q_mark() + ",\"exp\":"@ + dec_of(exp as nat) + ",\"qps\":"@
        + dec_of(qps as nat) + ",\"sig\":\""@ + esc(sig) + q_mark() + "}"@
}

/// Builds the signable form of the given fields.
pub fn signable_string_of(user: &str, exp: u64, qps: u32) -> (r: String)
    ensures
        r@ == signable_text(user@, exp, qps),
{
    let mut out = String::new();
    out.append("{\"user\":\"");
    append_escaped(&mut out, user);
    push_char(&mut out, '"');
    out.append(",\"exp\":");
    append_u64(&mut out, exp);
    out.append(",\"qps\":");
    append_u64(&mut out, qps as u64);
    out.append("}");
    proof {
        assert(out@ =~= signable_text(user@, exp, qps));
    }
    out
}

/// Builds the full record text of the given fields.
pub fn record_string_of(user: &str, exp: u64, qps: u32, sig: &str) -> (r: String)
    ensures
        r@ == record_text(user@, exp, qps, sig@),
{
    let mut out = String::new();
    out.append("{\"user\":\"");
    append_escaped(&mut out, user);
    push_char(&mut out, '"');
    out.append(",\"exp\":");
    append_u64(&mut out, exp);
    out.append(",\"qps\":");
    append_u64(&mut out, qps as u64);
    out.append(",\"sig\":\"");
    append_escaped(&mut out, sig);
    push_char(&mut out, '"');
    out.append("}");
    proof {
        assert(out@ =~= record_text(user@, exp, qps, sig@));
    }
    out
}

// ---------------------------------------------------------------------------
// The strict reader
// ---------------------------------------------------------------------------

/// Reads a JSON string literal body starting at `i` (just past the opening
/// quote): the unescaped content and the position just past the closing
/// quote.  Only the escapes that `esc` writes are accepted.
pub open spec fn scan_jstr(s: Seq<char>, i: int) -> Option<(Seq<char>, int)>
    decreases s.len() - i,
{
    if i < 0 || i >= s.len() {
        None
    } else if s[i] == '"' {
        Some((Seq::empty(), i + 1))
    } else if s[i] == '\\' {
        if i + 2 <= s.len() && (s[i + 1] == '"' || s[i + 1] == '\\') {
            match scan_jstr(s, i + 2) {
                Some(t) => Some((seq![s[i + 1]] + t.0, t.1)),
                None => None,
            }
        } else if i + 6 <= s.len() && s[i + 1] == 'u' && s[i + 2] == '0' && s[i + 3] == '0'
            && is_hex(s[i + 4]) && is_hex(s[i + 5]) && hex_val(s[i + 4]) * 16 + hex_val(s[i + 5])
            < 32 {
            match scan_jstr(s, i + 6) {
                Some(t) => Some(
                    (seq![ctrl_char(hex_val(s[i + 4]) * 16 + hex_val(s[i + 5]))] + t.0, t.1),
                ),
                None => None,
            }
        } else {
            None
        }
    } else if (s[i] as u32) < 32 {
        None
    } else {
        match scan_jstr(s, i + 1) {
            Some(t) => Some((seq![s[i]] + t.0, t.1)),
            None => None,
        }
    }
}

/// Where the digit run that starts at `i` ends.
pub open spec fn digits_end(s: Seq<char>, i: int) -> int
    decreases s.len() - i,
{
    if 0 <= i < s.len() && is_digit(s[i]) {
        digits_end(s, i + 1)
    } else {
        i
    }
}

/// Reads a decimal number starting at `i`: its value and the position just
/// past its digits.  A leading zero and a value beyond `u64` are refused.
pub open spec fn scan_u64(s: Seq<char>, i: int) -> Option<(nat, int)> {
    let e = digits_end(s, i);
    if e == i {
        None
    } else if s[i] == '0' && e > i + 1 {
        None
    } else if val_of(s.subrange(i, e)) > u64::MAX {
        None
    } else {
        Some((val_of(s.subrange(i, e)), e))
    }
}

/// The text `l` stands in `s` at position `i`.
pub open spec fn lit_at(s: Seq<char>, i: int, l: Seq<char>) -> bool {
    0 <= i && i + l.len() <= s.len() && s.subrange(i, i + l.len()) == l
}

/// Reads a whole token record in canonical form; the `sig` field may be
/// absent.  Anything else, trailing text included, is refused.
pub open spec fn parse_token_text(s: Seq<char>) -> Option<
    (Seq<char>, u64, u32, Option<Seq<char>>),
> {
    if !lit_at(s, 0, "{\"user\":\""@) {
        None
    } else {
        match scan_jstr(s, "{\"user\":\""@.len() as int) {
            None => None,
            Some(u) => {
                if !lit_at(s, u.1, ",\"exp\":"@) {
                    None
                } else {
                    match scan_u64(s, u.1 + ",\"exp\":"@.len()) {
                        None => None,
                        Some(e) => {
                            if !lit_at(s, e.1, ",\"qps\":"@) {
                                None
                            } else {
                                match scan_u64(s, e.1 + ",\"qps\":"@.len()) {
                                    None => None,
                                    Some(q) => {
                                        if q.0 > u32::MAX {
                                            None
                                        } else if lit_at(s, q.1, ",\"sig\":\""@) {
                                            match scan_jstr(s, q.1 + ",\"sig\":\""@.len()) {
                                                None => None,
                                                Some(g) => {
                                                    if g.1 + 1 == s.len() && s[g.1] == '}' {
                                                        Some(
                                                            (
                                                                u.0,
                                                                e.0 as u64,
                                                                q.0 as u32,
                                                                Some(g.0),
                                                            ),
                                                        )
                                                    } else {
                                                        None
                                                    }
                                                },
                                            }
                                        } else if q.1 + 1 == s.len() && s[q.1] == '}' {
                                            Some((u.0, e.0 as u64, q.0 as u32, None))
                                        } else {
                                            None
                                        }
                                    },
                                }
                            }
                        },
                    }
                }
            },
        }
    }
}

pub proof fn lemma_hex_round(x: int)
    requires
        0 <= x < 16,
    ensures
        is_hex(hex_char(x)),
        hex_val(hex_char(x)) == x,
{
}

/// Reading a string literal body that `esc` wrote yields the text back and
/// stops just past the closing quote.
pub proof fn lemma_scan_jstr_esc(s: Seq<char>, p: Seq<char>, u: Seq<char>, rest: Seq<char>)
    requires
        s == p + esc(u) + q_mark() + rest,
    ensures
        scan_jstr(s, p.len() as int) == Some((u, (p.len() + esc(u).len() + 1) as int)),
    decreases u.len(),
{
    let i = p.len() as int;
    assert(s.len() == p.len() + esc(u).len() + 1 + rest.len());
    if u.len() == 0 {
        assert(esc(u) =~= Seq::<char>::empty());
        assert(s =~= p + q_mark() + rest);
        assert(s[i] == '"') by {
            assert((p + q_mark() + rest)[i] == q_mark()[0]);
        }
        assert(scan_jstr(s, i) == Some((Seq::<char>::empty(), i + 1)));
        assert(u =~= Seq::<char>::empty());
    } else {
        let c = u[0];
        let u2 = u.drop_first();
        assert(esc(u) == esc_char(c) + esc(u2));
        let ec = esc_char(c);
        let p2 = p + ec;
        assert(s =~= p2 + esc(u2) + q_mark() + rest);
        lemma_scan_jstr_esc(s, p2, u2, rest);
        assert(forall|k: int| 0 <= k < ec.len() ==> s[i + k] == #[trigger] ec[k]) by {
            assert(forall|k: int|
                0 <= k < ec.len() ==> #[trigger] s[i + k] == (p + (esc_char(c) + esc(u2))
                    + q_mark() + rest)[i + k]);
        }
        assert(seq![c] + u2 =~= u);
        if c == '"' {
            assert(s[i] == '\\' && s[i + 1] == '"');
            assert(scan_jstr(s, i) == Some((seq![s[i + 1]] + u2, i + 2 + esc(u2).len() + 1)));
            assert(seq![s[i + 1]] + u2 == u);
        } else if c == '\\' {
            assert(s[i] == '\\' && s[i + 1] == '\\');
            assert(scan_jstr(s, i) == Some((seq![s[i + 1]] + u2, i + 2 + esc(u2).len() + 1)));
            assert(seq![s[i + 1]] + u2 == u);
        } else if (c as u32) < 32 {
            let v = (c as u32) as int;
            assert(s[i] == '\\' && s[i + 1] == 'u' && s[i + 2] == '0' && s[i + 3] == '0');
            assert(s[i + 4] == hex_char(v / 16) && s[i + 5] == hex_char(v % 16));
            lemma_hex_round(v / 16);
            lemma_hex_round(v % 16);
            assert(hex_val(s[i + 4]) * 16 + hex_val(s[i + 5]) == v);
            lemma_ctrl_char_code(v);
            lemma_char_inj(ctrl_char(v), c);
            assert(scan_jstr(s, i) == Some((seq![c] + u2, i + 6 + esc(u2).len() + 1)));
        } else {
            assert(s[i] == c);
            assert(scan_jstr(s, i) == Some((seq![c] + u2, i + 1 + esc(u2).len() + 1)));
        }
    }
}

/// A digit run of known extent ends where the text after it begins.
proof fn lemma_digits_end_of(s: Seq<char>, i: int, d: Seq<char>)
    requires
        0 <= i,
        i + d.len() <= s.len(),
        s.subrange(i, i + d.len()) == d,
        all_digits(d),
        i + d.len() == s.len() || !is_digit(s[i + d.len()]),
    ensures
        digits_end(s, i) == i + d.len(),
    decreases d.len(),
{
    if d.len() == 0 {
        assert(digits_end(s, i) == i);
    } else {
        assert(s[i] == d[0]) by {
            assert(s.subrange(i, i + d.len())[0] == s[i]);
        }
        assert(is_digit(s[i]));
        let d2 = d.drop_first();
        assert(s.subrange(i + 1, i + 1 + d2.len()) =~= d2) by {
            assert(forall|k: int|
                0 <= k < d2.len() ==> #[trigger] s.subrange(i + 1, i + 1 + d2.len())[k]
                    == s.subrange(i, i + d.len())[k + 1]);
        }
        assert(all_digits(d2)) by {
            assert(forall|k: int| 0 <= k < d2.len() ==> #[trigger] d2[k] == d[k + 1]);
        }
        lemma_digits_end_of(s, i + 1, d2);
    }
}

/// Reading a decimal number that `dec_of` wrote yields the value back and
/// stops just past its digits.
pub proof fn lemma_scan_u64_dec(s: Seq<char>, p: Seq<char>, n: u64, rest: Seq<char>)
    requires
        s == p + dec_of(n as nat) + rest,
        rest.len() > 0,
        !is_digit(rest[0]),
    ensures
        scan_u64(s, p.len() as int) == Some((n as nat, (p.len() + dec_of(n as nat).len()) as int)),
{
    let i = p.len() as int;
    let d = dec_of(n as nat);
    lemma_dec_of_props(n as nat);
    assert(s.subrange(i, i + d.len()) =~= d) by {
        assert(forall|k: int|
            0 <= k < d.len() ==> #[trigger] s.subrange(i, i + d.len())[k] == (p + d + rest)[i
                + k]);
    }
    assert(s[i + d.len()] == rest[0]) by {
        assert((p + d + rest)[i + d.len()] == rest[0]);
    }
    lemma_digits_end_of(s, i, d);
    assert(s[i] == d[0]) by {
        assert(s.subrange(i, i + d.len())[0] == s[i]);
    }
    if s[i] == '0' {
        assert(n == 0);
        assert(d.len() == 1);
    }
    assert(val_of(s.subrange(i, i + d.len())) == n as nat);
}

/// Reading a record that `record_text` wrote yields its fields back.
#[verifier::rlimit(80)]
pub proof fn lemma_parse_of_record(user: Seq<char>, exp: u64, qps: u32, sig: Seq<char>)
    ensures
        parse_token_text(record_text(user, exp, qps, sig)) == Some(
            (user, exp, qps, Some(sig)),
        ),
{
    reveal_strlit("{\"user\":\"");
    reveal_strlit(",\"exp\":");
    reveal_strlit(",\"qps\":");
    reveal_strlit(",\"sig\":\"");
    reveal_strlit("}");
    let l1 = "{\"user\":\""@;
    let l2 = ",\"exp\":"@;
    let l3 = ",\"qps\":"@;
    let l4 = ",\"sig\":\""@;
    let l5 = "}"@;
    let de = dec_of(exp as nat);
    let dq = dec_of(qps as nat);
    lemma_dec_of_props(exp as nat);
    lemma_dec_of_props(qps as nat);
    let s = record_text(user, exp, qps, sig);
    assert(l1.len() == 9 && l2.len() == 7 && l3.len() == 7 && l4.len() == 8 && l5.len() == 1);

    // the user field
    assert(s.subrange(0, 9) =~= l1) by {
        assert(forall|k: int| 0 <= k < 9 ==> #[trigger] s.subrange(0, 9)[k] == s[k]);
    }
    assert(lit_at(s, 0, l1));
    let rest1 = l2 + de + l3 + dq + l4 + esc(sig) + q_mark() + l5;
    assert(s =~= l1 + esc(user) + q_mark() + rest1);
    lemma_scan_jstr_esc(s, l1, user, rest1);
    let i1 = 9 + esc(user).len() as int + 1;
    assert(scan_jstr(s, 9) == Some((user, i1)));

    // the exp field
    let p2 = l1 + esc(user) + q_mark();
    assert(p2.len() == i1);
    assert(s.subrange(i1, i1 + 7) =~= l2) by {
        assert(forall|k: int|
            0 <= k < 7 ==> #[trigger] s.subrange(i1, i1 + 7)[k] == (p2 + rest1)[i1 + k]);
    }
    assert(lit_at(s, i1, l2));
    let p3 = p2 + l2;
    let rest2 = l3 + dq + l4 + esc(sig) + q_mark() + l5;
    assert(s =~= p3 + de + rest2);
    assert(!is_digit(rest2[0])) by {
        assert(rest2[0] == l3[0]);
    }
    lemma_scan_u64_dec(s, p3, exp, rest2);
    let i2 = i1 + 7 + de.len() as int;
    assert(scan_u64(s, i1 + 7) == Some((exp as nat, i2)));

    // the qps field
    let p4 = p3 + de;
    assert(p4.len() == i2);
    assert(s.subrange(i2, i2 + 7) =~= l3) by {
        assert(forall|k: int|
            0 <= k < 7 ==> #[trigger] s.subrange(i2, i2 + 7)[k] == (p4 + rest2)[i2 + k]);
    }
    assert(lit_at(s, i2, l3));
    let p5 = p4 + l3;
    let rest3 = l4 + esc(sig) + q_mark() + l5;
    assert(s =~= p5 + dq + rest3);
    assert(!is_digit(rest3[0])) by {
        assert(rest3[0] == l4[0]);
    }
    lemma_scan_u64_dec(s, p5, qps as u64, rest3);
    let i3 = i2 + 7 + dq.len() as int;
    assert(scan_u64(s, i2 + 7) == Some((qps as nat, i3)));

    // the sig field
    let p6 = p5 + dq;
    assert(p6.len() == i3);
    assert(s.subrange(i3, i3 + 8) =~= l4) by {
        assert(forall|k: int|
            0 <= k < 8 ==> #[trigger] s.subrange(i3, i3 + 8)[k] == (p6 + rest3)[i3 + k]);
    }
    assert(lit_at(s, i3, l4));
    let p7 = p6 + l4;
    assert(s =~= p7 + esc(sig) + q_mark() + l5);
    lemma_scan_jstr_esc(s, p7, sig, l5);
    let i4 = i3 + 8 + esc(sig).len() as int + 1;
    assert(scan_jstr(s, i3 + 8) == Some((sig, i4)));

    // the closing brace
    assert(s.len() == i4 + 1);
    assert(s[i4] == '}') by {
        let p8 = p7 + esc(sig) + q_mark();
        assert(p8.len() == i4);
        assert((p8 + l5)[i4] == l5[0]);
    }
}

pub proof fn lemma_digit_char_of_val(c: char)
    requires
        is_digit(c),
    ensures
        digit_char(digit_val(c)) == c,
        0 <= digit_val(c) < 10,
{
}

pub proof fn lemma_hex_char_of_val(c: char)
    requires
        is_hex(c),
    ensures
        hex_char(hex_val(c)) == c,
        0 <= hex_val(c) < 16,
{
}

proof fn lemma_val_zero_all_zero(d: Seq<char>)
    requires
        all_digits(d),
        val_of(d) == 0,
    ensures
        forall|i: int| 0 <= i < d.len() ==> d[i] == '0',
    decreases d.len(),
{
    if d.len() > 0 {
        assert(is_digit(d.last()));
        lemma_digit_char_of_val(d.last());
        let d2 = d.drop_last();
        assert(all_digits(d2)) by {
            assert(forall|i: int| 0 <= i < d2.len() ==> #[trigger] d2[i] == d[i]);
        }
        lemma_val_zero_all_zero(d2);
        assert(digit_val(d.last()) == 0);
        assert(d.last() == '0');
        assert(forall|i: int| 0 <= i < d.len() - 1 ==> #[trigger] d[i] == d2[i]);
    }
}

/// A digit string without a leading zero is the decimal writing of its
/// value.
proof fn lemma_dec_unique(d: Seq<char>)
    requires
        d.len() >= 1,
        all_digits(d),
        d[0] != '0' || d.len() == 1,
    ensures
        dec_of(val_of(d)) == d,
    decreases d.len(),
{
    assert(is_digit(d.last()));
    lemma_digit_char_of_val(d.last());
    if d.len() == 1 {
        assert(d.drop_last() =~= Seq::<char>::empty());
        assert(val_of(Seq::<char>::empty()) == 0);
        assert(d.last() == d[0]);
        assert(val_of(d) == digit_val(d[0]));
        assert(dec_of(val_of(d)) =~= d);
    } else {
        let d2 = d.drop_last();
        assert(all_digits(d2)) by {
            assert(forall|i: int| 0 <= i < d2.len() ==> #[trigger] d2[i] == d[i]);
        }
        assert(d2[0] == d[0] && d2[0] != '0');
        if val_of(d2) == 0 {
            lemma_val_zero_all_zero(d2);
            assert(false);
        }
        let v = val_of(d);
        let b = digit_val(d.last());
        assert(v == val_of(d2) * 10 + b);
        assert(v / 10 == val_of(d2) && v % 10 == b) by (nonlinear_arith)
            requires
                v == val_of(d2) * 10 + b,
                0 <= b < 10,
                val_of(d2) >= 0,
        ;
        assert(v >= 10) by (nonlinear_arith)
            requires
                v == val_of(d2) * 10 + b,
                val_of(d2) >= 1,
                b >= 0,
        ;
        lemma_dec_unique(d2);
        assert(dec_of(v) == dec_of(v / 10).push(digit_char((v % 10) as int)));
        assert(dec_of(v) =~= d);
    }
}

proof fn lemma_digits_region(s: Seq<char>, i: int)
    requires
        0 <= i <= s.len(),
    ensures
        i <= digits_end(s, i) <= s.len(),
        forall|k: int| i <= k < digits_end(s, i) ==> is_digit(#[trigger] s[k]),
    decreases s.len() - i,
{
    if i < s.len() && is_digit(s[i]) {
        lemma_digits_region(s, i + 1);
    }
}

/// A number the reader accepts stands in the text exactly as `dec_of`
/// writes its value.
pub proof fn lemma_scan_u64_sound(s: Seq<char>, i: int)
    requires
        0 <= i <= s.len(),
        scan_u64(s, i) is Some,
    ensures
        ({
            let p = scan_u64(s, i)->0;
            &&& i < p.1 <= s.len()
            &&& s.subrange(i, p.1) == dec_of(p.0)
        }),
{
    let e = digits_end(s, i);
    lemma_digits_region(s, i);
    let d = s.subrange(i, e);
    assert(all_digits(d)) by {
        assert(forall|k: int| 0 <= k < d.len() ==> #[trigger] d[k] == s[i + k]);
    }
    assert(d[0] == s[i]);
    lemma_dec_unique(d);
}

/// A string literal body the reader accepts stands in the text exactly as
/// `esc` writes its content, closing quote included.
pub proof fn lemma_scan_jstr_sound(s: Seq<char>, i: int)
    requires
        scan_jstr(s, i) is Some,
    ensures
        ({
            let p = scan_jstr(s, i)->0;
            &&& 0 <= i < p.1 <= s.len()
            &&& s.subrange(i, p.1) == esc(p.0) + q_mark()
        }),
    decreases s.len() - i,
{
    let p = scan_jstr(s, i)->0;
    let u = p.0;
    let j = p.1;
    if s[i] == '"' {
        assert(u =~= Seq::<char>::empty());
        assert(esc(u) =~= Seq::<char>::empty());
        assert(s.subrange(i, j) =~= esc(u) + q_mark());
    } else if s[i] == '\\' {
        if i + 2 <= s.len() && (s[i + 1] == '"' || s[i + 1] == '\\') {
            let q = scan_jstr(s, i + 2)->0;
            lemma_scan_jstr_sound(s, i + 2);
            let e = s[i + 1];
            assert(u == seq![e] + q.0);
            assert(u[0] == e);
            assert(u.drop_first() =~= q.0);
            assert(esc(u) == esc_char(e) + esc(q.0));
            assert(s.subrange(i, j) =~= esc_char(e) + (esc(q.0) + q_mark())) by {
                assert(forall|k: int|
                    0 <= k < j - i - 2 ==> #[trigger] s.subrange(i + 2, j)[k] == s[i + 2 + k]);
            }
        } else {
            let v = hex_val(s[i + 4]) * 16 + hex_val(s[i + 5]);
            let c = ctrl_char(v);
            let q = scan_jstr(s, i + 6)->0;
            lemma_scan_jstr_sound(s, i + 6);
            lemma_hex_char_of_val(s[i + 4]);
            lemma_hex_char_of_val(s[i + 5]);
            assert(v / 16 == hex_val(s[i + 4]) && v % 16 == hex_val(s[i + 5])) by (nonlinear_arith)
                requires
                    v == hex_val(s[i + 4]) * 16 + hex_val(s[i + 5]),
                    0 <= hex_val(s[i + 4]) < 16,
                    0 <= hex_val(s[i + 5]) < 16,
            ;
            lemma_ctrl_char_code(v);
            assert(esc_char(c) =~= seq![
                '\\',
                'u',
                '0',
                '0',
                hex_char(v / 16),
                hex_char(v % 16),
            ]);
            assert(u == seq![c] + q.0);
            assert(u[0] == c);
            assert(u.drop_first() =~= q.0);
            assert(esc(u) == esc_char(c) + esc(q.0));
            assert(s.subrange(i, j) =~= esc_char(c) + (esc(q.0) + q_mark())) by {
                assert(forall|k: int|
                    0 <= k < j - i - 6 ==> #[trigger] s.subrange(i + 6, j)[k] == s[i + 6 + k]);
            }
        }
    } else {
        let c = s[i];
        let q = scan_jstr(s, i + 1)->0;
        lemma_scan_jstr_sound(s, i + 1);
        assert(u == seq![c] + q.0);
        assert(u[0] == c);
        assert(u.drop_first() =~= q.0);
        assert(esc_char(c) =~= seq![c]);
        assert(esc(u) == esc_char(c) + esc(q.0));
        assert(s.subrange(i, j) =~= esc_char(c) + (esc(q.0) + q_mark())) by {
            assert(forall|k: int|
                0 <= k < j - i - 1 ==> #[trigger] s.subrange(i + 1, j)[k] == s[i + 1 + k]);
        }
    }
}

/// A record the reader accepts with its signature present is exactly the
/// canonical writing of the fields it yields.
#[verifier::rlimit(80)]
pub proof fn lemma_parse_sound(s: Seq<char>)
    requires
        parse_token_text(s) is Some,
        (parse_token_text(s)->0).3 is Some,
    ensures
        ({
            let f = parse_token_text(s)->0;
            s == record_text(f.0, f.1, f.2, f.3->0)
        }),
{
    reveal_strlit("{\"user\":\"");
    reveal_strlit(",\"exp\":");
    reveal_strlit(",\"qps\":");
    reveal_strlit(",\"sig\":\"");
    reveal_strlit("}");
    let l1 = "{\"user\":\""@;
    let l2 = ",\"exp\":"@;
    let l3 = ",\"qps\":"@;
    let l4 = ",\"sig\":\""@;
    let l5 = "}"@;
    let up = scan_jstr(s, 9)->0;
    let user = up.0;
    let i1 = up.1;
    lemma_scan_jstr_sound(s, 9);
    let ep = scan_u64(s, i1 + 7)->0;
    let i2 = ep.1;
    lemma_scan_u64_sound(s, i1 + 7);
    let qp = scan_u64(s, i2 + 7)->0;
    let i3 = qp.1;
    lemma_scan_u64_sound(s, i2 + 7);
    let gp = scan_jstr(s, i3 + 8)->0;
    let sig = gp.0;
    let i4 = gp.1;
    lemma_scan_jstr_sound(s, i3 + 8);
    assert(s.subrange(i4, s.len() as int) =~= l5);
    assert(s.subrange(0, i1) =~= l1 + (esc(user) + q_mark()));
    assert(s.subrange(i1, i2) =~= l2 + dec_of(ep.0));
    assert(s.subrange(i2, i3) =~= l3 + dec_of(qp.0));
    assert(s.subrange(i3, s.len() as int) =~= l4 + (esc(sig) + q_mark()) + l5);
    assert(s =~= s.subrange(0, i1) + s.subrange(i1, i2) + s.subrange(i2, i3) + s.subrange(
        i3,
        s.len() as int,
    ));
    let f = parse_token_text(s)->0;
    assert(dec_of(f.1 as nat) == dec_of(ep.0));
    assert(dec_of(f.2 as nat) == dec_of(qp.0));
    assert(s =~= record_text(f.0, f.1, f.2, f.3->0));
}

/// Compares the text at position `i` of `s` with `lit`, yielding the
/// position just past it on a match.
fn eat_lit(s: &str, i: usize, lit: &str) -> (r: Option<usize>)
    requires
        i <= s@.len(),
    ensures
        match r {
            Some(j) => lit_at(s@, i as int, lit@) && j == i + lit@.len() && j <= s@.len(),
            None => !lit_at(s@, i as int, lit@),
        },
{
    let n = s.unicode_len();
    let m = lit.unicode_len();
    if n - i < m {
        return None;
    }
    let mut j: usize = 0;
    while j < m
        invariant
            n == s@.len(),
            m == lit@.len(),
            i + m <= n,
            0 <= j <= m,
            forall|k: int| 0 <= k < j ==> s@[i + k] == lit@[k],
        decreases m - j,
    {
        if s.get_char(i + j) != lit.get_char(j) {
            proof {
                assert(s@.subrange(i as int, i + m) != lit@) by {
                    assert(s@.subrange(i as int, i + m)[j as int] == s@[i + j]);
                }
            }
            return None;
        }
        j = j + 1;
    }
    proof {
        assert(s@.subrange(i as int, i + m) =~= lit@);
    }
    Some(i + m)
}

/// The value of one hexadecimal digit character, if it is one.
fn hex_val_exec(c: char) -> (r: Option<u32>)
    ensures
        match r {
            Some(v) => is_hex(c) && v == hex_val(c) && v < 16,
            None => !is_hex(c),
        },
{
    match c {
        '0' => Some(0),
        '1' => Some(1),
        '2' => Some(2),
        '3' => Some(3),
        '4' => Some(4),
        '5' => Some(5),
        '6' => Some(6),
        '7' => Some(7),
        '8' => Some(8),
        '9' => Some(9),
        'a' => Some(10),
        'b' => Some(11),
        'c' => Some(12),
        'd' => Some(13),
        'e' => Some(14),
        'f' => Some(15),
        _ => None,
    }
}

/// Whether the character at position `j` is a decimal digit.
fn is_digit_at(s: &str, j: usize) -> (b: bool)
    requires
        j < s@.len(),
    ensures
        b == is_digit(s@[j as int]),
{
    match digit_val_exec(s.get_char(j)) {
        Some(_) => true,
        None => false,
    }
}

/// The value of one decimal digit character, if it is one.
fn digit_val_exec(c: char) -> (r: Option<u64>)
    ensures
        match r {
            Some(v) => is_digit(c) && v == digit_val(c) && v < 10,
            None => !is_digit(c),
        },
{
    match c {
        '0' => Some(0),
        '1' => Some(1),
        '2' => Some(2),
        '3' => Some(3),
        '4' => Some(4),
        '5' => Some(5),
        '6' => Some(6),
        '7' => Some(7),
        '8' => Some(8),
        '9' => Some(9),
        _ => None,
    }
}

/// Reads a JSON string literal body, as `scan_jstr` describes.
fn scan_string(s: &str, i: usize) -> (r: Option<(String, usize)>)
    requires
        i <= s@.len(),
    ensures
        match r {
            Some(p) => scan_jstr(s@, i as int) == Some((p.0@, p.1 as int)) && i < p.1 <= s@.len(),
            None => scan_jstr(s@, i as int) is None,
        },
{
    let n = s.unicode_len();
    let mut out = String::new();
    let mut j: usize = i;
    loop
        invariant
            n == s@.len(),
            i <= j <= n,
            ({
                let rest = scan_jstr(s@, j as int);
                let whole = scan_jstr(s@, i as int);
                match rest {
                    Some(t) => whole == Some((out@ + t.0, t.1)),
                    None => whole is None,
                }
            }),
        decreases n - j,
    {
        if n - j == 0 {
            return None;
        }
        let c = s.get_char(j);
        if c == '"' {
            proof {
                assert(scan_jstr(s@, j as int) == Some((Seq::<char>::empty(), j + 1)));
                assert(out@ + Seq::<char>::empty() =~= out@);
            }
            return Some((out, j + 1));
        } else if c == '\\' {
            if n - j >= 2 {
                let e = s.get_char(j + 1);
                if e == '"' || e == '\\' {
                    proof {
                        let ghost rest2 = scan_jstr(s@, j + 2);
                        match rest2 {
                            Some(t) => {
                                assert(scan_jstr(s@, j as int) == Some((seq![e] + t.0, t.1)));
                                assert(out@ + (seq![e] + t.0) =~= out@.push(e) + t.0);
                            },
                            None => {
                                assert(scan_jstr(s@, j as int) is None);
                            },
                        }
                    }
                    push_char(&mut out, e);
                    j = j + 2;
                    continue ;
                }
                if e == 'u' && n - j >= 6 {
                    if s.get_char(j + 2) == '0' && s.get_char(j + 3) == '0' {
                        let h1 = hex_val_exec(s.get_char(j + 4));
                        let h2 = hex_val_exec(s.get_char(j + 5));
                        match (h1, h2) {
                            (Some(v1), Some(v2)) => {
                                let v = v1 * 16 + v2;
                                if v < 32 {
                                    let cc = ctrl_char_exec(v);
                                    proof {
                                        let ghost rest6 = scan_jstr(s@, j + 6);
                                        match rest6 {
                                            Some(t) => {
                                                assert(scan_jstr(s@, j as int) == Some(
                                                    (seq![cc] + t.0, t.1),
                                                ));
                                                assert(out@ + (seq![cc] + t.0) =~= out@.push(cc)
                                                    + t.0);
                                            },
                                            None => {
                                                assert(scan_jstr(s@, j as int) is None);
                                            },
                                        }
                                    }
                                    push_char(&mut out, cc);
                                    j = j + 6;
                                    continue ;
                                }
                            },
                            _ => {},
                        }
                    }
                }
            }
            proof {
                assert(scan_jstr(s@, j as int) is None);
            }
            return None;
        } else if (c as u32) < 32 {
            return None;
        } else {
            proof {
                let ghost rest1 = scan_jstr(s@, j + 1);
                match rest1 {
                    Some(t) => {
                        assert(scan_jstr(s@, j as int) == Some((seq![c] + t.0, t.1)));
                        assert(out@ + (seq![c] + t.0) =~= out@.push(c) + t.0);
                    },
                    None => {
                        assert(scan_jstr(s@, j as int) is None);
                    },
                }
            }
            push_char(&mut out, c);
            j = j + 1;
        }
    }
}

/// Reads a decimal number, as `scan_u64` describes.
fn parse_u64_at(s: &str, i: usize) -> (r: Option<(u64, usize)>)
    requires
        i <= s@.len(),
    ensures
        match r {
            Some(p) => scan_u64(s@, i as int) == Some((p.0 as nat, p.1 as int)) && i < p.1
                <= s@.len(),
            None => scan_u64(s@, i as int) is None,
        },
{
    let n = s.unicode_len();
    let mut j: usize = i;
    let mut acc: u64 = 0;
    let mut over: bool = false;
    proof {
        assert(s@.subrange(i as int, i as int) =~= Seq::<char>::empty());
    }
    while j < n && is_digit_at(s, j)
        invariant
            n == s@.len(),
            i <= j <= n,
            digits_end(s@, i as int) == digits_end(s@, j as int),
            forall|k: int| i <= k < j ==> is_digit(#[trigger] s@[k]),
            !over ==> acc as nat == val_of(s@.subrange(i as int, j as int)),
            over ==> val_of(s@.subrange(i as int, j as int)) > u64::MAX,
        decreases n - j,
    {
        let c = s.get_char(j);
        let d = match digit_val_exec(c) {
            Some(v) => v,
            None => 0,
        };
        proof {
            assert(s@.subrange(i as int, j + 1).drop_last() =~= s@.subrange(i as int, j as int));
            assert(s@.subrange(i as int, j + 1).last() == s@[j as int]);
        }
        if !over {
            if acc <= (u64::MAX - d) / 10 {
                proof {
                    let q = (u64::MAX - d) / 10;
                    assert(acc * 10 <= q * 10) by (nonlinear_arith)
                        requires
                            0 <= acc <= q,
                    ;
                    assert(q * 10 + d <= u64::MAX) by (nonlinear_arith)
                        requires
                            q == (u64::MAX - d) / 10 && 0 <= d <= 9,
                    ;
                }
                acc = acc * 10 + d;
            } else {
                proof {
                    let q = (u64::MAX - d) / 10;
                    assert(acc * 10 >= (q + 1) * 10) by (nonlinear_arith)
                        requires
                            acc >= q + 1 && q >= 0,
                    ;
                    assert((q + 1) * 10 + d > u64::MAX) by (nonlinear_arith)
                        requires
                            q == (u64::MAX - d) / 10 && 0 <= d <= 9,
                    ;
                }
                over = true;
            }
        } else {
            proof {
                let old_v = val_of(s@.subrange(i as int, j as int));
                assert(val_of(s@.subrange(i as int, j + 1)) == old_v * 10 + digit_val(s@[j as int]));
                assert(old_v * 10 >= old_v) by (nonlinear_arith)
                    requires
                        old_v >= 0,
                ;
            }
        }
        j = j + 1;
    }
    proof {
        assert(digits_end(s@, j as int) == j);
    }
    if j == i {
        return None;
    }
    if s.get_char(i) == '0' && j > i + 1 {
        return None;
    }
    if over {
        return None;
    }
    Some((acc, j))
}

/// A view of an optional piece of text.
pub open spec fn opt_text(o: Option<String>) -> Option<Seq<char>> {
    match o {
        Some(s) => Some(s@),
        None => None,
    }
}

/// Reads a whole token record, as `parse_token_text` describes.
pub fn parse_token(s: &str) -> (r: Option<(String, u64, u32, Option<String>)>)
    ensures
        match r {
            Some(p) => parse_token_text(s@) == Some((p.0@, p.1, p.2, opt_text(p.3))),
            None => parse_token_text(s@) is None,
        },
{
    proof {
        reveal_strlit("{\"user\":\"");
        reveal_strlit(",\"exp\":");
        reveal_strlit(",\"qps\":");
        reveal_strlit(",\"sig\":\"");
    }
    let i0 = match eat_lit(s, 0, "{\"user\":\"") {
        Some(j) => j,
        None => {
            return None;
        },
    };
    let (user, i1) = match scan_string(s, i0) {
        Some(p) => p,
        None => {
            return None;
        },
    };
    let i2 = match eat_lit(s, i1, ",\"exp\":") {
        Some(j) => j,
        None => {
            return None;
        },
    };
    let (exp, i3) = match parse_u64_at(s, i2) {
        Some(p) => p,
        None => {
            return None;
        },
    };
    let i4 = match eat_lit(s, i3, ",\"qps\":") {
        Some(j) => j,
        None => {
            return None;
        },
    };
    let (qps64, i5) = match parse_u64_at(s, i4) {
        Some(p) => p,
        None => {
            return None;
        },
    };
    if qps64 > u32::MAX as u64 {
        return None;
    }
    let qps: u32 = qps64 as u32;
    let n = s.unicode_len();
    match eat_lit(s, i5, ",\"sig\":\"") {
        Some(i6) => {
            let (sig, i7) = match scan_string(s, i6) {
                Some(p) => p,
                None => {
                    return None;
                },
            };
            if n - i7 == 1 && s.get_char(i7) == '}' {
                Some((user, exp, qps, Some(sig)))
            } else {
                None
            }
        },
        None => {
            if n - i5 == 1 && s.get_char(i5) == '}' {
                Some((user, exp, qps, None))
            } else {
                None
            }
        },
    }
}

} // verus!
