//! The item exchange format.
//!
//! An item travels as a small object in JSON syntax: a required
//! `datetime` field (signed 64-bit millisecond timestamp), an optional
//! `datetime_secondary` field, and a `message` string that is omitted when
//! empty. [`ser_spec`] gives the exact text written for a model, and
//! [`parse_item_spec`] the exact meaning of a received text; serializing
//! and then deserializing any item gives the item back unchanged.

use vstd::prelude::*;
use vstd::string::StrSliceExecFns;
use crate::item::{ItemModel, QueueItem};

verus! {

broadcast use vstd::utf8::char_is_scalar, vstd::utf8::char_u32_cast;

// ---------------------------------------------------------------------
// Decimal numerals
// ---------------------------------------------------------------------
/// The character for one decimal digit.
pub open spec fn spec_digit(d: int) -> char {
    if d == 0 {
        '0'
    } else if d == 1 {
        '1'
    } else if d == 2 {
        '2'
    } else if d == 3 {
        '3'
    } else if d == 4 {
        '4'
    } else if d == 5 {
        '5'
    } else if d == 6 {
        '6'
    } else if d == 7 {
        '7'
    } else if d == 8 {
        '8'
    } else {
        '9'
    }
}

/// The decimal numeral of a natural number, most significant digit first,
/// with no leading zeros.
pub open spec fn dec_nat(n: nat) -> Seq<char>
    decreases n,
{
    if n < 10 {
        seq![spec_digit(n as int)]
    } else {
        dec_nat(n / 10).push(spec_digit((n % 10) as int))
    }
}

/// The decimal numeral of an integer: a minus sign before the numeral of
/// the magnitude for negative values.
pub open spec fn dec_int(n: int) -> Seq<char> {
    if n < 0 {
        seq!['-'] + dec_nat((-n) as nat)
    } else {
        dec_nat(n as nat)
    }
}

/// A decimal digit character.
pub open spec fn is_digit(c: char) -> bool {
    '0' <= c && c <= '9'
}

/// The value of a decimal digit character.
pub open spec fn digit_val(c: char) -> int {
    c as u32 - '0' as u32
}

/// Whether a value fits a signed 64-bit integer.
pub open spec fn in_i64(v: int) -> bool {
    i64::MIN <= v <= i64::MAX
}

/// Digit characters carry their digit's value.
pub proof fn lemma_spec_digit_val(d: int)
    requires
        0 <= d <= 9,
    ensures
        is_digit(spec_digit(d)),
        digit_val(spec_digit(d)) == d,
{
}

/// The sequence a digit loop collects, read back to front.
pub open spec fn rev_chars(s: Seq<char>) -> Seq<char> {
    Seq::new(s.len(), |i: int| s[s.len() - 1 - i])
}

/// One exec decimal digit character.
fn digit_char(d: u64) -> (c: char)
    requires
        d < 10,
    ensures
        c == spec_digit(d as int),
{
    match d {
        0 => '0',
        1 => '1',
        2 => '2',
        3 => '3',
        4 => '4',
        5 => '5',
        6 => '6',
        7 => '7',
        8 => '8',
        _ => '9',
    }
}

/// Appends the decimal numeral of an unsigned value.
fn push_dec_u64(out: &mut Vec<char>, n: u64)
    ensures
        final(out)@ == old(out)@ + dec_nat(n as nat),
{
    let ghost base = out@;
    let mut tmp: Vec<char> = Vec::new();
    tmp.push(digit_char(n % 10));
    let mut cur: u64 = n / 10;
    proof {
        if n < 10 {
            assert(dec_nat(n as nat) =~= rev_chars(tmp@));
        } else {
            assert(dec_nat(n as nat) =~= dec_nat((n / 10) as nat) + rev_chars(tmp@));
        }
    }
    while cur > 0
        invariant
            dec_nat(n as nat) == if cur == 0 {
                rev_chars(tmp@)
            } else {
                dec_nat(cur as nat) + rev_chars(tmp@)
            },
            out@ == base,
        decreases cur,
    {
        let ghost tmp0 = tmp@;
        let ghost cur0 = cur;
        tmp.push(digit_char(cur % 10));
        proof {
            assert(rev_chars(tmp@) =~= seq![spec_digit((cur0 % 10) as int)] + rev_chars(tmp0));
            if cur0 < 10 {
                assert(dec_nat(cur0 as nat) =~= seq![spec_digit((cur0 % 10) as int)]);
                assert(dec_nat(n as nat) =~= rev_chars(tmp@));
            } else {
                assert(dec_nat(cur0 as nat) =~= dec_nat((cur0 / 10) as nat) + seq![
                    spec_digit((cur0 % 10) as int),
                ]);
                assert(dec_nat(n as nat) =~= dec_nat((cur0 / 10) as nat) + rev_chars(tmp@));
            }
        }
        cur = cur / 10;
    }
    let mut k: usize = 0;
    while k < tmp.len()
        invariant
            0 <= k <= tmp@.len(),
            out@ == base + rev_chars(tmp@).take(k as int),
        decreases tmp@.len() - k,
    {
        out.push(tmp[tmp.len() - 1 - k]);
        proof {
            assert(out@ =~= base + rev_chars(tmp@).take(k + 1));
        }
        k += 1;
    }
    proof {
        assert(rev_chars(tmp@).take(tmp@.len() as int) =~= rev_chars(tmp@));
        assert(out@ =~= base + dec_nat(n as nat));
    }
}

/// Appends the decimal numeral of a signed value.
fn push_dec_i64(out: &mut Vec<char>, n: i64)
    ensures
        final(out)@ == old(out)@ + dec_int(n as int),
{
    let ghost base = out@;
    if n < 0 {
        out.push('-');
        let mag: u64 = if n == i64::MIN {
            9223372036854775808u64
        } else {
            (-n) as u64
        };
        assert(mag == -(n as int));
        push_dec_u64(out, mag);
        proof {
            assert(out@ =~= base + dec_int(n as int));
        }
    } else {
        push_dec_u64(out, n as u64);
    }
}

// ---------------------------------------------------------------------
// String escaping
// ---------------------------------------------------------------------
/// The character for one hexadecimal digit, lower case.
pub open spec fn spec_hex(d: int) -> char {
    if d < 10 {
        spec_digit(d)
    } else if d == 10 {
        'a'
    } else if d == 11 {
        'b'
    } else if d == 12 {
        'c'
    } else if d == 13 {
        'd'
    } else if d == 14 {
        'e'
    } else {
        'f'
    }
}

/// A hexadecimal digit character, either case.
pub open spec fn is_hex(c: char) -> bool {
    is_digit(c) || ('a' <= c && c <= 'f') || ('A' <= c && c <= 'F')
}

/// The value of a hexadecimal digit character.
pub open spec fn hex_val(c: char) -> int {
    if is_digit(c) {
        digit_val(c)
    } else if 'a' <= c && c <= 'f' {
        c as u32 - 'a' as u32 + 10
    } else {
        c as u32 - 'A' as u32 + 10
    }
}

/// Hexadecimal digit characters carry their digit's value.
pub proof fn lemma_spec_hex_val(d: int)
    requires
        0 <= d <= 15,
    ensures
        is_hex(spec_hex(d)),
        hex_val(spec_hex(d)) == d,
{
}

/// A character written as itself inside a string: anything but the
/// quote, the backslash, and the control characters.
pub open spec fn is_plain_char(c: char) -> bool {
    c != '"' && c != '\\' && c as u32 >= 32
}

/// The characters written for one message character: plain characters
/// stand as themselves, the quote and the backslash take a backslash, and
/// control characters are written as a four-digit hexadecimal escape.
pub open spec fn esc_char(c: char) -> Seq<char> {
    if c == '"' {
        seq!['\\', '"']
    } else if c == '\\' {
        seq!['\\', '\\']
    } else if (c as u32) < 32 {
        seq!['\\', 'u', '0', '0', spec_hex((c as u32) as int / 16), spec_hex((c as u32) as int % 16)]
    } else {
        seq![c]
    }
}

/// The escaped form of a whole message.
pub open spec fn esc(s: Seq<char>) -> Seq<char>
    decreases s.len(),
{
    if s.len() == 0 {
        Seq::empty()
    } else {
        esc_char(s[0]) + esc(s.drop_first())
    }
}

/// Escaping one more character appends that character's escape.
pub proof fn lemma_esc_take_step(s: Seq<char>, i: int)
    requires
        0 <= i < s.len(),
    ensures
        esc(s.take(i + 1)) == esc(s.take(i)) + esc_char(s[i]),
    decreases i,
{
    if i == 0 {
        assert(s.take(1) =~= seq![s[0]]);
        assert(s.take(1).drop_first() =~= Seq::<char>::empty());
        assert(s.take(0) =~= Seq::<char>::empty());
        assert(esc(s.take(1)) =~= esc(s.take(0)) + esc_char(s[0]));
    } else {
        let d = s.drop_first();
        lemma_esc_take_step(d, i - 1);
        assert(s.take(i + 1).drop_first() =~= d.take(i));
        assert(s.take(i).drop_first() =~= d.take(i - 1));
        assert(s.take(i + 1)[0] == s[0]);
        assert(s.take(i)[0] == s[0]);
        assert(d[i - 1] == s[i]);
        assert(esc(s.take(i + 1)) =~= esc_char(s[0]) + esc(d.take(i)));
        assert(esc(s.take(i)) =~= esc_char(s[0]) + esc(d.take(i - 1)));
        assert(esc_char(s[0]) + (esc(d.take(i - 1)) + esc_char(s[i])) =~= (esc_char(s[0]) + esc(
            d.take(i - 1),
        )) + esc_char(s[i]));
    }
}

/// One exec hexadecimal digit character.
fn hex_char(d: u32) -> (c: char)
    requires
        d < 16,
    ensures
        c == spec_hex(d as int),
{
    match d {
        0 => '0',
        1 => '1',
        2 => '2',
        3 => '3',
        4 => '4',
        5 => '5',
        6 => '6',
        7 => '7',
        8 => '8',
        9 => '9',
        10 => 'a',
        11 => 'b',
        12 => 'c',
        13 => 'd',
        14 => 'e',
        _ => 'f',
    }
}

/// Appends the escaped form of the message characters.
pub(crate) fn push_esc(out: &mut Vec<char>, msg: &Vec<char>)
    ensures
        final(out)@ == old(out)@ + esc(msg@),
{
    let ghost base = out@;
    let mut i: usize = 0;
    while i < msg.len()
        invariant
            0 <= i <= msg@.len(),
            out@ == base + esc(msg@.take(i as int)),
        decreases msg@.len() - i,
    {
        let c = msg[i];
        let ghost before = out@;
        if c == '"' {
            out.push('\\');
            out.push('"');
        } else if c == '\\' {
            out.push('\\');
            out.push('\\');
        } else if (c as u32) < 32 {
            out.push('\\');
            out.push('u');
            out.push('0');
            out.push('0');
            out.push(hex_char((c as u32) / 16));
            out.push(hex_char((c as u32) % 16));
        } else {
            out.push(c);
        }
        proof {
            assert(out@ =~= before + esc_char(msg@[i as int]));
            lemma_esc_take_step(msg@, i as int);
            assert(out@ =~= base + esc(msg@.take(i + 1)));
        }
        i += 1;
    }
    proof {
        assert(msg@.take(msg@.len() as int) =~= msg@);
    }
}

// ---------------------------------------------------------------------
// Strings and characters
// ---------------------------------------------------------------------
/// Relies on `String::push`: appends the given character to the end of
/// the string.
#[verifier::external_body]
fn push_char(s: &mut String, c: char)
    ensures
        final(s)@ == old(s)@.push(c),
{
    s.push(c)
}

/// Builds a `String` out of a sequence of characters.
pub(crate) fn chars_to_string(v: &Vec<char>) -> (r: String)
    ensures
        r@ == v@,
{
    let mut r = String::new();
    let mut i: usize = 0;
    while i < v.len()
        invariant
            0 <= i <= v@.len(),
            r@ == v@.take(i as int),
        decreases v@.len() - i,
    {
        push_char(&mut r, v[i]);
        proof {
            assert(v@.take(i as int).push(v@[i as int]) =~= v@.take(i + 1));
        }
        i += 1;
    }
    proof {
        assert(v@.take(v@.len() as int) =~= v@);
    }
    r
}

/// Collects the characters of a string slice.
pub(crate) fn str_to_chars(s: &str) -> (r: Vec<char>)
    ensures
        r@ == s@,
{
    let n = s.unicode_len();
    let mut r: Vec<char> = Vec::new();
    let mut i: usize = 0;
    while i < n
        invariant
            0 <= i <= n,
            n == s@.len(),
            r@ == s@.take(i as int),
        decreases n - i,
    {
        r.push(s.get_char(i));
        proof {
            assert(s@.take(i as int).push(s@[i as int]) =~= s@.take(i + 1));
        }
        i += 1;
    }
    proof {
        assert(s@.take(s@.len() as int) =~= s@);
    }
    r
}

/// Appends the characters of a string slice.
pub(crate) fn push_str_chars(out: &mut Vec<char>, s: &str)
    ensures
        final(out)@ == old(out)@ + s@,
{
    let ghost base = out@;
    let n = s.unicode_len();
    let mut i: usize = 0;
    while i < n
        invariant
            0 <= i <= n,
            n == s@.len(),
            out@ == base + s@.take(i as int),
        decreases n - i,
    {
        out.push(s.get_char(i));
        proof {
            assert(base + s@.take(i as int).push(s@[i as int]) =~= base + s@.take(i + 1));
        }
        i += 1;
    }
    proof {
        assert(base + s@.take(s@.len() as int) =~= base + s@);
    }
}

// ---------------------------------------------------------------------
// Serialization
// ---------------------------------------------------------------------
/// The exact text written for an item: the `datetime` field always, the
/// `datetime_secondary` field only when present, the `message` field only
/// when non-empty.
pub open spec fn ser_spec(m: ItemModel) -> Seq<char> {
    "{\"datetime\":"@ + dec_int(m.datetime) + (match m.datetime_secondary {
        None => Seq::<char>::empty(),
        Some(s) => ",\"datetime_secondary\":"@ + dec_int(s),
    }) + (if m.message.len() == 0 {
        Seq::<char>::empty()
    } else {
        ",\"message\":\""@ + esc(m.message) + "\""@
    }) + "}"@
}

impl QueueItem {
    /// Serializes the item to its JSON text.
    pub fn to_json_string(&self) -> (r: String)
        ensures
            r@ == ser_spec(self@),
    {
        let mut out: Vec<char> = Vec::new();
        push_str_chars(&mut out, "{\"datetime\":");
        push_dec_i64(&mut out, self.datetime);
        let ghost head = "{\"datetime\":"@ + dec_int(self@.datetime);
        proof {
            assert(out@ =~= head);
        }
        match self.datetime_secondary {
            None => {},
            Some(s) => {
                push_str_chars(&mut out, ",\"datetime_secondary\":");
                push_dec_i64(&mut out, s);
            },
        }
        let ghost mid = head + (match self@.datetime_secondary {
            None => Seq::<char>::empty(),
            Some(s) => ",\"datetime_secondary\":"@ + dec_int(s),
        });
        proof {
            assert(out@ =~= mid);
        }
        if !self.message.as_str().is_empty() {
            push_str_chars(&mut out, ",\"message\":\"");
            let msg = str_to_chars(self.message.as_str());
            push_esc(&mut out, &msg);
            push_str_chars(&mut out, "\"");
        }
        let ghost tail = mid + (if self@.message.len() == 0 {
            Seq::<char>::empty()
        } else {
            ",\"message\":\""@ + esc(self@.message) + "\""@
        });
        proof {
            assert(out@ =~= tail);
        }
        push_str_chars(&mut out, "}");
        proof {
            assert(out@ =~= ser_spec(self@));
        }
        chars_to_string(&out)
    }
}

// ---------------------------------------------------------------------
// The grammar of received item text
// ---------------------------------------------------------------------
/// JSON whitespace.
pub open spec fn is_ws(c: char) -> bool {
    c == ' ' || c == '\t' || c == '\n' || c == '\r'
}

/// The text with its leading whitespace removed.
pub open spec fn skip_ws(s: Seq<char>) -> Seq<char>
    decreases s.len(),
{
    if s.len() > 0 && is_ws(s[0]) {
        skip_ws(s.drop_first())
    } else {
        s
    }
}

/// Reads a run of digits from the front, folding them onto an
/// accumulator, and returns the value with the text after the run.
pub open spec fn parse_digits_rec(s: Seq<char>, acc: int) -> (int, Seq<char>)
    decreases s.len(),
{
    if s.len() > 0 && is_digit(s[0]) {
        parse_digits_rec(s.drop_first(), acc * 10 + digit_val(s[0]))
    } else {
        (acc, s)
    }
}

/// Reads an unsigned numeral: at least one digit, no leading zero, value
/// within the signed 64-bit range once the sign is applied.
pub open spec fn parse_uint_after_sign(s: Seq<char>, neg: bool) -> Option<(int, Seq<char>)> {
    if s.len() > 0 && is_digit(s[0]) {
        if s[0] == '0' && s.len() > 1 && is_digit(s[1]) {
            None
        } else {
            let (v, rest) = parse_digits_rec(s, 0);
            let sv = if neg {
                -v
            } else {
                v
            };
            if in_i64(sv) {
                Some((sv, rest))
            } else {
                None
            }
        }
    } else {
        None
    }
}

/// Reads an integer numeral with an optional minus sign.
pub open spec fn parse_int(s: Seq<char>) -> Option<(int, Seq<char>)> {
    if s.len() > 0 && s[0] == '-' {
        parse_uint_after_sign(s.drop_first(), true)
    } else {
        parse_uint_after_sign(s, false)
    }
}

/// The character denoted by a single-character escape.
pub open spec fn simple_escape(e: char) -> Option<char> {
    if e == '"' {
        Some('"')
    } else if e == '\\' {
        Some('\\')
    } else if e == '/' {
        Some('/')
    } else if e == 'b' {
        Some('\u{8}')
    } else if e == 'f' {
        Some('\u{c}')
    } else if e == 'n' {
        Some('\n')
    } else if e == 'r' {
        Some('\r')
    } else if e == 't' {
        Some('\t')
    } else {
        None
    }
}

/// The value of four hexadecimal digit characters.
pub open spec fn hex4_val(s: Seq<char>) -> int {
    hex_val(s[0]) * 4096 + hex_val(s[1]) * 256 + hex_val(s[2]) * 16 + hex_val(s[3])
}

/// A Unicode scalar value: what a character can hold.
pub open spec fn is_scalar_val(v: int) -> bool {
    (0 <= v < 0xD800) || (0xE000 <= v <= 0x10FFFF)
}

/// Reads a string body up to and over its closing quote, undoing escape
/// sequences, and returns the denoted characters with the text after the
/// quote. Unescaped control characters, bad escapes, and escapes naming
/// surrogate values are rejected.
pub open spec fn parse_string_body(s: Seq<char>) -> Option<(Seq<char>, Seq<char>)>
    decreases s.len(),
{
    if s.len() == 0 {
        None
    } else if s[0] == '"' {
        Some((Seq::<char>::empty(), s.drop_first()))
    } else if s[0] == '\\' {
        if s.len() < 2 {
            None
        } else if s[1] == 'u' {
            if s.len() >= 6 && is_hex(s[2]) && is_hex(s[3]) && is_hex(s[4]) && is_hex(s[5])
                && is_scalar_val(hex4_val(s.subrange(2, 6))) {
                match parse_string_body(s.skip(6)) {
                    None => None,
                    Some((m, rest)) => Some(
                        (seq![((hex4_val(s.subrange(2, 6)) as u32) as char)] + m, rest),
                    ),
                }
            } else {
                None
            }
        } else {
            match simple_escape(s[1]) {
                None => None,
                Some(c) => match parse_string_body(s.skip(2)) {
                    None => None,
                    Some((m, rest)) => Some((seq![c] + m, rest)),
                },
            }
        }
    } else if (s[0] as u32) < 32 {
        None
    } else {
        match parse_string_body(s.drop_first()) {
            None => None,
            Some((m, rest)) => Some((seq![s[0]] + m, rest)),
        }
    }
}

/// The fields collected so far while reading an item: each is present at
/// most once.
pub struct PartialModel {
    pub dt: Option<int>,
    pub sec: Option<Option<int>>,
    pub msg: Option<Seq<char>>,
}

/// Reads one `"key": value` member and folds it into the collected
/// fields. An unknown key or a repeated key is rejected.
pub open spec fn parse_member(s: Seq<char>, pm: PartialModel) -> Option<
    (PartialModel, Seq<char>),
> {
    if s.len() > 0 && s[0] == '"' {
        match parse_string_body(s.drop_first()) {
            None => None,
            Some((key, r)) => {
                let r1 = skip_ws(r);
                if r1.len() > 0 && r1[0] == ':' {
                    let r2 = skip_ws(r1.drop_first());
                    if key == "datetime"@ {
                        if pm.dt is None {
                            match parse_int(r2) {
                                None => None,
                                Some((v, r3)) => Some(
                                    (PartialModel { dt: Some(v), sec: pm.sec, msg: pm.msg }, r3),
                                ),
                            }
                        } else {
                            None
                        }
                    } else if key == "datetime_secondary"@ {
                        if pm.sec is None {
                            if r2.len() >= 4 && r2[0] == 'n' && r2[1] == 'u' && r2[2] == 'l'
                                && r2[3] == 'l' {
                                Some(
                                    (
                                        PartialModel { dt: pm.dt, sec: Some(None), msg: pm.msg },
                                        r2.skip(4),
                                    ),
                                )
                            } else {
                                match parse_int(r2) {
                                    None => None,
                                    Some((v, r3)) => Some(
                                        (
                                            PartialModel {
                                                dt: pm.dt,
                                                sec: Some(Some(v)),
                                                msg: pm.msg,
                                            },
                                            r3,
                                        ),
                                    ),
                                }
                            }
                        } else {
                            None
                        }
                    } else if key == "message"@ {
                        if pm.msg is None {
                            if r2.len() > 0 && r2[0] == '"' {
                                match parse_string_body(r2.drop_first()) {
                                    None => None,
                                    Some((t, r3)) => Some(
                                        (
                                            PartialModel { dt: pm.dt, sec: pm.sec, msg: Some(t) },
                                            r3,
                                        ),
                                    ),
                                }
                            } else {
                                None
                            }
                        } else {
                            None
                        }
                    } else {
                        None
                    }
                } else {
                    None
                }
            },
        }
    } else {
        None
    }
}

/// Reads members separated by commas until the closing brace, and
/// returns the collected fields with the text after the brace. Three
/// distinct keys exist and none may repeat, so the fuel of four never
/// runs out on a text it would otherwise accept.
pub open spec fn parse_fields(s: Seq<char>, pm: PartialModel, fuel: nat) -> Option<
    (PartialModel, Seq<char>),
>
    decreases fuel,
{
    if fuel == 0 {
        None
    } else {
        match parse_member(skip_ws(s), pm) {
            None => None,
            Some((pm2, r)) => {
                let r1 = skip_ws(r);
                if r1.len() > 0 && r1[0] == '}' {
                    Some((pm2, r1.drop_first()))
                } else if r1.len() > 0 && r1[0] == ',' {
                    parse_fields(r1.drop_first(), pm2, (fuel - 1) as nat)
                } else {
                    None
                }
            },
        }
    }
}

/// The exact meaning of a received item text: the item it denotes, or
/// nothing when the text is rejected. The `datetime` field is required;
/// a missing `datetime_secondary` and a `null` one both denote an absent
/// secondary timestamp; a missing `message` denotes the empty message.
pub open spec fn parse_item_spec(s: Seq<char>) -> Option<ItemModel> {
    let s1 = skip_ws(s);
    if s1.len() > 0 && s1[0] == '{' {
        let body = s1.drop_first();
        let s2 = skip_ws(body);
        if s2.len() > 0 && s2[0] == '}' {
            None
        } else {
            match parse_fields(body, PartialModel { dt: None, sec: None, msg: None }, 4) {
                None => None,
                Some((pm, rest)) => {
                    if skip_ws(rest).len() == 0 {
                        match pm.dt {
                            None => None,
                            Some(dt) => Some(
                                ItemModel {
                                    datetime: dt,
                                    datetime_secondary: match pm.sec {
                                        None => None,
                                        Some(o) => o,
                                    },
                                    message: match pm.msg {
                                        None => Seq::<char>::empty(),
                                        Some(t) => t,
                                    },
                                },
                            ),
                        }
                    } else {
                        None
                    }
                },
            }
        }
    } else {
        None
    }
}

// ---------------------------------------------------------------------
// Reading item text
// ---------------------------------------------------------------------
/// Relies on `char::from_u32`: converts exactly the Unicode scalar
/// values, and the resulting character casts back to the given value.
#[verifier::external_body]
fn char_from_u32(u: u32) -> (r: Option<char>)
    ensures
        r is Some <==> is_scalar_val(u as int),
        r matches Some(c) ==> c as u32 == u,
{
    char::from_u32(u)
}

/// Moves past leading whitespace; the text from the returned position is
/// the text from `pos` with its leading whitespace removed.
fn e_skip_ws(v: &Vec<char>, pos: usize) -> (p2: usize)
    requires
        pos <= v@.len(),
    ensures
        pos <= p2 <= v@.len(),
        skip_ws(v@.skip(pos as int)) == v@.skip(p2 as int),
{
    let mut p = pos;
    while p < v.len()
        invariant
            pos <= p <= v@.len(),
            skip_ws(v@.skip(pos as int)) == skip_ws(v@.skip(p as int)),
        ensures
            pos <= p <= v@.len(),
            skip_ws(v@.skip(pos as int)) == v@.skip(p as int),
        decreases v@.len() - p,
    {
        let c = v[p];
        if !(c == ' ' || c == '\t' || c == '\n' || c == '\r') {
            break ;
        }
        proof {
            assert(v@.skip(p as int).drop_first() =~= v@.skip(p as int + 1));
        }
        p += 1;
    }
    p
}

/// Reads an integer numeral at `pos`, exactly as the grammar has it.
fn e_parse_int(v: &Vec<char>, pos: usize) -> (r: Option<(i64, usize)>)
    requires
        pos <= v@.len(),
    ensures
        match r {
            Some(t) => t.1 <= v@.len() && parse_int(v@.skip(pos as int)) == Some(
                (t.0 as int, v@.skip(t.1 as int)),
            ),
            None => parse_int(v@.skip(pos as int)) is None,
        },
{
    let mut p = pos;
    let mut neg = false;
    if p < v.len() && v[p] == '-' {
        neg = true;
        proof {
            assert(v@.skip(p as int).drop_first() =~= v@.skip(p as int + 1));
        }
        p += 1;
    }
    let ghost sd = v@.skip(p as int);
    if !(p < v.len() && v[p] >= '0' && v[p] <= '9') {
        return None;
    }
    if v[p] == '0' && p + 1 < v.len() && v[p + 1] >= '0' && v[p + 1] <= '9' {
        proof {
            assert(sd[1] == v@[p + 1]);
        }
        return None;
    }
    proof {
        if sd[0] == '0' && sd.len() > 1 && is_digit(sd[1]) {
            assert(sd[1] == v@[p + 1]);
            assert(false);
        }
    }
    let mut acc: u64 = 0;
    let ghost mut accval: int = 0int;
    let mut big = false;
    while p < v.len()
        invariant
            pos <= p <= v@.len(),
            parse_digits_rec(sd, 0) == parse_digits_rec(v@.skip(p as int), accval),
            0 <= accval,
            big ==> accval > 9223372036854775808int,
            !big ==> accval == acc as int,
        ensures
            pos <= p <= v@.len(),
            parse_digits_rec(sd, 0) == (accval, v@.skip(p as int)),
            0 <= accval,
            big ==> accval > 9223372036854775808int,
            !big ==> accval == acc as int,
        decreases v@.len() - p,
    {
        let c = v[p];
        if !(c >= '0' && c <= '9') {
            break ;
        }
        let d: u64 = (c as u32 - '0' as u32) as u64;
        proof {
            assert(v@.skip(p as int)[0] == c);
            assert(v@.skip(p as int).drop_first() =~= v@.skip(p as int + 1));
            assert(accval * 10 >= accval);
        }
        if big {
            proof {
                assert(accval * 10 + digit_val(c) > 9223372036854775808int);
            }
        } else if acc > 1844674407370955160u64 {
            big = true;
            proof {
                assert(accval * 10 + digit_val(c) >= 18446744073709551610int);
            }
        } else {
            acc = acc * 10 + d;
        }
        proof {
            accval = accval * 10 + digit_val(c);
        }
        p += 1;
    }
    if big {
        return None;
    }
    if neg {
        if acc > 9223372036854775808u64 {
            return None;
        }
        let val: i64 = if acc == 9223372036854775808u64 {
            i64::MIN
        } else {
            -(acc as i64)
        };
        Some((val, p))
    } else {
        if acc > 9223372036854775807u64 {
            return None;
        }
        Some((acc as i64, p))
    }
}

/// The value of one hexadecimal digit character.
fn hexv(c: char) -> (d: u32)
    requires
        is_hex(c),
    ensures
        d as int == hex_val(c),
        d < 16,
{
    let u = c as u32;
    if c >= '0' && c <= '9' {
        u - '0' as u32
    } else if c >= 'a' && c <= 'f' {
        u - 'a' as u32 + 10
    } else {
        u - 'A' as u32 + 10
    }
}

/// Reads a string body at `pos`, exactly as the grammar has it.
#[verifier::rlimit(60)]
fn e_parse_string_body(v: &Vec<char>, pos: usize) -> (r: Option<(Vec<char>, usize)>)
    requires
        pos <= v@.len(),
    ensures
        match r {
            Some(t) => t.1 <= v@.len() && parse_string_body(v@.skip(pos as int)) == Some(
                (t.0@, v@.skip(t.1 as int)),
            ),
            None => parse_string_body(v@.skip(pos as int)) is None,
        },
{
    let mut p = pos;
    let mut acc: Vec<char> = Vec::new();
    while p < v.len()
        invariant
            pos <= p <= v@.len(),
            match parse_string_body(v@.skip(p as int)) {
                None => parse_string_body(v@.skip(pos as int)) is None,
                Some((m, rest)) => parse_string_body(v@.skip(pos as int)) == Some(
                    (acc@ + m, rest),
                ),
            },
        decreases v@.len() - p,
    {
        let ghost s = v@.skip(p as int);
        let c = v[p];
        proof {
            assert(s[0] == c);
            assert(s.drop_first() =~= v@.skip(p as int + 1));
        }
        if c == '"' {
            proof {
                assert(acc@ + Seq::<char>::empty() =~= acc@);
            }
            return Some((acc, p + 1));
        } else if c == '\\' {
            if p + 1 >= v.len() {
                return None;
            }
            let e = v[p + 1];
            proof {
                assert(s[1] == e);
            }
            if e == 'u' {
                if v.len() - p < 6 {
                    return None;
                }
                let h0 = v[p + 2];
                let h1 = v[p + 3];
                let h2 = v[p + 4];
                let h3 = v[p + 5];
                proof {
                    assert(s[2] == h0 && s[3] == h1 && s[4] == h2 && s[5] == h3);
                }
                let hex_ok = (h0 >= '0' && h0 <= '9' || h0 >= 'a' && h0 <= 'f' || h0 >= 'A' && h0
                    <= 'F') && (h1 >= '0' && h1 <= '9' || h1 >= 'a' && h1 <= 'f' || h1 >= 'A'
                    && h1 <= 'F') && (h2 >= '0' && h2 <= '9' || h2 >= 'a' && h2 <= 'f' || h2 >= 'A'
                    && h2 <= 'F') && (h3 >= '0' && h3 <= '9' || h3 >= 'a' && h3 <= 'f' || h3 >= 'A'
                    && h3 <= 'F');
                if !hex_ok {
                    return None;
                }
                let u: u32 = hexv(h0) * 4096 + hexv(h1) * 256 + hexv(h2) * 16 + hexv(h3);
                proof {
                    assert(s.subrange(2, 6)[0] == s[2]);
                    assert(s.subrange(2, 6)[1] == s[3]);
                    assert(s.subrange(2, 6)[2] == s[4]);
                    assert(s.subrange(2, 6)[3] == s[5]);
                    assert(hex4_val(s.subrange(2, 6)) == u as int);
                }
                match char_from_u32(u) {
                    None => {
                        return None;
                    },
                    Some(dc) => {
                        let ghost acc0 = acc@;
                        acc.push(dc);
                        proof {
                            vstd::utf8::char_u32_cast(dc, u);
                            assert(dc == ((u as u32) as char));
                            assert(s.skip(6) =~= v@.skip(p as int + 6));
                            assert forall|m: Seq<char>| true implies acc0 + (seq![dc] + m) =~= acc@
                                + m by {
                                assert(acc@ =~= acc0.push(dc));
                            }
                        }
                        p += 6;
                    },
                }
            } else {
                let mapped: Option<char> = match e {
                    '"' => Some('"'),
                    '\\' => Some('\\'),
                    '/' => Some('/'),
                    'b' => Some('\u{8}'),
                    'f' => Some('\u{c}'),
                    'n' => Some('\n'),
                    'r' => Some('\r'),
                    't' => Some('\t'),
                    _ => None,
                };
                proof {
                    assert(mapped == simple_escape(e));
                }
                match mapped {
                    None => {
                        return None;
                    },
                    Some(mc) => {
                        let ghost acc0 = acc@;
                        acc.push(mc);
                        proof {
                            assert(s.skip(2) =~= v@.skip(p as int + 2));
                            assert forall|m: Seq<char>| true implies acc0 + (seq![mc] + m) =~= acc@
                                + m by {
                                assert(acc@ =~= acc0.push(mc));
                            }
                        }
                        p += 2;
                    },
                }
            }
        } else if (c as u32) < 32 {
            return None;
        } else {
            let ghost acc0 = acc@;
            acc.push(c);
            proof {
                assert forall|m: Seq<char>| true implies acc0 + (seq![c] + m) =~= acc@ + m by {
                    assert(acc@ =~= acc0.push(c));
                }
            }
            p += 1;
        }
    }
    None
}

/// The fields collected so far while reading an item, as gathered values.
struct EPartial {
    dt: Option<i64>,
    sec: Option<Option<i64>>,
    msg: Option<Vec<char>>,
}

impl View for EPartial {
    type V = PartialModel;

    closed spec fn view(&self) -> PartialModel {
        PartialModel {
            dt: match self.dt {
                None => None,
                Some(d) => Some(d as int),
            },
            sec: match self.sec {
                None => None,
                Some(None) => Some(None),
                Some(Some(d)) => Some(Some(d as int)),
            },
            msg: match self.msg {
                None => None,
                Some(ref m) => Some(m@),
            },
        }
    }
}

/// Whether the gathered characters spell out the given literal.
fn chars_eq_lit(v: &Vec<char>, lit: &str) -> (r: bool)
    ensures
        r == (v@ == lit@),
{
    let n = lit.unicode_len();
    if v.len() != n {
        proof {
            if v@ == lit@ {
                assert(v@.len() == lit@.len());
            }
        }
        return false;
    }
    let mut i: usize = 0;
    while i < n
        invariant
            0 <= i <= n,
            n == lit@.len(),
            v@.len() == n,
            forall|j: int| 0 <= j < i ==> v@[j] == lit@[j],
        decreases n - i,
    {
        if v[i] != lit.get_char(i) {
            return false;
        }
        i += 1;
    }
    proof {
        assert(v@ =~= lit@);
    }
    true
}

/// Reads one member at `pos` and folds it into the gathered fields,
/// exactly as the grammar has it.
fn e_parse_member(v: &Vec<char>, pos: usize, pm: EPartial) -> (r: Option<(EPartial, usize)>)
    requires
        pos <= v@.len(),
    ensures
        match r {
            Some(t) => t.1 <= v@.len() && parse_member(v@.skip(pos as int), pm@) == Some(
                (t.0@, v@.skip(t.1 as int)),
            ),
            None => parse_member(v@.skip(pos as int), pm@) is None,
        },
{
    let ghost s = v@.skip(pos as int);
    if !(pos < v.len() && v[pos] == '"') {
        return None;
    }
    proof {
        assert(s[0] == v@[pos as int]);
        assert(s.drop_first() =~= v@.skip(pos as int + 1));
    }
    let key_parse = e_parse_string_body(v, pos + 1);
    match key_parse {
        None => None,
        Some((key, pr)) => {
            let p1 = e_skip_ws(v, pr);
            if !(p1 < v.len() && v[p1] == ':') {
                return None;
            }
            proof {
                assert(v@.skip(p1 as int)[0] == v@[p1 as int]);
                assert(v@.skip(p1 as int).drop_first() =~= v@.skip(p1 as int + 1));
            }
            let p2 = e_skip_ws(v, p1 + 1);
            let ghost r2 = v@.skip(p2 as int);
            if chars_eq_lit(&key, "datetime") {
                if pm.dt.is_none() {
                    match e_parse_int(v, p2) {
                        None => None,
                        Some((val, p3)) => Some(
                            (EPartial { dt: Some(val), sec: pm.sec, msg: pm.msg }, p3),
                        ),
                    }
                } else {
                    None
                }
            } else if chars_eq_lit(&key, "datetime_secondary") {
                if pm.sec.is_none() {
                    let is_null = v.len() - p2 >= 4 && v[p2] == 'n' && v[p2 + 1] == 'u' && v[p2
                        + 2] == 'l' && v[p2 + 3] == 'l';
                    proof {
                        if p2 + 4 <= v@.len() {
                            assert(r2[0] == v@[p2 as int]);
                            assert(r2[1] == v@[p2 as int + 1]);
                            assert(r2[2] == v@[p2 as int + 2]);
                            assert(r2[3] == v@[p2 as int + 3]);
                        }
                        assert(is_null == (r2.len() >= 4 && r2[0] == 'n' && r2[1] == 'u' && r2[2]
                            == 'l' && r2[3] == 'l'));
                    }
                    if is_null {
                        proof {
                            assert(r2.skip(4) =~= v@.skip(p2 as int + 4));
                        }
                        Some((EPartial { dt: pm.dt, sec: Some(None), msg: pm.msg }, p2 + 4))
                    } else {
                        match e_parse_int(v, p2) {
                            None => None,
                            Some((val, p3)) => Some(
                                (EPartial { dt: pm.dt, sec: Some(Some(val)), msg: pm.msg }, p3),
                            ),
                        }
                    }
                } else {
                    None
                }
            } else if chars_eq_lit(&key, "message") {
                if pm.msg.is_none() {
                    if !(p2 < v.len() && v[p2] == '"') {
                        return None;
                    }
                    proof {
                        assert(r2[0] == v@[p2 as int]);
                        assert(r2.drop_first() =~= v@.skip(p2 as int + 1));
                    }
                    match e_parse_string_body(v, p2 + 1) {
                        None => None,
                        Some((t, p3)) => Some(
                            (EPartial { dt: pm.dt, sec: pm.sec, msg: Some(t) }, p3),
                        ),
                    }
                } else {
                    None
                }
            } else {
                None
            }
        },
    }
}

/// Reads members up to the closing brace, exactly as the grammar has it.
fn e_parse_fields(v: &Vec<char>, pos: usize, pm: EPartial, fuel: u32) -> (r: Option<
    (EPartial, usize),
>)
    requires
        pos <= v@.len(),
    ensures
        match r {
            Some(t) => t.1 <= v@.len() && parse_fields(v@.skip(pos as int), pm@, fuel as nat)
                == Some((t.0@, v@.skip(t.1 as int))),
            None => parse_fields(v@.skip(pos as int), pm@, fuel as nat) is None,
        },
    decreases fuel,
{
    if fuel == 0 {
        return None;
    }
    let p1 = e_skip_ws(v, pos);
    match e_parse_member(v, p1, pm) {
        None => None,
        Some((pm2, pr)) => {
            let r1 = e_skip_ws(v, pr);
            if r1 < v.len() {
                proof {
                    assert(v@.skip(r1 as int)[0] == v@[r1 as int]);
                    assert(v@.skip(r1 as int).drop_first() =~= v@.skip(r1 as int + 1));
                }
                let c = v[r1];
                if c == '}' {
                    return Some((pm2, r1 + 1));
                }
                if c == ',' {
                    return e_parse_fields(v, r1 + 1, pm2, fuel - 1);
                }
                return None;
            }
            None
        },
    }
}

impl QueueItem {
    /// Reads an item from its JSON text, or returns `None` when the text
    /// is rejected: exactly when [`parse_item_spec`] rejects it.
    pub fn from_json_string(s: &str) -> (r: Option<QueueItem>)
        ensures
            match r {
                Some(it) => parse_item_spec(s@) == Some(it@),
                None => parse_item_spec(s@) is None,
            },
    {
        let v = str_to_chars(s);
        proof {
            assert(v@.skip(0) =~= s@);
        }
        let p1 = e_skip_ws(&v, 0);
        if !(p1 < v.len() && v[p1] == '{') {
            proof {
                if p1 < v@.len() {
                    assert(v@.skip(p1 as int)[0] == v@[p1 as int]);
                }
            }
            return None;
        }
        proof {
            assert(v@.skip(p1 as int)[0] == v@[p1 as int]);
            assert(v@.skip(p1 as int).drop_first() =~= v@.skip(p1 as int + 1));
        }
        let body = p1 + 1;
        let p2 = e_skip_ws(&v, body);
        if p2 < v.len() && v[p2] == '}' {
            proof {
                assert(v@.skip(p2 as int)[0] == v@[p2 as int]);
            }
            return None;
        }
        proof {
            if v@.skip(p2 as int).len() > 0 {
                assert(v@.skip(p2 as int)[0] == v@[p2 as int]);
            }
        }
        match e_parse_fields(&v, body, EPartial { dt: None, sec: None, msg: None }, 4) {
            None => None,
            Some((pm, rest)) => {
                let p3 = e_skip_ws(&v, rest);
                if p3 < v.len() {
                    return None;
                }
                proof {
                    assert(v@.skip(p3 as int).len() == 0);
                }
                match pm.dt {
                    None => None,
                    Some(dt) => {
                        let it = QueueItem {
                            datetime: dt,
                            datetime_secondary: match pm.sec {
                                None => None,
                                Some(None) => None,
                                Some(Some(o)) => Some(o),
                            },
                            message: match pm.msg {
                                None => String::new(),
                                Some(mv) => chars_to_string(&mv),
                            },
                        };
                        proof {
                            assert(parse_item_spec(s@) == Some(it@));
                        }
                        Some(it)
                    },
                }
            },
        }
    }
}

// ---------------------------------------------------------------------
// The round trip
// ---------------------------------------------------------------------
/// A numeral has at least one digit.
proof fn lemma_dec_nat_len(n: nat)
    ensures
        dec_nat(n).len() >= 1,
    decreases n,
{
    if n >= 10 {
        lemma_dec_nat_len(n / 10);
    }
}

/// A numeral starts with a digit, and never with a leading zero unless
/// it is the numeral of zero itself.
proof fn lemma_dec_nat_first(n: nat)
    ensures
        is_digit(dec_nat(n)[0]),
        n >= 1 ==> dec_nat(n)[0] != '0',
        n == 0 ==> dec_nat(n)[0] == '0',
    decreases n,
{
    if n < 10 {
        lemma_spec_digit_val(n as int);
    } else {
        lemma_dec_nat_len(n / 10);
        lemma_dec_nat_first(n / 10);
        assert(dec_nat(n)[0] == dec_nat(n / 10)[0]);
    }
}

/// A numeral with a sign starts with the sign or a digit, never with
/// whitespace.
proof fn lemma_dec_int_head(v: int)
    ensures
        dec_int(v).len() >= 1,
        dec_int(v)[0] == '-' || is_digit(dec_int(v)[0]),
        !is_ws(dec_int(v)[0]),
        dec_int(v)[0] != 'n',
        dec_int(v)[0] != '"',
{
    if v < 0 {
        lemma_dec_nat_len((-v) as nat);
        assert(dec_int(v)[0] == '-');
    } else {
        lemma_dec_nat_len(v as nat);
        lemma_dec_nat_first(v as nat);
    }
}

/// Powers of ten.
pub open spec fn pow10(k: nat) -> nat
    decreases k,
{
    if k == 0 {
        1nat
    } else {
        10 * pow10((k - 1) as nat)
    }
}

/// Reading digits off the front of a numeral folds the numeral's value
/// onto the accumulator and leaves the rest of the text.
proof fn lemma_digits_continuation(n: nat, rest: Seq<char>, acc: int)
    ensures
        parse_digits_rec(dec_nat(n) + rest, acc) == parse_digits_rec(
            rest,
            acc * pow10(dec_nat(n).len() as nat) + n,
        ),
    decreases n,
{
    let s = dec_nat(n) + rest;
    if n < 10 {
        lemma_spec_digit_val(n as int);
        assert(s[0] == spec_digit(n as int));
        assert(s.drop_first() =~= rest);
        assert(dec_nat(n).len() == 1);
        assert(pow10(0) == 1);
        assert(pow10(1) == 10);
        assert(parse_digits_rec(s, acc) == parse_digits_rec(rest, acc * 10 + n));
    } else {
        let hi = n / 10;
        let lo = n % 10;
        lemma_spec_digit_val(lo as int);
        let mid = seq![spec_digit(lo as int)] + rest;
        assert(s =~= dec_nat(hi) + mid);
        lemma_digits_continuation(hi, mid, acc);
        let k = dec_nat(hi).len() as nat;
        assert(mid[0] == spec_digit(lo as int));
        assert(mid.drop_first() =~= rest);
        assert(parse_digits_rec(mid, acc * pow10(k) + hi) == parse_digits_rec(
            rest,
            (acc * pow10(k) + hi) * 10 + lo,
        ));
        assert(hi * 10 + lo == n) by {
            vstd::arithmetic::div_mod::lemma_fundamental_div_mod(n as int, 10);
        }
        assert(dec_nat(n).len() == k + 1);
        assert(pow10((k + 1) as nat) == 10 * pow10(k));
        assert((acc * pow10(k) + hi) * 10 + lo == acc * (10 * pow10(k)) + (hi * 10 + lo))
            by (nonlinear_arith);
    }
}

/// Reading an integer numeral off the front of text gives its value and
/// the rest, when the rest does not begin with another digit.
proof fn lemma_parse_int_of_dec(v: int, rest: Seq<char>)
    requires
        in_i64(v),
        rest.len() == 0 || !is_digit(rest[0]),
    ensures
        parse_int(dec_int(v) + rest) == Some((v, rest)),
{
    let s = dec_int(v) + rest;
    if v < 0 {
        let mag = (-v) as nat;
        lemma_dec_nat_len(mag);
        lemma_dec_nat_first(mag);
        assert(s[0] == '-');
        let s2 = dec_nat(mag) + rest;
        assert(s.drop_first() =~= s2);
        assert(s2[0] == dec_nat(mag)[0]);
        assert(is_digit(s2[0]));
        assert(!(s2[0] == '0' && s2.len() > 1 && is_digit(s2[1]))) by {
            assert(s2[0] != '0');
        }
        lemma_digits_continuation(mag, rest, 0);
        assert(parse_digits_rec(s2, 0) == parse_digits_rec(rest, mag as int));
        assert(parse_digits_rec(rest, mag as int) == (mag as int, rest));
        assert(parse_uint_after_sign(s2, true) == Some((v, rest)));
    } else {
        let mag = v as nat;
        lemma_dec_nat_len(mag);
        lemma_dec_nat_first(mag);
        assert(s[0] == dec_nat(mag)[0]);
        assert(is_digit(s[0]));
        assert(s[0] != '-');
        if v == 0 {
            assert(dec_nat(0nat) =~= seq![spec_digit(0)]);
            if s.len() > 1 {
                assert(s[1] == rest[0]);
            }
            assert(!(s[0] == '0' && s.len() > 1 && is_digit(s[1])));
        } else {
            assert(s[0] != '0');
        }
        lemma_digits_continuation(mag, rest, 0);
        assert(parse_digits_rec(s, 0) == (v, rest));
        assert(parse_uint_after_sign(s, false) == Some((v, rest)));
    }
}

/// Escaping a text of plain characters leaves it unchanged.
proof fn lemma_esc_plain(k: Seq<char>)
    requires
        forall|i: int| 0 <= i < k.len() ==> is_plain_char(#[trigger] k[i]),
    ensures
        esc(k) == k,
    decreases k.len(),
{
    if k.len() == 0 {
        assert(esc(k) =~= k);
    } else {
        assert(is_plain_char(k[0]));
        assert(esc_char(k[0]) =~= seq![k[0]]);
        lemma_esc_plain(k.drop_first());
        assert(esc(k) =~= seq![k[0]] + k.drop_first());
        assert(seq![k[0]] + k.drop_first() =~= k);
    }
}

/// Reading a string body off an escaped message followed by the closing
/// quote gives the message back and leaves the rest of the text.
proof fn lemma_parse_esc(msg: Seq<char>, rest: Seq<char>)
    ensures
        parse_string_body(esc(msg) + seq!['"'] + rest) == Some((msg, rest)),
    decreases msg.len(),
{
    let s = esc(msg) + seq!['"'] + rest;
    if msg.len() == 0 {
        assert(esc(msg) =~= Seq::<char>::empty());
        assert(s =~= seq!['"'] + rest);
        assert(s[0] == '"');
        assert(s.drop_first() =~= rest);
        assert(parse_string_body(s) == Some((Seq::<char>::empty(), rest)));
        assert(msg =~= Seq::<char>::empty());
    } else {
        let c = msg[0];
        let m2 = msg.drop_first();
        lemma_parse_esc(m2, rest);
        let tail = esc(m2) + seq!['"'] + rest;
        assert(s =~= esc_char(c) + tail);
        if c == '"' {
            assert(esc_char(c) =~= seq!['\\', '"']);
            assert(s[0] == '\\' && s[1] == '"');
            assert(s.len() >= 2);
            assert(simple_escape('"') == Some('"'));
            assert(s.skip(2) =~= tail);
            assert(parse_string_body(s) == Some((seq![c] + m2, rest)));
            assert(seq![c] + m2 =~= msg);
        } else if c == '\\' {
            assert(esc_char(c) =~= seq!['\\', '\\']);
            assert(s[0] == '\\' && s[1] == '\\');
            assert(simple_escape('\\') == Some('\\'));
            assert(s.skip(2) =~= tail);
            assert(parse_string_body(s) == Some((seq![c] + m2, rest)));
            assert(seq![c] + m2 =~= msg);
        } else if (c as u32) < 32 {
            let u = c as u32;
            let hi = u as int / 16;
            let lo = u as int % 16;
            lemma_spec_hex_val(hi);
            lemma_spec_hex_val(lo);
            assert(esc_char(c) =~= seq!['\\', 'u', '0', '0', spec_hex(hi), spec_hex(lo)]);
            assert(s[0] == '\\' && s[1] == 'u');
            assert(s.len() >= 6);
            assert(s[2] == '0' && s[3] == '0' && s[4] == spec_hex(hi) && s[5] == spec_hex(lo));
            assert(is_hex('0')) by {
                lemma_spec_hex_val(0);
            }
            let h4 = s.subrange(2, 6);
            assert(h4[0] == '0' && h4[1] == '0' && h4[2] == spec_hex(hi) && h4[3] == spec_hex(
                lo,
            ));
            assert(hex_val('0') == 0) by {
                lemma_spec_hex_val(0);
            }
            assert(hex4_val(h4) == hi * 16 + lo);
            assert(hi * 16 + lo == u as int) by {
                vstd::arithmetic::div_mod::lemma_fundamental_div_mod(u as int, 16);
            }
            assert(is_scalar_val(u as int));
            vstd::utf8::char_u32_cast(c, u);
            assert(((hex4_val(h4) as u32) as char) == c);
            assert(s.skip(6) =~= tail);
            assert(parse_string_body(s) == Some((seq![c] + m2, rest)));
            assert(seq![c] + m2 =~= msg);
        } else {
            assert(is_plain_char(c));
            assert(esc_char(c) =~= seq![c]);
            assert(s[0] == c);
            assert(s.drop_first() =~= tail);
            assert(parse_string_body(s) == Some((seq![c] + m2, rest)));
            assert(seq![c] + m2 =~= msg);
        }
    }
}

/// Reading one canonical `"datetime": <numeral>` member collects the
/// primary timestamp.
proof fn lemma_member_dt(v: int, tail: Seq<char>, pm: PartialModel)
    requires
        in_i64(v),
        pm.dt is None,
        tail.len() > 0,
        !is_digit(tail[0]),
    ensures
        parse_member(
            seq!['"'] + "datetime"@ + (seq!['"'] + (seq![':'] + (dec_int(v) + tail))),
            pm,
        ) == Some((PartialModel { dt: Some(v), sec: pm.sec, msg: pm.msg }, tail)),
{
    reveal_strlit("datetime");
    let key = "datetime"@;
    let after = seq![':'] + (dec_int(v) + tail);
    let body = seq!['"'] + key + (seq!['"'] + after);
    assert(body[0] == '"');
    assert(forall|i: int| 0 <= i < key.len() ==> is_plain_char(#[trigger] key[i]));
    lemma_esc_plain(key);
    lemma_parse_esc(key, after);
    assert(body.drop_first() =~= key + seq!['"'] + after);
    assert(parse_string_body(body.drop_first()) == Some((key, after)));
    assert(after[0] == ':');
    assert(!is_ws(':'));
    assert(skip_ws(after) == after);
    assert(after.drop_first() =~= dec_int(v) + tail);
    lemma_dec_int_head(v);
    assert((dec_int(v) + tail)[0] == dec_int(v)[0]);
    assert(skip_ws(dec_int(v) + tail) == dec_int(v) + tail);
    lemma_parse_int_of_dec(v, tail);
}

/// Reading one canonical `"datetime_secondary": <numeral>` member
/// collects the secondary timestamp.
proof fn lemma_member_sec(v: int, tail: Seq<char>, pm: PartialModel)
    requires
        in_i64(v),
        pm.sec is None,
        tail.len() > 0,
        !is_digit(tail[0]),
    ensures
        parse_member(
            seq!['"'] + "datetime_secondary"@ + (seq!['"'] + (seq![':'] + (dec_int(v) + tail))),
            pm,
        ) == Some((PartialModel { dt: pm.dt, sec: Some(Some(v)), msg: pm.msg }, tail)),
{
    reveal_strlit("datetime");
    reveal_strlit("datetime_secondary");
    let key = "datetime_secondary"@;
    let after = seq![':'] + (dec_int(v) + tail);
    let body = seq!['"'] + key + (seq!['"'] + after);
    assert(body[0] == '"');
    assert(forall|i: int| 0 <= i < key.len() ==> is_plain_char(#[trigger] key[i]));
    lemma_esc_plain(key);
    lemma_parse_esc(key, after);
    assert(body.drop_first() =~= key + seq!['"'] + after);
    assert(parse_string_body(body.drop_first()) == Some((key, after)));
    assert(key != "datetime"@) by {
        assert(key.len() == 18 && "datetime"@.len() == 8);
    }
    assert(after[0] == ':');
    assert(!is_ws(':'));
    assert(skip_ws(after) == after);
    assert(after.drop_first() =~= dec_int(v) + tail);
    lemma_dec_int_head(v);
    assert((dec_int(v) + tail)[0] == dec_int(v)[0]);
    assert(skip_ws(dec_int(v) + tail) == dec_int(v) + tail);
    assert(!((dec_int(v) + tail)[0] == 'n'));
    lemma_parse_int_of_dec(v, tail);
}

/// Reading one canonical `"message": "<escaped text>"` member collects
/// the message.
proof fn lemma_member_msg(msg: Seq<char>, tail: Seq<char>, pm: PartialModel)
    requires
        pm.msg is None,
    ensures
        parse_member(
            seq!['"'] + "message"@ + (seq!['"'] + (seq![':'] + (seq!['"'] + (esc(msg) + seq!['"']
                + tail)))),
            pm,
        ) == Some((PartialModel { dt: pm.dt, sec: pm.sec, msg: Some(msg) }, tail)),
{
    reveal_strlit("datetime");
    reveal_strlit("datetime_secondary");
    reveal_strlit("message");
    let key = "message"@;
    let q = seq!['"'] + (esc(msg) + seq!['"'] + tail);
    let after = seq![':'] + q;
    let body = seq!['"'] + key + (seq!['"'] + after);
    assert(body[0] == '"');
    assert(forall|i: int| 0 <= i < key.len() ==> is_plain_char(#[trigger] key[i]));
    lemma_esc_plain(key);
    lemma_parse_esc(key, after);
    assert(body.drop_first() =~= key + seq!['"'] + after);
    assert(parse_string_body(body.drop_first()) == Some((key, after)));
    assert(key != "datetime"@) by {
        assert(key.len() == 7 && "datetime"@.len() == 8);
    }
    assert(key != "datetime_secondary"@) by {
        assert("datetime_secondary"@.len() == 18);
    }
    assert(after[0] == ':');
    assert(!is_ws(':'));
    assert(skip_ws(after) == after);
    assert(after.drop_first() =~= q);
    assert(q[0] == '"');
    assert(skip_ws(q) == q);
    lemma_parse_esc(msg, tail);
    assert(q.drop_first() =~= esc(msg) + seq!['"'] + tail);
}

/// Round trip: serializing an item and reading the text back gives
/// exactly the item, for every primary timestamp, every secondary
/// timestamp (an absent one included), and every message.
#[verifier::rlimit(100)]
#[verifier::spinoff_prover]
pub proof fn lemma_round_trip(m: ItemModel)
    requires
        in_i64(m.datetime),
        m.datetime_secondary matches Some(sv) ==> in_i64(sv),
    ensures
        parse_item_spec(ser_spec(m)) == Some(m),
{
    reveal_strlit("{\"datetime\":");
    reveal_strlit(",\"datetime_secondary\":");
    reveal_strlit(",\"message\":\"");
    reveal_strlit("\"");
    reveal_strlit("}");
    reveal_strlit("datetime");
    reveal_strlit("datetime_secondary");
    reveal_strlit("message");
    let s = ser_spec(m);
    let key1 = "datetime"@;
    let key2 = "datetime_secondary"@;
    let key3 = "message"@;
    let dts = dec_int(m.datetime);
    let sec_part = match m.datetime_secondary {
        None => Seq::<char>::empty(),
        Some(sv) => ",\"datetime_secondary\":"@ + dec_int(sv),
    };
    let msg_part = if m.message.len() == 0 {
        Seq::<char>::empty()
    } else {
        ",\"message\":\""@ + esc(m.message) + "\""@
    };
    let tail = sec_part + msg_part + "}"@;
    let tail2 = msg_part + "}"@;
    assert(s =~= "{\"datetime\":"@ + dts + tail);
    lemma_dec_int_head(m.datetime);
    assert(tail.len() > 0 && (tail[0] == ',' || tail[0] == '}')) by {
        if m.datetime_secondary is Some {
            assert(tail[0] == sec_part[0]);
        } else if m.message.len() > 0 {
            assert(tail[0] == msg_part[0]);
        } else {
            assert(tail[0] == "}"@[0]);
        }
    }
    assert(tail2.len() > 0 && (tail2[0] == ',' || tail2[0] == '}')) by {
        if m.message.len() > 0 {
            assert(tail2[0] == msg_part[0]);
        } else {
            assert(tail2[0] == "}"@[0]);
        }
    }
    let pm0 = PartialModel { dt: None, sec: None, msg: None };
    let body = seq!['"'] + key1 + (seq!['"'] + (seq![':'] + (dts + tail)));
    assert(s[0] == '{');
    assert(!is_ws('{') && !is_ws('"') && !is_ws(',') && !is_ws('}'));
    assert(skip_ws(s) == s);
    assert(s.drop_first() =~= body);
    assert(!is_digit(tail[0]) && !is_digit(tail2[0]));
    lemma_member_dt(m.datetime, tail, pm0);
    let pm1 = PartialModel { dt: Some(m.datetime), sec: None, msg: None };
    assert(parse_member(body, pm0) == Some((pm1, tail)));
    assert(skip_ws(body) == body && body[0] == '"');
    assert(skip_ws(tail) == tail);
    assert(skip_ws(tail2) == tail2);
    assert("}"@[0] == '}');
    assert("}"@.drop_first() =~= Seq::<char>::empty());
    assert(skip_ws(Seq::<char>::empty()).len() == 0);
    let pm_done: PartialModel;
    match m.datetime_secondary {
        None => {
            assert(tail =~= tail2);
            pm_done = pm1;
        },
        Some(sv) => {
            assert(tail[0] == ',');
            let dts2 = dec_int(sv);
            let body2 = seq!['"'] + key2 + (seq!['"'] + (seq![':'] + (dts2 + tail2)));
            assert(tail.drop_first() =~= body2);
            lemma_member_sec(sv, tail2, pm1);
            let pm2 = PartialModel { dt: Some(m.datetime), sec: Some(Some(sv)), msg: None };
            assert(parse_member(body2, pm1) == Some((pm2, tail2)));
            assert(skip_ws(body2) == body2 && body2[0] == '"');
            pm_done = pm2;
        },
    }
    let pm_fin: PartialModel;
    if m.message.len() == 0 {
        assert(tail2 =~= "}"@);
        pm_fin = pm_done;
    } else {
        assert(tail2[0] == ',');
        let body3 = seq!['"'] + key3 + (seq!['"'] + (seq![':'] + (seq!['"'] + (esc(m.message)
            + seq!['"'] + "}"@))));
        assert(tail2.drop_first() =~= body3);
        lemma_member_msg(m.message, "}"@, pm_done);
        pm_fin = PartialModel { dt: pm_done.dt, sec: pm_done.sec, msg: Some(m.message) };
        assert(parse_member(body3, pm_done) == Some((pm_fin, "}"@)));
        assert(skip_ws(body3) == body3 && body3[0] == '"');
    }
    if m.message.len() == 0 {
        match m.datetime_secondary {
            None => {
                assert(tail =~= "}"@);
                assert(parse_fields(body, pm0, 4) == Some((pm1, Seq::<char>::empty())));
            },
            Some(sv) => {
                assert(parse_fields(tail.drop_first(), pm1, 3) == Some(
                    (pm_done, Seq::<char>::empty()),
                ));
                assert(parse_fields(body, pm0, 4) == Some((pm_done, Seq::<char>::empty())));
            },
        }
    } else {
        match m.datetime_secondary {
            None => {
                assert(parse_fields(tail2.drop_first(), pm_done, 3) == Some(
                    (pm_fin, Seq::<char>::empty()),
                ));
                assert(parse_fields(body, pm0, 4) == Some((pm_fin, Seq::<char>::empty())));
            },
            Some(sv) => {
                assert(parse_fields(tail2.drop_first(), pm_done, 2) == Some(
                    (pm_fin, Seq::<char>::empty()),
                ));
                assert(parse_fields(tail.drop_first(), pm1, 3) == Some(
                    (pm_fin, Seq::<char>::empty()),
                ));
                assert(parse_fields(body, pm0, 4) == Some((pm_fin, Seq::<char>::empty())));
            },
        }
    }
    assert(skip_ws(body)[0] == '"');
    match parse_item_spec(s) {
        None => {
            assert(false);
        },
        Some(got) => {
            assert(got =~= m);
        },
    }
}

} // verus!
