//! Reading a create-item request body: a JSON object with a string
//! member `"name"` and an integer member `"quantity"` that fits in
//! `i32`, in either order; members beyond those two are skipped (their
//! values may be any JSON value), a member given twice is rejected, and
//! strings carry the JSON escapes (`\"` `\\` `\/` `\b` `\f` `\n` `\r`
//! `\t` and `\uXXXX`, surrogate pairs included). Numbers follow the
//! JSON grammar: no leading zeros. The spec functions define the
//! grammar; the executable parser is proved to return exactly what
//! they denote.

use vstd::prelude::*;
use vstd::string::StrSliceExecFns;
use vstd::string::StringExecFns;
use crate::strutil::char_from_u32;
use crate::strutil::push_char;
use crate::strutil::str_eq;

verus! {

/// An item as carried by a create-item request.
pub struct Item {
    pub name: String,
    pub quantity: i32,
}

/// JSON whitespace.
pub open spec fn is_ws(c: char) -> bool {
    c == ' ' || c == '\t' || c == '\n' || c == '\r'
}

/// A character that may stand unescaped inside a string literal.
pub open spec fn string_ok_char(c: char) -> bool {
    c != '"' && c != '\\' && (c as u32) >= 32
}

/// A decimal digit.
pub open spec fn is_digit(c: char) -> bool {
    48 <= (c as u32) <= 57
}

/// The value of a decimal digit.
pub open spec fn digit_val(c: char) -> int {
    (c as u32) - 48
}

/// A hexadecimal digit, either case.
pub open spec fn is_hex(c: char) -> bool {
    is_digit(c) || (97 <= (c as u32) <= 102) || (65 <= (c as u32) <= 70)
}

/// The value of a hexadecimal digit.
pub open spec fn hex_val(c: char) -> int {
    if is_digit(c) {
        (c as u32) - 48
    } else if 97 <= (c as u32) <= 102 {
        (c as u32) - 87
    } else {
        (c as u32) - 55
    }
}

/// Whether four hexadecimal digits stand at `i`.
pub open spec fn hex4_ok(s: Seq<char>, i: int) -> bool {
    &&& i + 4 <= s.len()
    &&& is_hex(s[i])
    &&& is_hex(s[i + 1])
    &&& is_hex(s[i + 2])
    &&& is_hex(s[i + 3])
}

/// The value of the four hexadecimal digits at `i`.
pub open spec fn hex4_val(s: Seq<char>, i: int) -> int {
    hex_val(s[i]) * 4096 + hex_val(s[i + 1]) * 256 + hex_val(s[i + 2]) * 16 + hex_val(s[i + 3])
}

/// What a single-character escape denotes, `\u` aside.
pub open spec fn escape_char(e: char) -> Option<char> {
    if e == '"' {
        Some('"')
    } else if e == '\\' {
        Some('\\')
    } else if e == '/' {
        Some('/')
    } else if e == 'b' {
        Some('\u{0008}')
    } else if e == 'f' {
        Some('\u{000C}')
    } else if e == 'n' {
        Some('\n')
    } else if e == 'r' {
        Some('\r')
    } else if e == 't' {
        Some('\t')
    } else {
        None
    }
}

/// The first position at or after `i` holding no whitespace.
pub open spec fn skip_ws(s: Seq<char>, i: int) -> int
    decreases s.len() - i
        when 0 <= i <= s.len()
{
    if i < s.len() && is_ws(s[i]) {
        skip_ws(s, i + 1)
    } else {
        i
    }
}

/// The first position at or after `i` holding no digit.
pub open spec fn digits_end(s: Seq<char>, i: int) -> int
    decreases s.len() - i
        when 0 <= i <= s.len()
{
    if i < s.len() && is_digit(s[i]) {
        digits_end(s, i + 1)
    } else {
        i
    }
}

/// The value of the digit run `s[i..j]`.
pub open spec fn digits_val(s: Seq<char>, i: int, j: int) -> int
    decreases j - i
        when i <= j
{
    if i >= j {
        0
    } else {
        digits_val(s, i, j - 1) * 10 + digit_val(s[j - 1])
    }
}

/// The decoded content of a string whose body starts at `i` (just past
/// the opening quote), and the position just past the closing quote.
pub open spec fn parse_string_body(s: Seq<char>, i: int) -> Option<(Seq<char>, int)>
    decreases s.len() - i
        when 0 <= i <= s.len()
{
    if i >= s.len() {
        None
    } else if s[i] == '"' {
        Some((Seq::empty(), i + 1))
    } else if s[i] == '\\' {
        if i + 2 > s.len() {
            None
        } else if s[i + 1] == 'u' {
            if i + 6 <= s.len() && hex4_ok(s, i + 2) {
                let h = hex4_val(s, i + 2);
                if 0xD800 <= h < 0xDC00 {
                    if i + 12 <= s.len() && s[i + 6] == '\\' && s[i + 7] == 'u' && hex4_ok(
                        s,
                        i + 8,
                    ) {
                        let lo = hex4_val(s, i + 8);
                        if 0xDC00 <= lo < 0xE000 {
                            let c = ((0x10000 + (h - 0xD800) * 0x400 + (lo - 0xDC00)) as u32) as char;
                            match parse_string_body(s, i + 12) {
                                Some((t, p)) => Some((seq![c] + t, p)),
                                None => None,
                            }
                        } else {
                            None
                        }
                    } else {
                        None
                    }
                } else if 0xDC00 <= h < 0xE000 {
                    None
                } else {
                    let c = (h as u32) as char;
                    match parse_string_body(s, i + 6) {
                        Some((t, p)) => Some((seq![c] + t, p)),
                        None => None,
                    }
                }
            } else {
                None
            }
        } else {
            match escape_char(s[i + 1]) {
                Some(c) => match parse_string_body(s, i + 2) {
                    Some((t, p)) => Some((seq![c] + t, p)),
                    None => None,
                },
                None => None,
            }
        }
    } else if string_ok_char(s[i]) {
        match parse_string_body(s, i + 1) {
            Some((t, p)) => Some((seq![s[i]] + t, p)),
            None => None,
        }
    } else {
        None
    }
}

/// A string literal starting at `i`: its decoded content and the
/// position just past its closing quote.
pub open spec fn parse_string(s: Seq<char>, i: int) -> Option<(Seq<char>, int)> {
    if 0 <= i < s.len() && s[i] == '"' {
        parse_string_body(s, i + 1)
    } else {
        None
    }
}

/// An integer literal starting at `i`: an optional minus sign, then
/// digits without a leading zero, its value within the range of `i32`.
pub open spec fn parse_int(s: Seq<char>, i: int) -> Option<(int, int)> {
    let neg = 0 <= i < s.len() && s[i] == '-';
    let di = if neg {
        i + 1
    } else {
        i
    };
    let j = digits_end(s, di);
    if j == di {
        None
    } else if s[di] == '0' && j > di + 1 {
        None
    } else {
        let m = digits_val(s, di, j);
        let v = if neg {
            -m
        } else {
            m
        };
        if -2147483648 <= v <= 2147483647 {
            Some((v, j))
        } else {
            None
        }
    }
}

/// The position just past a JSON number starting at `i`: optional
/// sign, an integer part without leading zeros, then optional fraction
/// and exponent parts.
pub open spec fn skip_number(s: Seq<char>, i: int) -> Option<int> {
    let i1 = if 0 <= i < s.len() && s[i] == '-' {
        i + 1
    } else {
        i
    };
    if i1 < s.len() && s[i1] == '0' {
        skip_number_rest(s, i1 + 1)
    } else {
        let e = digits_end(s, i1);
        if e == i1 {
            None
        } else {
            skip_number_rest(s, e)
        }
    }
}

/// The fraction and exponent parts of a number, starting where the
/// integer part ended.
pub open spec fn skip_number_rest(s: Seq<char>, i: int) -> Option<int> {
    let f = if i < s.len() && s[i] == '.' {
        let fe = digits_end(s, i + 1);
        if fe == i + 1 {
            -1
        } else {
            fe
        }
    } else {
        i
    };
    if f < 0 {
        None
    } else if f < s.len() && (s[f] == 'e' || s[f] == 'E') {
        let es = if f + 1 < s.len() && (s[f + 1] == '+' || s[f + 1] == '-') {
            f + 2
        } else {
            f + 1
        };
        let ee = digits_end(s, es);
        if ee == es {
            None
        } else {
            Some(ee)
        }
    } else {
        Some(f)
    }
}

/// The position just past one JSON value starting at `i`. The fuel
/// bounds nesting depth; a level of nesting takes at least one
/// character, so fuel starting at the input's length never runs out.
pub open spec fn skip_value(s: Seq<char>, i: int, fuel: nat) -> Option<int>
    decreases fuel,
{
    if fuel == 0 {
        None
    } else if !(0 <= i < s.len()) {
        None
    } else if s[i] == '"' {
        match parse_string(s, i) {
            Some((t, p)) => Some(p),
            None => None,
        }
    } else if s[i] == '{' {
        let j = skip_ws(s, i + 1);
        if j < s.len() && s[j] == '}' {
            Some(j + 1)
        } else {
            skip_members(s, j, (fuel - 1) as nat)
        }
    } else if s[i] == '[' {
        let j = skip_ws(s, i + 1);
        if j < s.len() && s[j] == ']' {
            Some(j + 1)
        } else {
            skip_elements(s, j, (fuel - 1) as nat)
        }
    } else if s[i] == 't' {
        if i + 4 <= s.len() && s[i + 1] == 'r' && s[i + 2] == 'u' && s[i + 3] == 'e' {
            Some(i + 4)
        } else {
            None
        }
    } else if s[i] == 'f' {
        if i + 5 <= s.len() && s[i + 1] == 'a' && s[i + 2] == 'l' && s[i + 3] == 's' && s[i + 4]
            == 'e' {
            Some(i + 5)
        } else {
            None
        }
    } else if s[i] == 'n' {
        if i + 4 <= s.len() && s[i + 1] == 'u' && s[i + 2] == 'l' && s[i + 3] == 'l' {
            Some(i + 4)
        } else {
            None
        }
    } else {
        skip_number(s, i)
    }
}

/// The position just past the members and closing brace of an object
/// whose first member's key starts at `i`.
pub open spec fn skip_members(s: Seq<char>, i: int, fuel: nat) -> Option<int>
    decreases fuel,
{
    if fuel == 0 {
        None
    } else {
        match parse_string(s, i) {
            Some((k, p)) => {
                let p2 = skip_ws(s, p);
                if p2 < s.len() && s[p2] == ':' {
                    match skip_value(s, skip_ws(s, p2 + 1), (fuel - 1) as nat) {
                        Some(p4) => {
                            let p5 = skip_ws(s, p4);
                            if p5 < s.len() && s[p5] == ',' {
                                skip_members(s, skip_ws(s, p5 + 1), (fuel - 1) as nat)
                            } else if p5 < s.len() && s[p5] == '}' {
                                Some(p5 + 1)
                            } else {
                                None
                            }
                        },
                        None => None,
                    }
                } else {
                    None
                }
            },
            None => None,
        }
    }
}

/// The position just past the elements and closing bracket of an array
/// whose first element starts at `i`.
pub open spec fn skip_elements(s: Seq<char>, i: int, fuel: nat) -> Option<int>
    decreases fuel,
{
    if fuel == 0 {
        None
    } else {
        match skip_value(s, i, (fuel - 1) as nat) {
            Some(p) => {
                let p2 = skip_ws(s, p);
                if p2 < s.len() && s[p2] == ',' {
                    skip_elements(s, skip_ws(s, p2 + 1), (fuel - 1) as nat)
                } else if p2 < s.len() && s[p2] == ']' {
                    Some(p2 + 1)
                } else {
                    None
                }
            },
            None => None,
        }
    }
}

/// The members of the item object, starting at the key at `i`, given
/// which of the two awaited members were already seen: the name, the
/// quantity, and the position just past the closing brace. A member
/// seen twice, an awaited member with a value of the wrong type, or a
/// missing member at the closing brace denotes nothing.
pub open spec fn parse_members(
    s: Seq<char>,
    i: int,
    nm: Option<Seq<char>>,
    qt: Option<int>,
    fuel: nat,
) -> Option<(Seq<char>, int, int)>
    decreases fuel,
{
    if fuel == 0 {
        None
    } else {
        match parse_string(s, i) {
            Some((key, p)) => {
                let p2 = skip_ws(s, p);
                if p2 < s.len() && s[p2] == ':' {
                    let p3 = skip_ws(s, p2 + 1);
                    let step: Option<(Option<Seq<char>>, Option<int>, int)> = if key == "name"@ {
                        if nm is Some {
                            None
                        } else {
                            match parse_string(s, p3) {
                                Some((v, p4)) => Some((Some(v), qt, p4)),
                                None => None,
                            }
                        }
                    } else if key == "quantity"@ {
                        if qt is Some {
                            None
                        } else {
                            match parse_int(s, p3) {
                                Some((v, p4)) => Some((nm, Some(v), p4)),
                                None => None,
                            }
                        }
                    } else {
                        match skip_value(s, p3, fuel) {
                            Some(p4) => Some((nm, qt, p4)),
                            None => None,
                        }
                    };
                    match step {
                        Some((nm2, qt2, p4)) => {
                            let p5 = skip_ws(s, p4);
                            if p5 < s.len() && s[p5] == ',' {
                                parse_members(s, skip_ws(s, p5 + 1), nm2, qt2, (fuel - 1) as nat)
                            } else if p5 < s.len() && s[p5] == '}' {
                                match (nm2, qt2) {
                                    (Some(n), Some(q)) => Some((n, q, p5 + 1)),
                                    _ => None,
                                }
                            } else {
                                None
                            }
                        },
                        None => None,
                    }
                } else {
                    None
                }
            },
            None => None,
        }
    }
}

/// The whole body: an object whose members give a name and a quantity,
/// with nothing but whitespace around it; the result is the name and
/// the quantity.
pub open spec fn parse_item_spec(s: Seq<char>) -> Option<(Seq<char>, int)> {
    let i = skip_ws(s, 0);
    if i < s.len() && s[i] == '{' {
        match parse_members(s, skip_ws(s, i + 1), None, None, s.len()) {
            Some((n, q, p)) => {
                if skip_ws(s, p) == s.len() {
                    Some((n, q))
                } else {
                    None
                }
            },
            None => None,
        }
    } else {
        None
    }
}

proof fn lemma_digits_val_nonneg(s: Seq<char>, i: int, j: int)
    requires
        i <= j,
        forall|k: int| i <= k < j ==> is_digit(#[trigger] s[k]),
    ensures
        digits_val(s, i, j) >= 0,
    decreases j - i,
{
    if i < j {
        lemma_digits_val_nonneg(s, i, j - 1);
    }
}

proof fn lemma_digits_val_mono(s: Seq<char>, i: int, j1: int, j2: int)
    requires
        i <= j1 <= j2,
        forall|k: int| i <= k < j2 ==> is_digit(#[trigger] s[k]),
    ensures
        digits_val(s, i, j1) <= digits_val(s, i, j2),
    decreases j2 - j1,
{
    if j1 < j2 {
        lemma_digits_val_mono(s, i, j1, j2 - 1);
        lemma_digits_val_nonneg(s, i, j2 - 1);
    }
}

proof fn lemma_digits_end(s: Seq<char>, i: int)
    requires
        0 <= i <= s.len(),
    ensures
        i <= digits_end(s, i) <= s.len(),
        forall|k: int| i <= k < digits_end(s, i) ==> is_digit(#[trigger] s[k]),
    decreases s.len() - i,
{
    if i < s.len() && is_digit(s[i]) {
        lemma_digits_end(s, i + 1);
    }
}

fn is_ws_exec(c: char) -> (b: bool)
    ensures
        b == is_ws(c),
{
    c == ' ' || c == '\t' || c == '\n' || c == '\r'
}

fn is_digit_exec(c: char) -> (b: bool)
    ensures
        b == is_digit(c),
{
    let u = c as u32;
    48 <= u && u <= 57
}

fn skip_ws_exec(s: &str, i: usize, l: usize) -> (r: usize)
    requires
        l == s@.len(),
        i <= l,
    ensures
        r as int == skip_ws(s@, i as int),
        i <= r <= l,
{
    let mut j = i;
    while j < l && is_ws_exec(s.get_char(j))
        invariant
            i <= j <= l,
            l == s@.len(),
            skip_ws(s@, j as int) == skip_ws(s@, i as int),
        decreases l - j,
    {
        j += 1;
    }
    j
}

fn digits_end_exec(s: &str, i: usize, l: usize) -> (r: usize)
    requires
        l == s@.len(),
        i <= l,
    ensures
        r as int == digits_end(s@, i as int),
        i <= r <= l,
{
    let mut j = i;
    while j < l && is_digit_exec(s.get_char(j))
        invariant
            i <= j <= l,
            l == s@.len(),
            digits_end(s@, j as int) == digits_end(s@, i as int),
        decreases l - j,
    {
        j += 1;
    }
    j
}

fn hex_digit_exec(c: char) -> (r: Option<u32>)
    ensures
        r is Some <==> is_hex(c),
        r matches Some(v) ==> v as int == hex_val(c) && v < 16,
{
    let u = c as u32;
    if 48 <= u && u <= 57 {
        Some(u - 48)
    } else if 97 <= u && u <= 102 {
        Some(u - 87)
    } else if 65 <= u && u <= 70 {
        Some(u - 55)
    } else {
        None
    }
}

fn read_hex4(s: &str, i: usize, l: usize) -> (r: Option<u32>)
    requires
        l == s@.len(),
        i + 4 <= l,
    ensures
        r is Some <==> hex4_ok(s@, i as int),
        r matches Some(v) ==> v as int == hex4_val(s@, i as int) && v < 65536,
{
    let d0 = hex_digit_exec(s.get_char(i));
    let d1 = hex_digit_exec(s.get_char(i + 1));
    let d2 = hex_digit_exec(s.get_char(i + 2));
    let d3 = hex_digit_exec(s.get_char(i + 3));
    match (d0, d1, d2, d3) {
        (Some(a), Some(b), Some(c), Some(d)) => Some(a * 4096 + b * 256 + c * 16 + d),
        _ => None,
    }
}

/// Whether decoding that started at `i0` and has produced `done` so
/// far finishes exactly as decoding from `j` does.
spec fn body_completes(s: Seq<char>, i0: int, j: int, done: Seq<char>) -> bool {
    match parse_string_body(s, j) {
        Some((t, p)) => parse_string_body(s, i0) == Some((done + t, p)),
        None => parse_string_body(s, i0) is None,
    }
}

proof fn lemma_body_step(s: Seq<char>, i0: int, j: int, j2: int, done: Seq<char>, d: char)
    requires
        body_completes(s, i0, j, done),
        parse_string_body(s, j) == (match parse_string_body(s, j2) {
            Some((t, p)) => Some((seq![d] + t, p)),
            None => None::<(Seq<char>, int)>,
        }),
    ensures
        body_completes(s, i0, j2, done.push(d)),
{
    match parse_string_body(s, j2) {
        Some((t, p)) => {
            assert(done + (seq![d] + t) =~= done.push(d) + t);
        },
        None => {},
    }
}

fn parse_string_exec(s: &str, i: usize, l: usize) -> (r: Option<(String, usize)>)
    requires
        l == s@.len(),
        i <= l,
    ensures
        r matches Some(cp) ==> parse_string(s@, i as int) == Some((cp.0@, cp.1 as int)) && i < cp.1
            <= l,
        r is None ==> parse_string(s@, i as int) is None,
{
    if i >= l {
        return None;
    }
    if s.get_char(i) != '"' {
        return None;
    }
    let mut j = i + 1;
    let mut out = String::new();
    proof {
        assert(out@ + Seq::<char>::empty() =~= out@);
    }
    while j < l
        invariant
            i + 1 <= j <= l,
            l == s@.len(),
            s@[i as int] == '"',
            body_completes(s@, i as int + 1, j as int, out@),
        decreases l - j,
    {
        let c = s.get_char(j);
        if c == '"' {
            proof {
                assert(parse_string_body(s@, j as int) == Some(
                    (Seq::<char>::empty(), j as int + 1),
                ));
                assert(out@ + Seq::<char>::empty() =~= out@);
            }
            return Some((out, j + 1));
        } else if c == '\\' {
            if l - j < 2 {
                return None;
            }
            let e = s.get_char(j + 1);
            if e == 'u' {
                if l - j < 6 {
                    return None;
                }
                let h = match read_hex4(s, j + 2, l) {
                    Some(h) => h,
                    None => {
                        return None;
                    },
                };
                if 0xD800 <= h && h < 0xDC00 {
                    if l - j < 12 {
                        return None;
                    }
                    if !(s.get_char(j + 6) == '\\' && s.get_char(j + 7) == 'u') {
                        return None;
                    }
                    let lo = match read_hex4(s, j + 8, l) {
                        Some(lo) => lo,
                        None => {
                            return None;
                        },
                    };
                    if !(0xDC00 <= lo && lo < 0xE000) {
                        return None;
                    }
                    let code: u32 = 0x10000 + (h - 0xD800) * 0x400 + (lo - 0xDC00);
                    match char_from_u32(code) {
                        Some(d) => {
                            proof {
                                lemma_body_step(
                                    s@,
                                    i as int + 1,
                                    j as int,
                                    j as int + 12,
                                    out@,
                                    d,
                                );
                            }
                            push_char(&mut out, d);
                            j += 12;
                        },
                        None => {
                            proof {
                                assert(false);
                            }
                            return None;
                        },
                    }
                } else if 0xDC00 <= h && h < 0xE000 {
                    return None;
                } else {
                    match char_from_u32(h) {
                        Some(d) => {
                            proof {
                                lemma_body_step(s@, i as int + 1, j as int, j as int + 6, out@, d);
                            }
                            push_char(&mut out, d);
                            j += 6;
                        },
                        None => {
                            proof {
                                assert(false);
                            }
                            return None;
                        },
                    }
                }
            } else {
                let d = if e == '"' {
                    '"'
                } else if e == '\\' {
                    '\\'
                } else if e == '/' {
                    '/'
                } else if e == 'b' {
                    '\u{0008}'
                } else if e == 'f' {
                    '\u{000C}'
                } else if e == 'n' {
                    '\n'
                } else if e == 'r' {
                    '\r'
                } else if e == 't' {
                    '\t'
                } else {
                    return None;
                };
                proof {
                    lemma_body_step(s@, i as int + 1, j as int, j as int + 2, out@, d);
                }
                push_char(&mut out, d);
                j += 2;
            }
        } else if (c as u32) >= 32 {
            proof {
                lemma_body_step(s@, i as int + 1, j as int, j as int + 1, out@, c);
            }
            push_char(&mut out, c);
            j += 1;
        } else {
            return None;
        }
    }
    None
}

fn parse_int_exec(s: &str, i: usize, l: usize) -> (r: Option<(i32, usize)>)
    requires
        l == s@.len(),
        i <= l,
    ensures
        r matches Some(vp) ==> parse_int(s@, i as int) == Some((vp.0 as int, vp.1 as int)) && i
            < vp.1 <= l,
        r is None ==> parse_int(s@, i as int) is None,
{
    let neg = i < l && s.get_char(i) == '-';
    let di = if neg {
        i + 1
    } else {
        i
    };
    let mut j = di;
    let mut acc: u64 = 0;
    while j < l && is_digit_exec(s.get_char(j))
        invariant
            i <= di <= j <= l,
            l == s@.len(),
            neg == (i < s@.len() && s@[i as int] == '-'),
            di == (if neg {
                i + 1
            } else {
                i as int
            }),
            acc == digits_val(s@, di as int, j as int),
            acc <= 2147483648,
            digits_end(s@, j as int) == digits_end(s@, di as int),
            forall|k: int| di <= k < j ==> is_digit(#[trigger] s@[k]),
        decreases l - j,
    {
        let c = s.get_char(j);
        let d = (c as u32) - 48;
        acc = acc * 10 + d as u64;
        j += 1;
        if acc > 2147483648 {
            proof {
                let de = digits_end(s@, di as int);
                lemma_digits_end(s@, di as int);
                assert(digits_end(s@, j as int) == de);
                lemma_digits_end(s@, j as int);
                assert(j <= de);
                lemma_digits_val_mono(s@, di as int, j as int, de);
            }
            return None;
        }
    }
    proof {
        assert(j as int == digits_end(s@, di as int));
    }
    if j == di {
        return None;
    }
    if j > di + 1 && s.get_char(di) == '0' {
        return None;
    }
    if neg {
        let v: i32 = if acc == 2147483648 {
            i32::MIN
        } else {
            0i32 - (acc as i32)
        };
        Some((v, j))
    } else {
        if acc > 2147483647 {
            return None;
        }
        Some((acc as i32, j))
    }
}

fn skip_number_exec(s: &str, i: usize, l: usize) -> (r: Option<usize>)
    requires
        l == s@.len(),
        i <= l,
    ensures
        r matches Some(p) ==> skip_number(s@, i as int) == Some(p as int) && p <= l,
        r is None ==> skip_number(s@, i as int) is None,
{
    let i1 = if i < l && s.get_char(i) == '-' {
        i + 1
    } else {
        i
    };
    let int_end: usize;
    if i1 < l && s.get_char(i1) == '0' {
        int_end = i1 + 1;
    } else {
        let e = digits_end_exec(s, i1, l);
        if e == i1 {
            return None;
        }
        int_end = e;
    }
    skip_number_rest_exec(s, int_end, l)
}

fn skip_number_rest_exec(s: &str, i: usize, l: usize) -> (r: Option<usize>)
    requires
        l == s@.len(),
        i <= l,
    ensures
        r matches Some(p) ==> skip_number_rest(s@, i as int) == Some(p as int) && p <= l,
        r is None ==> skip_number_rest(s@, i as int) is None,
{
    let f: usize;
    if i < l && s.get_char(i) == '.' {
        let fe = digits_end_exec(s, i + 1, l);
        if fe == i + 1 {
            return None;
        }
        f = fe;
    } else {
        f = i;
    }
    if f < l && (s.get_char(f) == 'e' || s.get_char(f) == 'E') {
        let es = if f + 1 < l && (s.get_char(f + 1) == '+' || s.get_char(f + 1) == '-') {
            f + 2
        } else {
            f + 1
        };
        let ee = digits_end_exec(s, es, l);
        if ee == es {
            return None;
        }
        Some(ee)
    } else {
        Some(f)
    }
}

fn skip_value_exec(s: &str, i: usize, l: usize, fuel: usize) -> (r: Option<usize>)
    requires
        l == s@.len(),
        i <= l,
    ensures
        r matches Some(p) ==> skip_value(s@, i as int, fuel as nat) == Some(p as int) && p <= l,
        r is None ==> skip_value(s@, i as int, fuel as nat) is None,
    decreases fuel,
{
    if fuel == 0 {
        return None;
    }
    if i >= l {
        return None;
    }
    let c = s.get_char(i);
    if c == '"' {
        match parse_string_exec(s, i, l) {
            Some((_t, p)) => Some(p),
            None => None,
        }
    } else if c == '{' {
        let j = skip_ws_exec(s, i + 1, l);
        if j < l && s.get_char(j) == '}' {
            Some(j + 1)
        } else {
            skip_members_exec(s, j, l, fuel - 1)
        }
    } else if c == '[' {
        let j = skip_ws_exec(s, i + 1, l);
        if j < l && s.get_char(j) == ']' {
            Some(j + 1)
        } else {
            skip_elements_exec(s, j, l, fuel - 1)
        }
    } else if c == 't' {
        if l - i >= 4 && s.get_char(i + 1) == 'r' && s.get_char(i + 2) == 'u' && s.get_char(i + 3)
            == 'e' {
            Some(i + 4)
        } else {
            None
        }
    } else if c == 'f' {
        if l - i >= 5 && s.get_char(i + 1) == 'a' && s.get_char(i + 2) == 'l' && s.get_char(i + 3)
            == 's' && s.get_char(i + 4) == 'e' {
            Some(i + 5)
        } else {
            None
        }
    } else if c == 'n' {
        if l - i >= 4 && s.get_char(i + 1) == 'u' && s.get_char(i + 2) == 'l' && s.get_char(i + 3)
            == 'l' {
            Some(i + 4)
        } else {
            None
        }
    } else {
        skip_number_exec(s, i, l)
    }
}

fn skip_members_exec(s: &str, i: usize, l: usize, fuel: usize) -> (r: Option<usize>)
    requires
        l == s@.len(),
        i <= l,
    ensures
        r matches Some(p) ==> skip_members(s@, i as int, fuel as nat) == Some(p as int) && p <= l,
        r is None ==> skip_members(s@, i as int, fuel as nat) is None,
    decreases fuel,
{
    if fuel == 0 {
        return None;
    }
    match parse_string_exec(s, i, l) {
        Some((_k, p)) => {
            let p2 = skip_ws_exec(s, p, l);
            if p2 < l && s.get_char(p2) == ':' {
                match skip_value_exec(s, skip_ws_exec(s, p2 + 1, l), l, fuel - 1) {
                    Some(p4) => {
                        let p5 = skip_ws_exec(s, p4, l);
                        if p5 < l && s.get_char(p5) == ',' {
                            skip_members_exec(s, skip_ws_exec(s, p5 + 1, l), l, fuel - 1)
                        } else if p5 < l && s.get_char(p5) == '}' {
                            Some(p5 + 1)
                        } else {
                            None
                        }
                    },
                    None => None,
                }
            } else {
                None
            }
        },
        None => None,
    }
}

fn skip_elements_exec(s: &str, i: usize, l: usize, fuel: usize) -> (r: Option<usize>)
    requires
        l == s@.len(),
        i <= l,
    ensures
        r matches Some(p) ==> skip_elements(s@, i as int, fuel as nat) == Some(p as int) && p <= l,
        r is None ==> skip_elements(s@, i as int, fuel as nat) is None,
    decreases fuel,
{
    if fuel == 0 {
        return None;
    }
    match skip_value_exec(s, i, l, fuel - 1) {
        Some(p) => {
            let p2 = skip_ws_exec(s, p, l);
            if p2 < l && s.get_char(p2) == ',' {
                skip_elements_exec(s, skip_ws_exec(s, p2 + 1, l), l, fuel - 1)
            } else if p2 < l && s.get_char(p2) == ']' {
                Some(p2 + 1)
            } else {
                None
            }
        },
        None => None,
    }
}

/// The name seen so far, abstractly.
spec fn name_view(o: Option<String>) -> Option<Seq<char>> {
    match o {
        Some(n) => Some(n@),
        None => None,
    }
}

/// The quantity seen so far, abstractly.
spec fn qty_view(o: Option<i32>) -> Option<int> {
    match o {
        Some(q) => Some(q as int),
        None => None,
    }
}

/// Reads a request body as an item, if the body fits this grammar.
pub fn parse_item(s: &str) -> (r: Option<Item>)
    ensures
        r matches Some(item) ==> parse_item_spec(s@) == Some((item.name@, item.quantity as int)),
        r is None ==> parse_item_spec(s@) is None,
{
    let l = s.unicode_len();
    let i = skip_ws_exec(s, 0, l);
    if !(i < l && s.get_char(i) == '{') {
        return None;
    }
    let mut j = skip_ws_exec(s, i + 1, l);
    let mut nm: Option<String> = None;
    let mut qt: Option<i32> = None;
    let mut fuel: usize = l;
    let ghost j0 = j as int;
    loop
        invariant
            j <= l,
            l == s@.len(),
            fuel <= l,
            parse_members(s@, j0, None, None, l as nat) == parse_members(
                s@,
                j as int,
                name_view(nm),
                qty_view(qt),
                fuel as nat,
            ),
            parse_item_spec(s@) == (match parse_members(s@, j0, None, None, l as nat) {
                Some((n, q, p)) => {
                    if skip_ws(s@, p) == s@.len() {
                        Some((n, q))
                    } else {
                        None::<(Seq<char>, int)>
                    }
                },
                None => None::<(Seq<char>, int)>,
            }),
        decreases fuel,
    {
        if fuel == 0 {
            return None;
        }
        let (key, p) = match parse_string_exec(s, j, l) {
            Some(kp) => kp,
            None => {
                return None;
            },
        };
        let p2 = skip_ws_exec(s, p, l);
        if !(p2 < l && s.get_char(p2) == ':') {
            return None;
        }
        let p3 = skip_ws_exec(s, p2 + 1, l);
        let p4: usize;
        if str_eq(key.as_str(), "name") {
            if nm.is_some() {
                return None;
            }
            match parse_string_exec(s, p3, l) {
                Some((v, q4)) => {
                    nm = Some(v);
                    p4 = q4;
                },
                None => {
                    return None;
                },
            }
        } else if str_eq(key.as_str(), "quantity") {
            if qt.is_some() {
                return None;
            }
            match parse_int_exec(s, p3, l) {
                Some((v, q4)) => {
                    qt = Some(v);
                    p4 = q4;
                },
                None => {
                    return None;
                },
            }
        } else {
            match skip_value_exec(s, p3, l, fuel) {
                Some(q4) => {
                    p4 = q4;
                },
                None => {
                    return None;
                },
            }
        }
        let p5 = skip_ws_exec(s, p4, l);
        if p5 < l && s.get_char(p5) == ',' {
            j = skip_ws_exec(s, p5 + 1, l);
            fuel = fuel - 1;
        } else if p5 < l && s.get_char(p5) == '}' {
            match (nm, qt) {
                (Some(n), Some(q)) => {
                    let q2 = skip_ws_exec(s, p5 + 1, l);
                    if q2 == l {
                        return Some(Item { name: n, quantity: q });
                    } else {
                        return None;
                    }
                },
                _ => {
                    return None;
                },
            }
        } else {
            return None;
        }
    }
}

} // verus!
