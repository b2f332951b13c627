//! Turning a grocery list into its JSON object text: keys are item
//! names (with `"` and `\` escaped), values are the quantities written
//! in decimal, pairs in the order the list holds them.

use vstd::prelude::*;
use vstd::string::StrSliceExecFns;
use vstd::string::StringExecFns;
use crate::store::GroceryList;

verus! {

/// The character for one decimal digit value.
pub open spec fn digit_char(d: int) -> char {
    if d == 0 {
        '0'
    } else if d == 1 {
        '1'
    } else if d == 2 {
        '2'
    } else if d == 3 {
        '3'
    } else if d == 4 {
        '4'
    } else if d == 5 {
        '5'
    } else if d == 6 {
        '6'
    } else if d == 7 {
        '7'
    } else if d == 8 {
        '8'
    } else {
        '9'
    }
}

/// The decimal digits of a natural number, most significant first.
pub open spec fn nat_chars(n: nat) -> Seq<char>
    decreases n,
{
    if n < 10 {
        seq![digit_char(n as int)]
    } else {
        nat_chars(n / 10).push(digit_char((n % 10) as int))
    }
}

/// The decimal writing of an integer, with a leading minus sign when
/// it is negative.
pub open spec fn int_chars(v: int) -> Seq<char> {
    if v < 0 {
        seq!['-'] + nat_chars((-v) as nat)
    } else {
        nat_chars(v as nat)
    }
}

/// The character for one hexadecimal digit value, lower case.
pub open spec fn hex_char(d: int) -> char {
    if d < 10 {
        digit_char(d)
    } else if d == 10 {
        'a'
    } else if d == 11 {
        'b'
    } else if d == 12 {
        'c'
    } else if d == 13 {
        'd'
    } else if d == 14 {
        'e'
    } else {
        'f'
    }
}

/// How one character appears inside a JSON string: quotes and
/// backslashes take an escaping backslash, the controls with short
/// escapes use them, the other controls are written `\u00..`, and
/// everything else stands as itself.
pub open spec fn esc_char(c: char) -> Seq<char> {
    if c == '"' {
        seq!['\\', '"']
    } else if c == '\\' {
        seq!['\\', '\\']
    } else if c == '\u{0008}' {
        seq!['\\', 'b']
    } else if c == '\t' {
        seq!['\\', 't']
    } else if c == '\n' {
        seq!['\\', 'n']
    } else if c == '\u{000C}' {
        seq!['\\', 'f']
    } else if c == '\r' {
        seq!['\\', 'r']
    } else if (c as u32) < 32 {
        seq!['\\', 'u', '0', '0', hex_char((c as u32) as int / 16), hex_char((c as u32) as int % 16)]
    } else {
        seq![c]
    }
}

/// A whole name as it appears inside its JSON string quotes.
pub open spec fn esc_chars(s: Seq<char>) -> Seq<char>
    decreases s.len(),
{
    if s.len() == 0 {
        Seq::empty()
    } else {
        esc_chars(s.drop_last()) + esc_char(s.last())
    }
}

/// One `"name":quantity` member of the JSON object.
pub open spec fn pair_chars(p: (Seq<char>, int)) -> Seq<char> {
    seq!['"'] + esc_chars(p.0) + seq!['"', ':'] + int_chars(p.1)
}

/// The members of the JSON object, joined by commas.
pub open spec fn members_chars(ps: Seq<(Seq<char>, int)>) -> Seq<char>
    decreases ps.len(),
{
    if ps.len() == 0 {
        Seq::empty()
    } else if ps.len() == 1 {
        pair_chars(ps.last())
    } else {
        members_chars(ps.drop_last()) + seq![','] + pair_chars(ps.last())
    }
}

/// The JSON object text for a sequence of name/quantity pairs.
pub open spec fn render_spec(ps: Seq<(Seq<char>, int)>) -> Seq<char> {
    seq!['{'] + members_chars(ps) + seq!['}']
}

/// The ten digit characters as one-character strings.
fn digit_str(d: u32) -> (r: &'static str)
    requires
        d < 10,
    ensures
        r@ == seq![digit_char(d as int)],
{
    proof {
        reveal_strlit("0");
        reveal_strlit("1");
        reveal_strlit("2");
        reveal_strlit("3");
        reveal_strlit("4");
        reveal_strlit("5");
        reveal_strlit("6");
        reveal_strlit("7");
        reveal_strlit("8");
        reveal_strlit("9");
    }
    let r = match d {
        0 => "0",
        1 => "1",
        2 => "2",
        3 => "3",
        4 => "4",
        5 => "5",
        6 => "6",
        7 => "7",
        8 => "8",
        _ => "9",
    };
    proof {
        assert(r@ =~= seq![digit_char(d as int)]);
    }
    r
}

/// The sixteen hexadecimal digit characters as one-character strings.
fn hex_str(d: u32) -> (r: &'static str)
    requires
        d < 16,
    ensures
        r@ == seq![hex_char(d as int)],
{
    if d < 10 {
        digit_str(d)
    } else {
        proof {
            reveal_strlit("a");
            reveal_strlit("b");
            reveal_strlit("c");
            reveal_strlit("d");
            reveal_strlit("e");
            reveal_strlit("f");
        }
        let r = match d {
            10 => "a",
            11 => "b",
            12 => "c",
            13 => "d",
            14 => "e",
            _ => "f",
        };
        proof {
            assert(r@ =~= seq![hex_char(d as int)]);
        }
        r
    }
}

/// Appends the decimal digits of `n` to `out`.
fn push_u32(out: &mut String, n: u32)
    ensures
        final(out)@ == old(out)@ + nat_chars(n as nat),
    decreases n,
{
    if n >= 10 {
        push_u32(out, n / 10);
        out.append(digit_str(n % 10));
        proof {
            assert(out@ =~= old(out)@ + nat_chars(n as nat));
        }
    } else {
        out.append(digit_str(n));
        proof {
            assert(out@ =~= old(out)@ + nat_chars(n as nat));
        }
    }
}

/// Appends the decimal writing of `v` to `out`.
fn push_i32(out: &mut String, v: i32)
    ensures
        final(out)@ == old(out)@ + int_chars(v as int),
{
    if v < 0 {
        proof {
            reveal_strlit("-");
        }
        out.append("-");
        let m: u32 = if v == i32::MIN {
            2147483648u32
        } else {
            (-v) as u32
        };
        proof {
            assert(m as nat == (-(v as int)) as nat);
        }
        push_u32(out, m);
        proof {
            assert(("-")@ =~= seq!['-']);
            assert(out@ =~= old(out)@ + int_chars(v as int));
        }
    } else {
        push_u32(out, v as u32);
    }
}

/// Appends `s` to `out` with JSON string escaping.
fn push_escaped(out: &mut String, s: &str)
    ensures
        final(out)@ == old(out)@ + esc_chars(s@),
{
    let l = s.unicode_len();
    let mut i: usize = 0;
    proof {
        assert(out@ =~= old(out)@ + esc_chars(s@.take(0)));
    }
    while i < l
        invariant
            i <= l,
            l == s@.len(),
            out@ == old(out)@ + esc_chars(s@.take(i as int)),
        decreases l - i,
    {
        let c = s.get_char(i);
        if c == '"' {
            proof {
                reveal_strlit("\\\"");
            }
            out.append("\\\"");
            proof {
                assert(("\\\"")@ =~= seq!['\\', '"']);
            }
        } else if c == '\\' {
            proof {
                reveal_strlit("\\\\");
            }
            out.append("\\\\");
            proof {
                assert(("\\\\")@ =~= seq!['\\', '\\']);
            }
        } else if c == '\u{0008}' {
            proof {
                reveal_strlit("\\b");
            }
            out.append("\\b");
            proof {
                assert(("\\b")@ =~= seq!['\\', 'b']);
            }
        } else if c == '\t' {
            proof {
                reveal_strlit("\\t");
            }
            out.append("\\t");
            proof {
                assert(("\\t")@ =~= seq!['\\', 't']);
            }
        } else if c == '\n' {
            proof {
                reveal_strlit("\\n");
            }
            out.append("\\n");
            proof {
                assert(("\\n")@ =~= seq!['\\', 'n']);
            }
        } else if c == '\u{000C}' {
            proof {
                reveal_strlit("\\f");
            }
            out.append("\\f");
            proof {
                assert(("\\f")@ =~= seq!['\\', 'f']);
            }
        } else if c == '\r' {
            proof {
                reveal_strlit("\\r");
            }
            out.append("\\r");
            proof {
                assert(("\\r")@ =~= seq!['\\', 'r']);
            }
        } else if (c as u32) < 32 {
            let u = c as u32;
            proof {
                reveal_strlit("\\u00");
            }
            out.append("\\u00");
            out.append(hex_str(u / 16));
            out.append(hex_str(u % 16));
            proof {
                assert(("\\u00")@ =~= seq!['\\', 'u', '0', '0']);
            }
        } else {
            out.append(s.substring_char(i, i + 1));
        }
        proof {
            assert(s@.take(i as int + 1).drop_last() =~= s@.take(i as int));
            assert(s@.take(i as int + 1).last() == s@[i as int]);
            assert(s@.subrange(i as int, i as int + 1) =~= seq![s@[i as int]]);
            assert(out@ =~= old(out)@ + esc_chars(s@.take(i as int + 1)));
        }
        i += 1;
    }
    proof {
        assert(s@.take(l as int) =~= s@);
    }
}

/// The JSON object text for the whole list.
pub fn render_list(list: &GroceryList) -> (r: String)
    ensures
        r@ == render_spec(list.pairs()),
{
    let ghost ps = list.pairs();
    let mut out = String::new();
    proof {
        reveal_strlit("{");
        reveal_strlit("}");
        reveal_strlit(",");
        reveal_strlit("\"");
        reveal_strlit("\":");
    }
    out.append("{");
    proof {
        assert(("{")@ =~= seq!['{']);
        assert(out@ =~= seq!['{'] + members_chars(ps.take(0)));
    }
    let n = list.len();
    let mut i: usize = 0;
    while i < n
        invariant
            i <= n,
            n == ps.len(),
            ps == list.pairs(),
            out@ == seq!['{'] + members_chars(ps.take(i as int)),
        decreases n - i,
    {
        if i > 0 {
            out.append(",");
        }
        out.append("\"");
        push_escaped(&mut out, list.name_at(i).as_str());
        out.append("\":");
        push_i32(&mut out, list.quantity_at(i));
        proof {
            reveal_strlit(",");
            reveal_strlit("\"");
            reveal_strlit("\":");
            assert((",")@ =~= seq![',']);
            assert(("\"")@ =~= seq!['"']);
            assert(("\":")@ =~= seq!['"', ':']);
            assert(ps.take(i as int + 1).drop_last() =~= ps.take(i as int));
            assert(ps.take(i as int + 1).last() == ps[i as int]);
            assert(out@ =~= seq!['{'] + members_chars(ps.take(i as int + 1)));
        }
        i += 1;
    }
    out.append("}");
    proof {
        reveal_strlit("}");
        assert(("}")@ =~= seq!['}']);
        assert(ps.take(n as int) =~= ps);
        assert(out@ =~= render_spec(list.pairs()));
    }
    out
}

} // verus!
