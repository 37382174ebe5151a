//! JSON string bodies: escaping text on the way out and reading an
//! escaped body back.

use vstd::prelude::*;
use crate::num::{digit_char, digit_val, is_digit};

verus! {

/// The hexadecimal digit character for a value in 0..16 (lower case).
pub open spec fn hex_char(d: int) -> char {
    if d < 10 {
        digit_char(d)
    } else {
        ((d + 87) as u32) as char
    }
}

/// Whether `c` is a hexadecimal digit, either case.
pub open spec fn is_hex(c: char) -> bool {
    is_digit(c) || (97 <= c as u32 <= 102) || (65 <= c as u32 <= 70)
}

/// The value of a hexadecimal digit character.
pub open spec fn hex_val(c: char) -> int {
    if is_digit(c) {
        digit_val(c)
    } else if 97 <= c as u32 {
        c as u32 - 87
    } else {
        c as u32 - 55
    }
}

/// The character with the given scalar value.
pub open spec fn code_char(v: int) -> char {
    (v as u32) as char
}

/// The escape sequence for one character of a string body: quote,
/// backslash and control characters are escaped, everything else
/// stands for itself.
pub open spec fn esc_char(c: char) -> Seq<char> {
    if c == '"' {
        seq!['\\', '"']
    } else if c == '\\' {
        seq!['\\', '\\']
    } else if c == '\u{8}' {
        seq!['\\', 'b']
    } else if c == '\u{c}' {
        seq!['\\', 'f']
    } else if c == '\n' {
        seq!['\\', 'n']
    } else if c == '\r' {
        seq!['\\', 'r']
    } else if c == '\t' {
        seq!['\\', 't']
    } else if (c as u32) < 32 {
        seq!['\\', 'u', '0', '0', hex_char(c as u32 as int / 16), hex_char(c as u32 as int % 16)]
    } else {
        seq![c]
    }
}

/// The escaped form of a whole string body.
pub open spec fn esc(s: Seq<char>) -> Seq<char>
    decreases s.len(),
{
    if s.len() == 0 {
        Seq::empty()
    } else {
        esc_char(s[0]) + esc(s.drop_first())
    }
}

/// Escaping one more character at the end extends the escaped text.
pub proof fn lemma_esc_snoc(s: Seq<char>, c: char)
    ensures
        esc(s.push(c)) == esc(s) + esc_char(c),
    decreases s.len(),
{
    if s.len() == 0 {
        let p = s.push(c);
        assert(p[0] == c);
        assert(p.drop_first() =~= Seq::<char>::empty());
        assert(s =~= Seq::<char>::empty());
        assert(esc(Seq::<char>::empty()) =~= Seq::<char>::empty());
        assert(esc(p) == esc_char(c) + esc(p.drop_first()));
        assert(esc(s.push(c)) =~= esc(s) + esc_char(c));
    } else {
        lemma_esc_snoc(s.drop_first(), c);
        assert(s.push(c).drop_first() =~= s.drop_first().push(c));
        assert(esc(s.push(c)) =~= esc(s) + esc_char(c));
    }
}

/// The character a one-letter escape stands for, if the letter is a
/// valid one.
pub open spec fn unescape1(e: char) -> Option<char> {
    if e == '"' {
        Option::Some('"')
    } else if e == '\\' {
        Option::Some('\\')
    } else if e == '/' {
        Option::Some('/')
    } else if e == 'b' {
        Option::Some('\u{8}')
    } else if e == 'f' {
        Option::Some('\u{c}')
    } else if e == 'n' {
        Option::Some('\n')
    } else if e == 'r' {
        Option::Some('\r')
    } else if e == 't' {
        Option::Some('\t')
    } else {
        Option::None
    }
}

/// Prepends a character to the text of a successful parse.
pub open spec fn cons_char(c: char, r: Option<(Seq<char>, int)>) -> Option<(Seq<char>, int)> {
    match r {
        Option::Some(p) => Option::Some((seq![c] + p.0, p.1)),
        Option::None => Option::None,
    }
}

/// Reads a string body starting at `i`, up to and including its closing
/// quote: the text it stands for and the position after the quote.
pub open spec fn sp_string_body(s: Seq<char>, i: int) -> Option<(Seq<char>, int)>
    decreases s.len() - i,
{
    if i < 0 || i >= s.len() {
        Option::None
    } else if s[i] == '"' {
        Option::Some((Seq::empty(), i + 1))
    } else if s[i] == '\\' {
        if i + 1 < s.len() {
            if s[i + 1] == 'u' {
                if i + 5 < s.len() && s[i + 2] == '0' && s[i + 3] == '0' && is_hex(s[i + 4])
                    && is_hex(s[i + 5]) {
                    cons_char(
                        code_char(16 * hex_val(s[i + 4]) + hex_val(s[i + 5])),
                        sp_string_body(s, i + 6),
                    )
                } else {
                    Option::None
                }
            } else {
                match unescape1(s[i + 1]) {
                    Option::Some(c) => cons_char(c, sp_string_body(s, i + 2)),
                    Option::None => Option::None,
                }
            }
        } else {
            Option::None
        }
    } else {
        cons_char(s[i], sp_string_body(s, i + 1))
    }
}

/// A parsed string body ends inside the text, past where it began.
pub proof fn lemma_string_body_bounds(s: Seq<char>, i: int)
    requires
        sp_string_body(s, i) is Some,
    ensures
        i < sp_string_body(s, i)->Some_0.1 <= s.len(),
    decreases s.len() - i,
{
    if 0 <= i < s.len() {
        if s[i] == '"' {
        } else if s[i] == '\\' {
            if i + 1 < s.len() {
                if s[i + 1] == 'u' {
                    lemma_string_body_bounds(s, i + 6);
                } else {
                    lemma_string_body_bounds(s, i + 2);
                }
            }
        } else {
            lemma_string_body_bounds(s, i + 1);
        }
    }
}

/// Lower-case hexadecimal digits name their value and read back to it.
pub proof fn lemma_hex_char_val(d: int)
    requires
        0 <= d < 16,
    ensures
        is_hex(hex_char(d)),
        hex_val(hex_char(d)) == d,
{
}

/// Where the text at `i` spells out the escaped form of `body` followed
/// by a closing quote, the string body read there is exactly `body`.
pub proof fn lemma_esc_round_trip(s: Seq<char>, i: int, body: Seq<char>)
    requires
        0 <= i,
        i + esc(body).len() + 1 <= s.len(),
        s.subrange(i, i + esc(body).len()) =~= esc(body),
        s[i + esc(body).len()] == '"',
    ensures
        sp_string_body(s, i) == Option::Some((body, i + esc(body).len() + 1)),
    decreases body.len(),
{
    if body.len() == 0 {
        assert(esc(body).len() == 0);
        assert(s[i] == '"');
        assert(body =~= Seq::<char>::empty());
    } else {
        let c = body[0];
        let e0 = esc_char(c);
        let k = e0.len();
        let rest = body.drop_first();
        assert(esc(body) == e0 + esc(rest));
        let el = esc(body).len() as int;
        let m = s.subrange(i, i + el);
        assert(forall|t: int| 0 <= t < el ==> m[t] == #[trigger] s[i + t]);
        assert(forall|t: int| 0 <= t < k ==> esc(body)[t] == e0[t]);
        assert(forall|t: int| 0 <= t < esc(rest).len() ==> esc(body)[k + t] == esc(rest)[t]);
        assert(s.subrange(i + k, i + k + esc(rest).len()) =~= esc(rest)) by {
            assert(forall|t: int|
                0 <= t < esc(rest).len() ==> s.subrange(i + k, i + k + esc(rest).len())[t]
                    == #[trigger] s[i + k + t]);
        }
        assert(m[0] == s[i + 0] && m[0] == esc(body)[0]);
        assert(s[i] == e0[0]);
        if k >= 2 {
            assert(m[1] == s[i + 1] && m[1] == esc(body)[1]);
            assert(s[i + 1] == e0[1]);
        }
        if k == 6 {
            assert(m[2] == s[i + 2] && m[2] == esc(body)[2]);
            assert(m[3] == s[i + 3] && m[3] == esc(body)[3]);
            assert(m[4] == s[i + 4] && m[4] == esc(body)[4]);
            assert(m[5] == s[i + 5] && m[5] == esc(body)[5]);
            assert(s[i + 2] == e0[2] && s[i + 3] == e0[3] && s[i + 4] == e0[4] && s[i + 5]
                == e0[5]);
        }
        lemma_esc_round_trip(s, i + k, rest);
        if c == '"' || c == '\\' || c == '\u{8}' || c == '\u{c}' || c == '\n' || c == '\r'
            || c == '\t' {
            assert(s[i] == '\\');
            assert(unescape1(s[i + 1]) == Option::Some(c));
            assert(sp_string_body(s, i) == cons_char(c, sp_string_body(s, i + 2)));
            assert(seq![c] + rest =~= body);
        } else if (c as u32) < 32 {
            let v = c as u32 as int;
            assert(s[i] == '\\' && s[i + 1] == 'u' && s[i + 2] == '0' && s[i + 3] == '0');
            assert(s[i + 4] == hex_char(v / 16) && s[i + 5] == hex_char(v % 16));
            lemma_hex_char_val(v / 16);
            lemma_hex_char_val(v % 16);
            assert(16 * (v / 16) + v % 16 == v) by {
                vstd::arithmetic::div_mod::lemma_fundamental_div_mod(v, 16);
            }
            vstd::utf8::char_u32_cast(c, c as u32);
            assert(code_char(16 * hex_val(s[i + 4]) + hex_val(s[i + 5])) == c);
            assert(sp_string_body(s, i) == cons_char(c, sp_string_body(s, i + 6)));
            assert(seq![c] + rest =~= body);
        } else {
            assert(s[i] == c);
            assert(sp_string_body(s, i) == cons_char(c, sp_string_body(s, i + 1)));
            assert(seq![c] + rest =~= body);
        }
    }
}

/// Relies on String::push: appends the given character to the end of
/// the string.
#[verifier::external_body]
pub fn push_char(s: &mut String, c: char)
    ensures
        final(s)@ == old(s)@.push(c),
{
    s.push(c);
}

/// The string of hexadecimal digit characters for `d` in 0..16.
fn hex_str(d: usize) -> (r: &'static str)
    requires
        d < 16,
    ensures
        r@ =~= seq![hex_char(d as int)],
{
    proof {
        reveal_strlit("0");
        reveal_strlit("1");
        reveal_strlit("2");
        reveal_strlit("3");
        reveal_strlit("4");
        reveal_strlit("5");
        reveal_strlit("6");
        reveal_strlit("7");
        reveal_strlit("8");
        reveal_strlit("9");
        reveal_strlit("a");
        reveal_strlit("b");
        reveal_strlit("c");
        reveal_strlit("d");
        reveal_strlit("e");
        reveal_strlit("f");
    }
    match d {
        0 => "0",
        1 => "1",
        2 => "2",
        3 => "3",
        4 => "4",
        5 => "5",
        6 => "6",
        7 => "7",
        8 => "8",
        9 => "9",
        10 => "a",
        11 => "b",
        12 => "c",
        13 => "d",
        14 => "e",
        _ => "f",
    }
}

/// Appends the escaped form of `s` to `out`.
pub fn escape_into(out: &mut String, s: &str)
    ensures
        final(out)@ == old(out)@ + esc(s@),
{
    let len = s.unicode_len();
    let mut i: usize = 0;
    while i < len
        invariant
            len == s@.len(),
            i <= len,
            out@ == old(out)@ + esc(s@.take(i as int)),
        decreases len - i,
    {
        let c = s.get_char(i);
        proof {
            assert(s@.take(i as int).push(c) =~= s@.take(i as int + 1));
            lemma_esc_snoc(s@.take(i as int), c);
        }
        if c == '"' {
            out.append("\\\"");
            proof {
                reveal_strlit("\\\"");
                assert("\\\""@ =~= esc_char(c));
            }
        } else if c == '\\' {
            out.append("\\\\");
            proof {
                reveal_strlit("\\\\");
                assert("\\\\"@ =~= esc_char(c));
            }
        } else if c == '\u{8}' {
            out.append("\\b");
            proof {
                reveal_strlit("\\b");
                assert("\\b"@ =~= esc_char(c));
            }
        } else if c == '\u{c}' {
            out.append("\\f");
            proof {
                reveal_strlit("\\f");
                assert("\\f"@ =~= esc_char(c));
            }
        } else if c == '\n' {
            out.append("\\n");
            proof {
                reveal_strlit("\\n");
                assert("\\n"@ =~= esc_char(c));
            }
        } else if c == '\r' {
            out.append("\\r");
            proof {
                reveal_strlit("\\r");
                assert("\\r"@ =~= esc_char(c));
            }
        } else if c == '\t' {
            out.append("\\t");
            proof {
                reveal_strlit("\\t");
                assert("\\t"@ =~= esc_char(c));
            }
        } else {
            let v = c as u32;
            if v < 32 {
                out.append("\\u00");
                out.append(hex_str((v / 16) as usize));
                out.append(hex_str((v % 16) as usize));
                proof {
                    reveal_strlit("\\u00");
                    assert("\\u00"@ + seq![hex_char(v as int / 16)] + seq![
                        hex_char(v as int % 16),
                    ] =~= esc_char(c));
                }
            } else {
                push_char(out, c);
                proof {
                    assert(seq![c] =~= esc_char(c));
                }
            }
        }
        proof {
            assert(out@ =~= old(out)@ + esc(s@.take(i as int + 1)));
        }
        i = i + 1;
    }
    proof {
        assert(s@.take(len as int) =~= s@);
    }
}

/// Whether `c` is a hexadecimal digit.
fn is_hex_digit(c: char) -> (b: bool)
    ensures
        b == is_hex(c),
{
    let v = c as u32;
    (48 <= v && v <= 57) || (97 <= v && v <= 102) || (65 <= v && v <= 70)
}

/// The value of a hexadecimal digit character.
fn hex_digit_val(c: char) -> (r: u32)
    requires
        is_hex(c),
    ensures
        r as int == hex_val(c),
        r < 16,
{
    let v = c as u32;
    if v <= 57 {
        v - 48
    } else if v >= 97 {
        v - 87
    } else {
        v - 55
    }
}

/// The character a one-letter escape stands for, if the letter is a
/// valid one.
fn unescape_char(e: char) -> (r: Option<char>)
    ensures
        r == unescape1(e),
{
    if e == '"' {
        Some('"')
    } else if e == '\\' {
        Some('\\')
    } else if e == '/' {
        Some('/')
    } else if e == 'b' {
        Some('\u{8}')
    } else if e == 'f' {
        Some('\u{c}')
    } else if e == 'n' {
        Some('\n')
    } else if e == 'r' {
        Some('\r')
    } else if e == 't' {
        Some('\t')
    } else {
        None
    }
}

/// Reads a string body starting at `i`, up to and including its closing
/// quote.
pub fn p_string_body(s: &str, len: usize, i: usize) -> (r: Option<(String, usize)>)
    requires
        len == s@.len(),
        i <= len,
    ensures
        match r {
            Option::Some(p) => sp_string_body(s@, i as int) == Option::Some((p.0@, p.1 as int))
                && i < p.1 <= len,
            Option::None => sp_string_body(s@, i as int) is None,
        },
    decreases len - i,
{
    if i >= len {
        return None;
    }
    let c = s.get_char(i);
    if c == '"' {
        Some((String::new(), i + 1))
    } else if c == '\\' {
        if i + 1 < len {
            let e = s.get_char(i + 1);
            if e == 'u' {
                if len - (i + 1) >= 5 {
                    let c2 = s.get_char(i + 2);
                    let c3 = s.get_char(i + 3);
                    let h1 = s.get_char(i + 4);
                    let h0 = s.get_char(i + 5);
                    if c2 == '0' && c3 == '0' && is_hex_digit(h1) && is_hex_digit(h0) {
                        let v: u32 = 16 * hex_digit_val(h1) + hex_digit_val(h0);
                        let ch = (v as u8) as char;
                        proof {
                            assert(ch == code_char(16 * hex_val(s@[i as int + 4]) + hex_val(
                                s@[i as int + 5],
                            )));
                        }
                        match p_string_body(s, len, i + 6) {
                            Some((tail, j)) => {
                                let mut w = String::new();
                                push_char(&mut w, ch);
                                w.append(tail.as_str());
                                proof {
                                    assert(w@ =~= seq![ch] + tail@);
                                }
                                Some((w, j))
                            },
                            None => None,
                        }
                    } else {
                        None
                    }
                } else {
                    None
                }
            } else {
                match unescape_char(e) {
                    Some(u) => {
                        match p_string_body(s, len, i + 2) {
                            Some((tail, j)) => {
                                let mut w = String::new();
                                push_char(&mut w, u);
                                w.append(tail.as_str());
                                proof {
                                    assert(w@ =~= seq![u] + tail@);
                                }
                                Some((w, j))
                            },
                            None => None,
                        }
                    },
                    None => None,
                }
            }
        } else {
            None
        }
    } else {
        match p_string_body(s, len, i + 1) {
            Some((tail, j)) => {
                let mut w = String::new();
                push_char(&mut w, c);
                w.append(tail.as_str());
                proof {
                    assert(w@ =~= seq![c] + tail@);
                }
                Some((w, j))
            },
            None => None,
        }
    }
}

} // verus!
