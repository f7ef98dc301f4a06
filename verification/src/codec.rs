use vstd::prelude::*;

use vstd::string::StrSliceExecFns;
use vstd::string::StringExecFns;

use crate::strutil::{
    hex_char, hex_char_spec, hex_val, hex_val_spec, lemma_hex_round_trip, lemma_hex_val_char,
    push_char,
};

verus! {

/// A character that a quoted value writes as itself: anything but the
/// quote, the backslash, the control characters and delete.
pub open spec fn is_literal_char(c: char) -> bool {
    c != '"' && c != '\\' && c as int >= 0x20 && c as int != 0x7f
}

/// A code written with a `\u` escape: the control characters that have
/// no short escape of their own, and delete.
pub open spec fn is_u_escape_code(n: int) -> bool {
    (0 <= n < 0x20 && n != 0x0a && n != 0x0d && n != 0x09) || n == 0x7f
}

/// How one character is written inside a quoted value.
pub open spec fn esc_char(c: char) -> Seq<char> {
    if c == '"' {
        seq!['\\', '"']
    } else if c == '\\' {
        seq!['\\', '\\']
    } else if c == '\n' {
        seq!['\\', 'n']
    } else if c == '\r' {
        seq!['\\', 'r']
    } else if c == '\t' {
        seq!['\\', 't']
    } else if (c as int) < 0x20 || c as int == 0x7f {
        seq!['\\', 'u', '0', '0', hex_char_spec(c as int / 16), hex_char_spec(c as int % 16)]
    } else {
        seq![c]
    }
}

/// How a whole value is written inside a quoted value.
pub open spec fn esc(s: Seq<char>) -> Seq<char>
    decreases s.len(),
{
    if s.len() == 0 {
        Seq::empty()
    } else {
        esc_char(s[0]) + esc(s.drop_first())
    }
}

/// The character a short escape letter stands for.
pub open spec fn unesc_short(e: char) -> char {
    if e == 'n' {
        '\n'
    } else if e == 'r' {
        '\r'
    } else if e == 't' {
        '\t'
    } else {
        e
    }
}

/// Reads a quoted value from the front of `s` up to its closing quote:
/// the value, and what follows the quote. None where the text is not in
/// the exact form that `esc` writes.
pub open spec fn dec(s: Seq<char>) -> Option<(Seq<char>, Seq<char>)>
    decreases s.len(),
{
    if s.len() == 0 {
        None
    } else if s[0] == '"' {
        Some((Seq::empty(), s.drop_first()))
    } else if s[0] == '\\' {
        if s.len() < 2 {
            None
        } else if s[1] == '\\' || s[1] == '"' || s[1] == 'n' || s[1] == 'r' || s[1] == 't' {
            match dec(s.skip(2)) {
                Some(p) => Some((seq![unesc_short(s[1])] + p.0, p.1)),
                None => None,
            }
        } else if s[1] == 'u' {
            if s.len() < 6 {
                None
            } else {
                match (hex_val_spec(s[2]), hex_val_spec(s[3]), hex_val_spec(s[4]), hex_val_spec(
                    s[5],
                )) {
                    (Some(d0), Some(d1), Some(d2), Some(d3)) => {
                        let code = d0 * 4096 + d1 * 256 + d2 * 16 + d3;
                        if is_u_escape_code(code) {
                            match dec(s.skip(6)) {
                                Some(p) => Some((seq![code as char] + p.0, p.1)),
                                None => None,
                            }
                        } else {
                            None
                        }
                    },
                    _ => None,
                }
            }
        } else {
            None
        }
    } else if is_literal_char(s[0]) {
        match dec(s.drop_first()) {
            Some(p) => Some((seq![s[0]] + p.0, p.1)),
            None => None,
        }
    } else {
        None
    }
}

/// Writing a value with `esc`, closing the quote, and reading it back
/// with `dec` gives the value and the text after the quote.
pub proof fn lemma_dec_esc(v: Seq<char>, tail: Seq<char>)
    ensures
        dec(esc(v) + seq!['"'] + tail) == Some((v, tail)),
    decreases v.len(),
{
    let s = esc(v) + seq!['"'] + tail;
    if v.len() == 0 {
        assert(s =~= seq!['"'] + tail);
        assert(s[0] == '"');
        assert(s.drop_first() =~= tail);
    } else {
        let c = v[0];
        let rest = esc(v.drop_first()) + seq!['"'] + tail;
        lemma_dec_esc(v.drop_first(), tail);
        assert(s =~= esc_char(c) + rest);
        if c == '"' || c == '\\' || c == '\n' || c == '\r' || c == '\t' {
            assert(s[0] == '\\');
            assert(s.skip(2) =~= rest);
            assert(unesc_short(s[1]) == c);
            assert(seq![c] + v.drop_first() =~= v);
        } else if (c as int) < 0x20 || c as int == 0x7f {
            assert(s.skip(6) =~= rest);
            let n = c as int;
            vstd::utf8::char_is_scalar(c);
            vstd::utf8::char_u32_cast(c, c as u32);
            assert(0 <= n <= 0x7f);
            assert(0 <= n / 16 < 16 && 0 <= n % 16 < 16 && n == (n / 16) * 16 + n % 16)
                by (nonlinear_arith)
                requires
                    0 <= n <= 0x7f,
            ;
            lemma_hex_round_trip(c as int / 16);
            lemma_hex_round_trip(c as int % 16);
            assert(c as int == (c as int / 16) * 16 + c as int % 16);
            let code = 0 * 4096 + 0 * 256 + (c as int / 16) * 16 + c as int % 16;
            assert(code == c as int);
            assert(is_u_escape_code(code));
            assert(code as char == c);
            assert(seq![c] + v.drop_first() =~= v);
        } else {
            assert(is_literal_char(c));
            assert(s.drop_first() =~= rest);
            assert(seq![c] + v.drop_first() =~= v);
        }
    }
}

/// `dec` reads only what `esc` writes: any successful read comes from
/// the one text that writes its result.
pub proof fn lemma_dec_inv(s: Seq<char>, v: Seq<char>, r: Seq<char>)
    requires
        dec(s) == Some((v, r)),
    ensures
        s == esc(v) + seq!['"'] + r,
    decreases s.len(),
{
    if s[0] == '"' {
        assert(v =~= Seq::<char>::empty());
        assert(esc(v) + seq!['"'] + r =~= seq!['"'] + s.drop_first());
        assert(s =~= seq!['"'] + s.drop_first());
    } else if s[0] == '\\' {
        let e = s[1];
        if e == '\\' || e == '"' || e == 'n' || e == 'r' || e == 't' {
            let p = dec(s.skip(2))->Some_0;
            lemma_dec_inv(s.skip(2), p.0, p.1);
            let c = unesc_short(e);
            assert(v == seq![c] + p.0);
            assert(v[0] == c);
            assert(v.drop_first() =~= p.0);
            assert(esc_char(c) =~= seq!['\\', e]);
            assert(esc(v) == esc_char(c) + esc(p.0));
            assert(s =~= seq!['\\', e] + s.skip(2));
            assert(s =~= esc(v) + seq!['"'] + r);
        } else {
            // the `u` escape
            let d0 = hex_val_spec(s[2])->Some_0;
            let d1 = hex_val_spec(s[3])->Some_0;
            let d2 = hex_val_spec(s[4])->Some_0;
            let d3 = hex_val_spec(s[5])->Some_0;
            lemma_hex_val_char(s[2], d0);
            lemma_hex_val_char(s[3], d1);
            lemma_hex_val_char(s[4], d2);
            lemma_hex_val_char(s[5], d3);
            let code = d0 * 4096 + d1 * 256 + d2 * 16 + d3;
            let p = dec(s.skip(6))->Some_0;
            lemma_dec_inv(s.skip(6), p.0, p.1);
            let c = code as char;
            assert(c as int == code);
            assert(d0 == 0 && d1 == 0);
            assert(code / 16 == d2 && code % 16 == d3) by (nonlinear_arith)
                requires
                    code == d2 * 16 + d3,
                    0 <= d3 < 16,
                    0 <= d2,
            ;
            assert(c != '"' && c != '\\' && c != '\n' && c != '\r' && c != '\t');
            assert(esc_char(c) =~= seq!['\\', 'u', '0', '0', s[4], s[5]]);
            assert(v == seq![c] + p.0);
            assert(v[0] == c);
            assert(v.drop_first() =~= p.0);
            assert(esc(v) == esc_char(c) + esc(p.0));
            assert(s =~= s.subrange(0, 6) + s.skip(6));
            assert(s.subrange(0, 6) =~= seq!['\\', 'u', '0', '0', s[4], s[5]]);
            assert(s =~= esc(v) + seq!['"'] + r);
        }
    } else {
        let p = dec(s.drop_first())->Some_0;
        lemma_dec_inv(s.drop_first(), p.0, p.1);
        let c = s[0];
        assert(v == seq![c] + p.0);
        assert(v[0] == c);
        assert(v.drop_first() =~= p.0);
        assert(esc_char(c) =~= seq![c]);
        assert(esc(v) == esc_char(c) + esc(p.0));
        assert(s =~= seq![c] + s.drop_first());
        assert(s =~= esc(v) + seq!['"'] + r);
    }
}

/// `esc` writes a concatenation piece by piece.
pub proof fn lemma_esc_concat(a: Seq<char>, b: Seq<char>)
    ensures
        esc(a + b) == esc(a) + esc(b),
    decreases a.len(),
{
    if a.len() == 0 {
        assert(a + b =~= b);
        assert(esc(a) + esc(b) =~= esc(b));
    } else {
        lemma_esc_concat(a.drop_first(), b);
        assert((a + b).len() > 0);
        assert((a + b)[0] == a[0]);
        assert((a + b).drop_first() =~= a.drop_first() + b);
        assert(esc(a + b) =~= esc_char(a[0]) + esc(a.drop_first()) + esc(b));
        assert(esc(a) + esc(b) =~= esc_char(a[0]) + esc(a.drop_first()) + esc(b));
    }
}

/// The text before the first value: the key of the server URL and its
/// opening quote.
pub open spec fn hdr() -> Seq<char> {
    "server_url = \""@
}

/// The text between the two values, after the first closing quote: the
/// key of the API key and its opening quote.
pub open spec fn mid1() -> Seq<char> {
    "\napi_key = \""@
}

pub open spec fn quote() -> Seq<char> {
    "\""@
}

pub open spec fn nl() -> Seq<char> {
    "\n"@
}

/// The one text that this format writes for a pair of values: each value
/// quoted and escaped, under its fixed key, one line each.
pub open spec fn render_spec(u: Seq<char>, k: Seq<char>) -> Seq<char> {
    hdr() + esc(u) + quote() + mid1() + esc(k) + quote() + nl()
}

/// What a text means under this format: the two values whose rendering
/// the text is, if it is one.
pub open spec fn parse_spec(s: Seq<char>) -> Option<(Seq<char>, Seq<char>)> {
    if hdr().len() <= s.len() && s.subrange(0, hdr().len() as int) == hdr() {
        match dec(s.skip(hdr().len() as int)) {
            Some(p1) => {
                let r1 = p1.1;
                if mid1().len() <= r1.len() && r1.subrange(0, mid1().len() as int) == mid1() {
                    match dec(r1.skip(mid1().len() as int)) {
                        Some(p2) => if p2.1 == nl() {
                            Some((p1.0, p2.0))
                        } else {
                            None
                        },
                        None => None,
                    }
                } else {
                    None
                }
            },
            None => None,
        }
    } else {
        None
    }
}

/// Reading back the rendered text gives exactly the two values that
/// were written: the format round-trips every pair of strings.
pub proof fn lemma_parse_render(u: Seq<char>, k: Seq<char>)
    ensures
        parse_spec(render_spec(u, k)) == Some((u, k)),
{
    reveal_strlit("\"");
    reveal_strlit("\n");
    assert(quote() =~= seq!['"']);
    assert(nl() =~= seq!['\n']);
    let s = render_spec(u, k);
    let tail1 = mid1() + esc(k) + quote() + nl();
    lemma_dec_esc(u, tail1);
    lemma_dec_esc(k, nl());
    assert(s.subrange(0, hdr().len() as int) =~= hdr());
    assert(s.skip(hdr().len() as int) =~= esc(u) + seq!['"'] + tail1);
    assert(tail1.subrange(0, mid1().len() as int) =~= mid1());
    assert(tail1.skip(mid1().len() as int) =~= esc(k) + seq!['"'] + nl());
}

/// A text that this format reads is the rendering of what it read:
/// no two texts mean the same pair of values.
pub proof fn lemma_parse_canonical(s: Seq<char>, u: Seq<char>, k: Seq<char>)
    requires
        parse_spec(s) == Some((u, k)),
    ensures
        s == render_spec(u, k),
{
    reveal_strlit("\"");
    reveal_strlit("\n");
    assert(quote() =~= seq!['"']);
    assert(nl() =~= seq!['\n']);
    let t = s.skip(hdr().len() as int);
    let p1 = dec(t)->Some_0;
    let r1 = p1.1;
    let t2 = r1.skip(mid1().len() as int);
    let p2 = dec(t2)->Some_0;
    lemma_dec_inv(t, p1.0, p1.1);
    lemma_dec_inv(t2, p2.0, p2.1);
    assert(u == p1.0 && k == p2.0);
    assert(p2.1 == nl());
    assert(t2 =~= esc(k) + quote() + nl());
    assert(r1 =~= r1.subrange(0, mid1().len() as int) + t2);
    assert(r1 =~= mid1() + esc(k) + quote() + nl());
    assert(t =~= esc(u) + quote() + r1);
    assert(s =~= s.subrange(0, hdr().len() as int) + t);
    assert(s =~= render_spec(u, k));
}

fn append_escaped_char(out: &mut String, c: char)
    ensures
        final(out)@ == old(out)@ + esc_char(c),
{
    if c == '"' {
        out.append("\\\"");
        proof {
            reveal_strlit("\\\"");
            assert("\\\""@ =~= seq!['\\', '"']);
            assert(out@ =~= old(out)@ + esc_char(c));
        }
    } else if c == '\\' {
        out.append("\\\\");
        proof {
            reveal_strlit("\\\\");
            assert("\\\\"@ =~= seq!['\\', '\\']);
            assert(out@ =~= old(out)@ + esc_char(c));
        }
    } else if c == '\n' {
        out.append("\\n");
        proof {
            reveal_strlit("\\n");
            assert("\\n"@ =~= seq!['\\', 'n']);
            assert(out@ =~= old(out)@ + esc_char(c));
        }
    } else if c == '\r' {
        out.append("\\r");
        proof {
            reveal_strlit("\\r");
            assert("\\r"@ =~= seq!['\\', 'r']);
            assert(out@ =~= old(out)@ + esc_char(c));
        }
    } else if c == '\t' {
        out.append("\\t");
        proof {
            reveal_strlit("\\t");
            assert("\\t"@ =~= seq!['\\', 't']);
            assert(out@ =~= old(out)@ + esc_char(c));
        }
    } else {
        let u = c as u32;
        proof {
            vstd::utf8::char_is_scalar(c);
        }
        if u < 0x20 || u == 0x7f {
            out.append("\\u00");
            assert(u / 16 < 16 && u % 16 < 16) by (nonlinear_arith)
                requires
                    u <= 0x7f,
            ;
            let hi = hex_char((u / 16) as u8);
            let lo = hex_char((u % 16) as u8);
            push_char(out, hi);
            push_char(out, lo);
            proof {
                reveal_strlit("\\u00");
                assert("\\u00"@ =~= seq!['\\', 'u', '0', '0']);
                assert(c as int / 16 == u as int / 16 && c as int % 16 == u as int % 16);
                assert(out@ =~= old(out)@ + esc_char(c));
            }
        } else {
            push_char(out, c);
            proof {
                assert(esc_char(c) =~= seq![c]);
                assert(out@ =~= old(out)@ + esc_char(c));
            }
        }
    }
}

fn append_escaped(out: &mut String, s: &str)
    ensures
        final(out)@ == old(out)@ + esc(s@),
{
    let n = s.unicode_len();
    let mut i: usize = 0;
    proof {
        assert(s@.subrange(0, 0) =~= Seq::<char>::empty());
        assert(out@ =~= old(out)@ + esc(s@.subrange(0, 0)));
    }
    while i < n
        invariant
            n == s@.len(),
            i <= n,
            out@ == old(out)@ + esc(s@.subrange(0, i as int)),
        decreases n - i,
    {
        let c = s.get_char(i);
        append_escaped_char(out, c);
        proof {
            lemma_esc_concat(s@.subrange(0, i as int), seq![c]);
            assert(seq![c].drop_first() =~= Seq::<char>::empty());
            assert(esc(Seq::<char>::empty()) =~= Seq::<char>::empty());
            assert(esc(seq![c]) == esc_char(c) + esc(Seq::<char>::empty()));
            assert(esc(seq![c]) =~= esc_char(c));
            assert(s@.subrange(0, i as int) + seq![c] =~= s@.subrange(0, i as int + 1));
        }
        i = i + 1;
    }
    proof {
        assert(s@.subrange(0, n as int) =~= s@);
    }
}

/// Writes the two values in the configuration text format, exactly as
/// `render_spec` describes it.
pub fn render(server_url: &str, api_key: &str) -> (r: String)
    ensures
        r@ == render_spec(server_url@, api_key@),
{
    let mut out = String::new();
    out.append("server_url = \"");
    append_escaped(&mut out, server_url);
    out.append("\"\napi_key = \"");
    append_escaped(&mut out, api_key);
    out.append("\"\n");
    proof {
        reveal_strlit("\"\napi_key = \"");
        reveal_strlit("\napi_key = \"");
        reveal_strlit("\"\n");
        reveal_strlit("\"");
        reveal_strlit("\n");
        assert("\"\napi_key = \""@ =~= quote() + mid1());
        assert("\"\n"@ =~= quote() + nl());
        assert(out@ =~= render_spec(server_url@, api_key@));
    }
    out
}

/// `dec`'s result with a decoded prefix put before the value.
pub open spec fn dec_prepend(pre: Seq<char>, d: Option<(Seq<char>, Seq<char>)>) -> Option<
    (Seq<char>, Seq<char>),
> {
    match d {
        Some(p) => Some((pre + p.0, p.1)),
        None => None,
    }
}

proof fn lemma_prepend_compose(a: Seq<char>, b: Seq<char>, d: Option<(Seq<char>, Seq<char>)>)
    ensures
        dec_prepend(a, dec_prepend(b, d)) == dec_prepend(a + b, d),
{
    match d {
        Some(p) => {
            assert(a + (b + p.0) =~= (a + b) + p.0);
        },
        None => {},
    }
}

/// Whether `s` holds the text of `lit`, character for character,
/// starting at position `i`.
fn starts_with_at(s: &str, i: usize, lit: &str) -> (b: bool)
    requires
        i <= s@.len(),
    ensures
        b == (i + lit@.len() <= s@.len() && s@.subrange(i as int, i + lit@.len()) == lit@),
{
    let n = s.unicode_len();
    let m = lit.unicode_len();
    if m > n - i {
        return false;
    }
    let mut j: usize = 0;
    while j < m
        invariant
            n == s@.len(),
            m == lit@.len(),
            i + m <= n,
            j <= m,
            forall|jj: int| 0 <= jj < j ==> s@[i + jj] == lit@[jj],
        decreases m - j,
    {
        if s.get_char(i + j) != lit.get_char(j) {
            proof {
                assert(s@.subrange(i as int, i + lit@.len())[j as int] != lit@[j as int]);
            }
            return false;
        }
        j = j + 1;
    }
    proof {
        assert(s@.subrange(i as int, i + lit@.len()) =~= lit@);
    }
    true
}

/// Reads a quoted value out of `s` from position `start` up to its
/// closing quote, exactly as `dec` describes it: the value with its
/// escapes undone, and the position after the quote.
fn decode_value(s: &str, start: usize) -> (r: Option<(String, usize)>)
    requires
        start <= s@.len(),
    ensures
        match r {
            Some(p) => {
                &&& start <= p.1 <= s@.len()
                &&& dec(s@.skip(start as int)) == Some((p.0@, s@.skip(p.1 as int)))
            },
            None => dec(s@.skip(start as int)) is None,
        },
{
    let n = s.unicode_len();
    let mut i: usize = start;
    let mut acc = String::new();
    proof {
        match dec(s@.skip(start as int)) {
            Some(p) => {
                assert(Seq::<char>::empty() + p.0 =~= p.0);
            },
            None => {},
        }
    }
    loop
        invariant
            n == s@.len(),
            start <= i <= n,
            dec(s@.skip(start as int)) == dec_prepend(acc@, dec(s@.skip(i as int))),
        decreases n - i,
    {
        if i >= n {
            proof {
                assert(s@.skip(i as int).len() == 0);
            }
            return None;
        }
        let ghost t = s@.skip(i as int);
        proof {
            assert(t.len() > 0);
            assert(t[0] == s@[i as int]);
        }
        let c = s.get_char(i);
        if c == '"' {
            proof {
                assert(t.drop_first() =~= s@.skip(i + 1));
                assert(dec(t) == Some((Seq::<char>::empty(), s@.skip(i + 1))));
                assert(acc@ + Seq::<char>::empty() =~= acc@);
            }
            return Some((acc, i + 1));
        } else if c == '\\' {
            if i + 1 >= n {
                proof {
                    assert(t.len() < 2);
                }
                return None;
            }
            proof {
                assert(t[1] == s@[i + 1]);
            }
            let e = s.get_char(i + 1);
            if e == '\\' || e == '"' || e == 'n' || e == 'r' || e == 't' {
                let d = if e == 'n' {
                    '\n'
                } else if e == 'r' {
                    '\r'
                } else if e == 't' {
                    '\t'
                } else {
                    e
                };
                proof {
                    assert(d == unesc_short(e));
                    assert(t.skip(2) =~= s@.skip(i + 2));
                    assert(dec(t) == dec_prepend(seq![d], dec(s@.skip(i + 2))));
                    lemma_prepend_compose(acc@, seq![d], dec(s@.skip(i + 2)));
                    assert(acc@ + seq![d] =~= acc@.push(d));
                }
                push_char(&mut acc, d);
                i = i + 2;
            } else if e == 'u' {
                if n - i < 6 {
                    proof {
                        assert(t.len() < 6);
                    }
                    return None;
                }
                proof {
                    assert(t[2] == s@[i + 2] && t[3] == s@[i + 3] && t[4] == s@[i + 4] && t[5]
                        == s@[i + 5]);
                }
                let h0 = hex_val(s.get_char(i + 2));
                let h1 = hex_val(s.get_char(i + 3));
                let h2 = hex_val(s.get_char(i + 4));
                let h3 = hex_val(s.get_char(i + 5));
                match (h0, h1, h2, h3) {
                    (Some(d0), Some(d1), Some(d2), Some(d3)) => {
                        let code: u32 = d0 as u32 * 4096 + d1 as u32 * 256 + d2 as u32 * 16
                            + d3 as u32;
                        if (code < 0x20 && code != 0x0a && code != 0x0d && code != 0x09) || code
                            == 0x7f {
                            let ch = (code as u8) as char;
                            proof {
                                assert(is_u_escape_code(code as int));
                                assert(ch as int == code as int);
                                vstd::utf8::char_u32_cast(ch, ch as u32);
                                assert(ch == (code as int) as char);
                                assert(t.skip(6) =~= s@.skip(i + 6));
                                assert(dec(t) == dec_prepend(seq![ch], dec(s@.skip(i + 6))));
                                lemma_prepend_compose(acc@, seq![ch], dec(s@.skip(i + 6)));
                                assert(acc@ + seq![ch] =~= acc@.push(ch));
                            }
                            push_char(&mut acc, ch);
                            i = i + 6;
                        } else {
                            proof {
                                assert(!is_u_escape_code(
                                    hex_val_spec(t[2])->Some_0 * 4096 + hex_val_spec(t[3])->Some_0
                                        * 256 + hex_val_spec(t[4])->Some_0 * 16 + hex_val_spec(
                                        t[5],
                                    )->Some_0,
                                ));
                                assert(dec(t) is None);
                            }
                            return None;
                        }
                    },
                    _ => {
                        proof {
                            assert(dec(t) is None);
                        }
                        return None;
                    },
                }
            } else {
                proof {
                    assert(dec(t) is None);
                }
                return None;
            }
        } else {
            let u = c as u32;
            proof {
                vstd::utf8::char_is_scalar(c);
            }
            if u >= 0x20 && u != 0x7f {
                proof {
                    assert(is_literal_char(c));
                    assert(t.drop_first() =~= s@.skip(i + 1));
                    assert(dec(t) == dec_prepend(seq![c], dec(s@.skip(i + 1))));
                    lemma_prepend_compose(acc@, seq![c], dec(s@.skip(i + 1)));
                    assert(acc@ + seq![c] =~= acc@.push(c));
                }
                push_char(&mut acc, c);
                i = i + 1;
            } else {
                proof {
                    assert(!is_literal_char(c));
                    assert(dec(t) is None);
                }
                return None;
            }
        }
    }
}

/// Reads a pair of values out of a whole text, exactly as `parse_spec`
/// describes it: the text must be the rendering of the pair it returns.
pub fn parse(s: &str) -> (r: Option<(String, String)>)
    ensures
        match r {
            Some(p) => parse_spec(s@) == Some((p.0@, p.1@)),
            None => parse_spec(s@) is None,
        },
{
    let n = s.unicode_len();
    let hl = "server_url = \"".unicode_len();
    if !starts_with_at(s, 0, "server_url = \"") {
        return None;
    }
    proof {
        assert(s@.subrange(0, hdr().len() as int) =~= s@.subrange(0int, 0 + hdr().len() as int));
    }
    match decode_value(s, hl) {
        None => {
            return None;
        },
        Some((u, e1)) => {
            let ghost r1 = s@.skip(e1 as int);
            let ml = "\napi_key = \"".unicode_len();
            if !starts_with_at(s, e1, "\napi_key = \"") {
                proof {
                    if mid1().len() <= r1.len() && r1.subrange(0, mid1().len() as int) == mid1() {
                        assert(s@.subrange(e1 as int, e1 + mid1().len()) =~= r1.subrange(
                            0,
                            mid1().len() as int,
                        ));
                    }
                }
                return None;
            }
            proof {
                assert(r1.subrange(0, mid1().len() as int) =~= s@.subrange(
                    e1 as int,
                    e1 + mid1().len(),
                ));
                assert(r1.skip(mid1().len() as int) =~= s@.skip(e1 + ml));
            }
            match decode_value(s, e1 + ml) {
                None => {
                    return None;
                },
                Some((k, e2)) => {
                    let ghost r2 = s@.skip(e2 as int);
                    if n - e2 == 1 {
                        let c = s.get_char(e2);
                        proof {
                            reveal_strlit("\n");
                            assert(r2[0] == s@[e2 as int]);
                        }
                        if c == '\n' {
                            proof {
                                assert(r2 =~= nl());
                            }
                            return Some((u, k));
                        }
                        proof {
                            assert(r2[0] != nl()[0]);
                        }
                        return None;
                    }
                    proof {
                        reveal_strlit("\n");
                        assert(r2.len() != nl().len());
                    }
                    return None;
                },
            }
        },
    }
}

} // verus!
