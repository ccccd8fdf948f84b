//! JSON string escaping, and the decoder that states what an escaped body means.
use vstd::prelude::*;

verus! {

broadcast use vstd::string::group_string_axioms;

/// The lower-case hexadecimal digit for `n`, for `0 <= n < 16`.
pub open spec fn hex_digit(n: int) -> char {
    if n < 10 {
        (('0' as int) + n) as char
    } else {
        (('a' as int) + n - 10) as char
    }
}

/// What one character of the source becomes inside a JSON string body.
pub open spec fn escape_char(c: char) -> Seq<char> {
    if c == '"' {
        seq!['\\', '"']
    } else if c == '\\' {
        seq!['\\', '\\']
    } else if c == '\n' {
        seq!['\\', 'n']
    } else if c == '\r' {
        seq!['\\', 'r']
    } else if c == '\t' {
        seq!['\\', 't']
    } else if (c as u32) < 0x20 {
        seq!['\\', 'u', '0', '0', hex_digit(((c as u32) / 16) as int), hex_digit(((c as u32) % 16) as int)]
    } else {
        seq![c]
    }
}

/// The escaped form of a whole character sequence.
pub open spec fn json_escape(s: Seq<char>) -> Seq<char>
    decreases s.len(),
{
    if s.len() == 0 {
        Seq::empty()
    } else {
        json_escape(s.drop_last()) + escape_char(s.last())
    }
}

/// The character that a JSON short escape (a backslash and a letter) stands for, by its letter.
pub open spec fn short_escape(e: char) -> Option<char> {
    if e == '"' {
        Some('"')
    } else if e == '\\' {
        Some('\\')
    } else if e == '/' {
        Some('/')
    } else if e == 'b' {
        Some('\x08')
    } else if e == 'f' {
        Some('\x0c')
    } else if e == 'n' {
        Some('\n')
    } else if e == 'r' {
        Some('\r')
    } else if e == 't' {
        Some('\t')
    } else {
        None
    }
}

/// The value of a hexadecimal digit of either case.
pub open spec fn hex_value(c: char) -> Option<int> {
    if '0' <= c && c <= '9' {
        Some(c as int - '0' as int)
    } else if 'a' <= c && c <= 'f' {
        Some(c as int - 'a' as int + 10)
    } else if 'A' <= c && c <= 'F' {
        Some(c as int - 'A' as int + 10)
    } else {
        None
    }
}

/// The number written by the first four characters of `t` in hexadecimal.
pub open spec fn hex4(t: Seq<char>) -> Option<int> {
    if t.len() < 4 {
        None
    } else if let (Some(a), Some(b), Some(c), Some(d)) = (
        hex_value(t[0]),
        hex_value(t[1]),
        hex_value(t[2]),
        hex_value(t[3]),
    ) {
        Some(a * 4096 + b * 256 + c * 16 + d)
    } else {
        None
    }
}

/// `c` in front of a decoded rest, where there is one.
pub open spec fn prepend(c: char, rest: Option<Seq<char>>) -> Option<Seq<char>> {
    match rest {
        Some(r) => Some(seq![c] + r),
        None => None,
    }
}

/// What the body of a JSON string literal (the text between its quotes)
/// stands for, as RFC 8259 reads it; `None` where the body is not valid:
/// an unescaped quote or control character, an unknown or cut-off escape,
/// or a lone surrogate.
pub open spec fn json_unescape(t: Seq<char>) -> Option<Seq<char>>
    decreases t.len(),
{
    if t.len() == 0 {
        Some(Seq::empty())
    } else if t[0] == '\\' {
        if t.len() < 2 {
            None
        } else if t[1] == 'u' {
            if let Some(code) = hex4(t.subrange(2, t.len() as int)) {
                if 0xD800 <= code && code < 0xDC00 {
                    if t.len() >= 12 && t[6] == '\\' && t[7] == 'u' {
                        if let Some(low) = hex4(t.subrange(8, t.len() as int)) {
                            if 0xDC00 <= low && low < 0xE000 {
                                prepend(
                                    (0x10000 + (code - 0xD800) * 0x400 + (low - 0xDC00)) as char,
                                    json_unescape(t.subrange(12, t.len() as int)),
                                )
                            } else {
                                None
                            }
                        } else {
                            None
                        }
                    } else {
                        None
                    }
                } else if 0xDC00 <= code && code < 0xE000 {
                    None
                } else {
                    prepend(code as char, json_unescape(t.subrange(6, t.len() as int)))
                }
            } else {
                None
            }
        } else if let Some(c) = short_escape(t[1]) {
            prepend(c, json_unescape(t.subrange(2, t.len() as int)))
        } else {
            None
        }
    } else if t[0] == '"' || (t[0] as u32) < 0x20 {
        None
    } else {
        prepend(t[0], json_unescape(t.subrange(1, t.len() as int)))
    }
}

/// Escaping distributes over concatenation.
pub proof fn lemma_escape_concat(a: Seq<char>, b: Seq<char>)
    ensures
        json_escape(a + b) == json_escape(a) + json_escape(b),
    decreases b.len(),
{
    if b.len() == 0 {
        assert(a + b =~= a);
        assert(json_escape(a) + json_escape(b) =~= json_escape(a));
    } else {
        lemma_escape_concat(a, b.drop_last());
        assert((a + b).drop_last() =~= a + b.drop_last());
        assert((a + b).last() == b.last());
        assert(json_escape(a + b) =~= json_escape(a) + json_escape(b));
    }
}

proof fn lemma_hex_digit_value(n: int)
    requires
        0 <= n < 16,
    ensures
        hex_value(hex_digit(n)) == Some(n),
{
}

proof fn lemma_unescape_one(c: char, rest: Seq<char>)
    ensures
        json_unescape(escape_char(c) + rest) == prepend(c, json_unescape(rest)),
{
    let t = escape_char(c) + rest;
    if c == '"' || c == '\\' || c == '\n' || c == '\r' || c == '\t' {
        assert(t.subrange(2, t.len() as int) =~= rest);
    } else if (c as u32) < 0x20 {
        let code = c as u32 as int;
        lemma_hex_digit_value(code / 16);
        lemma_hex_digit_value(code % 16);
        assert(t.subrange(2, t.len() as int)[0] == '0');
        assert(t.subrange(2, t.len() as int)[1] == '0');
        assert(t.subrange(2, t.len() as int)[2] == hex_digit(code / 16));
        assert(t.subrange(2, t.len() as int)[3] == hex_digit(code % 16));
        assert(hex4(t.subrange(2, t.len() as int)) == Some(code));
        assert(t.subrange(6, t.len() as int) =~= rest);
    } else {
        assert(t.subrange(1, t.len() as int) =~= rest);
    }
}

/// An escaped text is a valid JSON string body, and it stands for exactly
/// the text that was escaped.
pub proof fn lemma_escape_roundtrip(s: Seq<char>)
    ensures
        json_unescape(json_escape(s)) == Some(s),
    decreases s.len(),
{
    if s.len() == 0 {
    } else {
        let rest = s.drop_first();
        lemma_escape_roundtrip(rest);
        lemma_escape_concat(seq![s[0]], rest);
        assert(seq![s[0]] + rest =~= s);
        assert(seq![s[0]].drop_last() =~= Seq::<char>::empty());
        assert(json_escape(Seq::<char>::empty()) =~= Seq::<char>::empty());
        assert(seq![s[0]].last() == s[0]);
        assert(json_escape(seq![s[0]]) =~= escape_char(s[0]));
        lemma_unescape_one(s[0], json_escape(rest));
    }
}

fn hex_digit_char(d: u32) -> (c: char)
    requires
        d < 16,
    ensures
        c == hex_digit(d as int),
{
    if d < 10 {
        let b: u8 = (d as u8) + 48;
        b as char
    } else {
        let b: u8 = (d as u8) + 87;
        b as char
    }
}

/// Appends `s` to `buf` escaped for a JSON string body: quote, backslash,
/// newline, carriage return and tab by their short escapes, the other
/// control characters below U+0020 as `\u00XX` in lower-case hex, and every
/// other character as it is.
pub fn push_json_escaped_str(buf: &mut String, s: &str)
    ensures
        final(buf)@ == old(buf)@ + json_escape(s@),
{
    let ghost start = buf@;
    proof {
        assert(s@.take(0) =~= Seq::<char>::empty());
        assert(start + json_escape(Seq::<char>::empty()) =~= start);
    }
    for c in it: s.chars()
        invariant
            it.seq() == s@,
            buf@ == start + json_escape(s@.take(it.index() as int)),
    {
        let ghost before = buf@;
        let ghost k = it.index();
        if c == '"' {
            buf.append("\\\"");
        } else if c == '\\' {
            buf.append("\\\\");
        } else if c == '\n' {
            buf.append("\\n");
        } else if c == '\r' {
            buf.append("\\r");
        } else if c == '\t' {
            buf.append("\\t");
        } else if (c as u32) < 0x20 {
            buf.append("\\u00");
            crate::text::push_char(buf, hex_digit_char((c as u32) / 16));
            crate::text::push_char(buf, hex_digit_char((c as u32) % 16));
        } else {
            crate::text::push_char(buf, c);
        }
        proof {
            reveal_strlit("\\\"");
            reveal_strlit("\\\\");
            reveal_strlit("\\n");
            reveal_strlit("\\r");
            reveal_strlit("\\t");
            reveal_strlit("\\u00");
            assert(s@.take(k + 1).drop_last() =~= s@.take(k as int));
            assert(buf@ =~= before + escape_char(c));
        }
    }
    proof {
        assert(s@.take(s@.len() as int) =~= s@);
    }
}

} // verus!
