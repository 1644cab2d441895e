//! The wire representation of a fetched secret.
//!
//! A served secret is rendered as a JSON object whose string fields are
//! escaped exactly as [`escape_seq`] describes: quotes, backslashes and
//! control characters can never break out of the enclosing JSON string.

use vstd::prelude::*;

verus! {

/// The lower hexadecimal digit for a value below sixteen.
pub open spec fn hex_digit(n: int) -> char {
    if n == 0 {
        '0'
    } else if n == 1 {
        '1'
    } else if n == 2 {
        '2'
    } else if n == 3 {
        '3'
    } else if n == 4 {
        '4'
    } else if n == 5 {
        '5'
    } else if n == 6 {
        '6'
    } else if n == 7 {
        '7'
    } else if n == 8 {
        '8'
    } else if n == 9 {
        '9'
    } else if n == 10 {
        'a'
    } else if n == 11 {
        'b'
    } else if n == 12 {
        'c'
    } else if n == 13 {
        'd'
    } else if n == 14 {
        'e'
    } else {
        'f'
    }
}

/// How one character appears inside a JSON string: quote and backslash are
/// backslash-escaped, the named control characters use their short escapes,
/// the remaining control characters use a `\u00..` escape, and every other
/// character stands as itself.
pub open spec fn escape_char(c: char) -> Seq<char> {
    if c == '"' {
        seq!['\\', '"']
    } else if c == '\\' {
        seq!['\\', '\\']
    } else if c == '\u{8}' {
        seq!['\\', 'b']
    } else if c == '\u{c}' {
        seq!['\\', 'f']
    } else if c == '\n' {
        seq!['\\', 'n']
    } else if c == '\r' {
        seq!['\\', 'r']
    } else if c == '\t' {
        seq!['\\', 't']
    } else if (c as u32) < 32 {
        seq!['\\', 'u', '0', '0', hex_digit(c as u32 as int / 16), hex_digit(c as u32 as int % 16)]
    } else {
        seq![c]
    }
}

/// A whole string as it appears inside a JSON string.
pub open spec fn escape_seq(s: Seq<char>) -> Seq<char>
    decreases s.len(),
{
    if s.len() == 0 {
        Seq::empty()
    } else {
        escape_char(s[0]) + escape_seq(s.drop_first())
    }
}

/// Escaping a concatenation escapes the parts in place.
pub proof fn lemma_escape_seq_append(a: Seq<char>, b: Seq<char>)
    ensures
        escape_seq(a + b) == escape_seq(a) + escape_seq(b),
    decreases a.len(),
{
    if a.len() == 0 {
        assert(a + b =~= b);
        assert(escape_seq(a) + escape_seq(b) =~= escape_seq(b));
    } else {
        assert((a + b).drop_first() =~= a.drop_first() + b);
        assert((a + b)[0] == a[0]);
        lemma_escape_seq_append(a.drop_first(), b);
        assert(escape_char(a[0]) + (escape_seq(a.drop_first()) + escape_seq(b)) =~= (escape_char(
            a[0],
        ) + escape_seq(a.drop_first())) + escape_seq(b));
    }
}

/// The lower hexadecimal digit, as a one-character string.
fn hex_digit_str(n: u8) -> (r: &'static str)
    requires
        n < 16,
    ensures
        r@ == seq![hex_digit(n as int)],
{
    proof {
        reveal_strlit("0");
        reveal_strlit("1");
        reveal_strlit("2");
        reveal_strlit("3");
        reveal_strlit("4");
        reveal_strlit("5");
        reveal_strlit("6");
        reveal_strlit("7");
        reveal_strlit("8");
        reveal_strlit("9");
        reveal_strlit("a");
        reveal_strlit("b");
        reveal_strlit("c");
        reveal_strlit("d");
        reveal_strlit("e");
        reveal_strlit("f");
    }
    let r: &'static str = if n == 0 {
        "0"
    } else if n == 1 {
        "1"
    } else if n == 2 {
        "2"
    } else if n == 3 {
        "3"
    } else if n == 4 {
        "4"
    } else if n == 5 {
        "5"
    } else if n == 6 {
        "6"
    } else if n == 7 {
        "7"
    } else if n == 8 {
        "8"
    } else if n == 9 {
        "9"
    } else if n == 10 {
        "a"
    } else if n == 11 {
        "b"
    } else if n == 12 {
        "c"
    } else if n == 13 {
        "d"
    } else if n == 14 {
        "e"
    } else {
        "f"
    };
    proof {
        assert(r@ =~= seq![hex_digit(n as int)]);
    }
    r
}

/// Escape a string for inclusion inside a JSON string.
pub fn escaped(s: &str) -> (r: String)
    ensures
        r@ == escape_seq(s@),
{
    let n: usize = s.unicode_len();
    let mut out = String::new();
    let mut i: usize = 0;
    proof {
        assert(s@.subrange(0, 0) =~= Seq::<char>::empty());
    }
    while i < n
        invariant
            n == s@.len(),
            s@.len() <= usize::MAX,
            i <= n,
            out@ == escape_seq(s@.subrange(0, i as int)),
        decreases n - i,
    {
        let c = s.get_char(i);
        if c == '"' {
            out.append("\\\"");
            proof {
                reveal_strlit("\\\"");
                assert("\\\""@ =~= escape_char(c));
            }
        } else if c == '\\' {
            out.append("\\\\");
            proof {
                reveal_strlit("\\\\");
                assert("\\\\"@ =~= escape_char(c));
            }
        } else if c == '\u{8}' {
            out.append("\\b");
            proof {
                reveal_strlit("\\b");
                assert("\\b"@ =~= escape_char(c));
            }
        } else if c == '\u{c}' {
            out.append("\\f");
            proof {
                reveal_strlit("\\f");
                assert("\\f"@ =~= escape_char(c));
            }
        } else if c == '\n' {
            out.append("\\n");
            proof {
                reveal_strlit("\\n");
                assert("\\n"@ =~= escape_char(c));
            }
        } else if c == '\r' {
            out.append("\\r");
            proof {
                reveal_strlit("\\r");
                assert("\\r"@ =~= escape_char(c));
            }
        } else if c == '\t' {
            out.append("\\t");
            proof {
                reveal_strlit("\\t");
                assert("\\t"@ =~= escape_char(c));
            }
        } else if (c as u32) < 32 {
            let v: u32 = c as u32;
            out.append("\\u00");
            let hi: &'static str = hex_digit_str((v / 16) as u8);
            out.append(hi);
            let lo: &'static str = hex_digit_str((v % 16) as u8);
            out.append(lo);
            proof {
                reveal_strlit("\\u00");
                assert("\\u00"@ + hi@ + lo@ =~= escape_char(c));
            }
        } else {
            let piece: &str = s.substring_char(i, i + 1);
            out.append(piece);
            proof {
                assert(piece@ =~= escape_char(c));
            }
        }
        proof {
            let pre = s@.subrange(0, i as int);
            assert(s@.subrange(0, i + 1) =~= pre + seq![c]);
            lemma_escape_seq_append(pre, seq![c]);
            assert(seq![c].drop_first() =~= Seq::<char>::empty());
            assert(seq![c][0] == c);
            assert(escape_seq(Seq::<char>::empty()) == Seq::<char>::empty());
            assert(escape_seq(seq![c]) == escape_char(c) + escape_seq(seq![c].drop_first()));
            assert(escape_char(c) + Seq::<char>::empty() =~= escape_char(c));
        }
        i += 1;
    }
    proof {
        assert(s@.subrange(0, n as int) =~= s@);
    }
    out
}

/// The wire representation of a served secret: a JSON object naming the
/// secret, the resolved version and stage, and the secret string, each
/// escaped.
pub open spec fn wire_value(
    name: Seq<char>,
    version_id: Seq<char>,
    stage: Seq<char>,
    secret: Seq<char>,
) -> Seq<char> {
    "{\"Name\":\""@ + escape_seq(name) + "\",\"VersionId\":\""@ + escape_seq(version_id)
        + "\",\"VersionStage\":\""@ + escape_seq(stage) + "\",\"SecretString\":\""@ + escape_seq(
        secret,
    ) + "\"}"@
}

/// Serialize a fetched secret to its wire representation.
pub fn serialize_secret(name: &str, version_id: &str, stage: &str, secret: &str) -> (r: String)
    ensures
        r@ == wire_value(name@, version_id@, stage@, secret@),
{
    let mut r = String::from_str("{\"Name\":\"");
    let part = escaped(name);
    r.append(part.as_str());
    r.append("\",\"VersionId\":\"");
    let part = escaped(version_id);
    r.append(part.as_str());
    r.append("\",\"VersionStage\":\"");
    let part = escaped(stage);
    r.append(part.as_str());
    r.append("\",\"SecretString\":\"");
    let part = escaped(secret);
    r.append(part.as_str());
    r.append("\"}");
    proof {
        assert(r@ =~= wire_value(name@, version_id@, stage@, secret@));
    }
    r
}

} // verus!
