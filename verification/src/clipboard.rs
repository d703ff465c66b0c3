//! Text for the system clipboard, as a terminal takes it.

use vstd::prelude::*;
use vstd::string::*;
use vstd::utf8::encode_utf8;

verus! {

/// The symbol of six bits.
pub open spec fn symbol_of(n: nat) -> char {
    if n < 26 {
        (65 + n) as char
    } else if n < 52 {
        (71 + n) as char
    } else if n < 62 {
        (n - 4) as char
    } else if n == 62 {
        '+'
    } else {
        '/'
    }
}

fn symbol(n: u8) -> (c: char)
    requires
        n < 64,
    ensures
        c == symbol_of(n as nat),
{
    if n < 26 {
        (65 + n) as char
    } else if n < 52 {
        (71 + n) as char
    } else if n < 62 {
        (n - 4) as char
    } else if n == 62 {
        '+'
    } else {
        '/'
    }
}

/// The four symbols of one to three bytes; missing bytes show as `=`.
pub open spec fn group_of(b: Seq<u8>) -> Seq<char> {
    let b0 = b[0] as nat;
    let b1: nat = if b.len() > 1 {
        b[1] as nat
    } else {
        0
    };
    let b2: nat = if b.len() > 2 {
        b[2] as nat
    } else {
        0
    };
    seq![
        symbol_of(b0 / 4),
        symbol_of((b0 % 4) * 16 + b1 / 16),
        if b.len() > 1 {
            symbol_of((b1 % 16) * 4 + b2 / 64)
        } else {
            '='
        },
        if b.len() > 2 {
            symbol_of(b2 % 64)
        } else {
            '='
        },
    ]
}

/// Bytes in base64, from the `i`-th on, three at a time.
pub open spec fn base64_from(bytes: Seq<u8>, i: int) -> Seq<char>
    decreases bytes.len() - i,
{
    if i < 0 || i >= bytes.len() {
        Seq::empty()
    } else if i + 3 >= bytes.len() {
        group_of(bytes.subrange(i, bytes.len() as int))
    } else {
        group_of(bytes.subrange(i, i + 3)) + base64_from(bytes, i + 3)
    }
}

/// Bytes in standard base64.
pub fn base64_encode(bytes: &[u8]) -> (out: String)
    ensures
        out@ == base64_from(bytes@, 0),
{
    let mut out = String::new();
    let n = bytes.len();
    let mut i: usize = 0;
    assert(base64_from(bytes@, 0) =~= out@ + base64_from(bytes@, 0));
    while i < n
        invariant
            n == bytes@.len(),
            i <= n,
            base64_from(bytes@, 0) == out@ + base64_from(bytes@, i as int),
        decreases n - i,
    {
        let left: usize = n - i;
        let b0: u8 = bytes[i];
        let b1: u8 = if left > 1 {
            bytes[i + 1]
        } else {
            0
        };
        let b2: u8 = if left > 2 {
            bytes[i + 2]
        } else {
            0
        };
        let ghost before = out@;
        let ghost end = if left >= 3 {
            i + 3
        } else {
            n as int
        };
        let ghost group = bytes@.subrange(i as int, end);
        out.push(symbol(b0 / 4));
        out.push(symbol((b0 % 4) * 16 + b1 / 16));
        out.push(
            if left > 1 {
                symbol((b1 % 16) * 4 + b2 / 64)
            } else {
                '='
            },
        );
        out.push(
            if left > 2 {
                symbol(b2 % 64)
            } else {
                '='
            },
        );
        assert(out@ =~= before + group_of(group));
        if left <= 3 {
            i = n;
            assert(base64_from(bytes@, i as int) =~= Seq::<char>::empty());
        } else {
            i += 3;
        }
        assert(base64_from(bytes@, 0) =~= out@ + base64_from(bytes@, i as int));
    }
    assert(out@ + Seq::<char>::empty() =~= out@);
    out
}

/// The escape that hands a text to the terminal's clipboard.
pub open spec fn clipboard_escape(text: Seq<char>) -> Seq<char> {
    "\x1b]52;c;"@ + base64_from(encode_utf8(text), 0) + "\x07"@
}

/// The escape that hands a text to the terminal's clipboard.
pub fn osc52(text: &str) -> (out: String)
    ensures
        out@ == clipboard_escape(text@),
{
    let encoded = base64_encode(text.as_bytes());
    "\x1b]52;c;".to_owned().concat(encoded.as_str()).concat("\x07")
}

/// The six bits of a symbol.
pub open spec fn bits_of(c: char) -> nat {
    let n = c as nat;
    if 'A' <= c && c <= 'Z' {
        (n - 65) as nat
    } else if 'a' <= c && c <= 'z' {
        (n - 71) as nat
    } else if '0' <= c && c <= '9' {
        n + 4
    } else if c == '+' {
        62
    } else {
        63
    }
}

/// The bytes of a base64 text.
pub open spec fn decoded(s: Seq<char>) -> Seq<u8>
    decreases s.len(),
{
    if s.len() < 4 {
        Seq::empty()
    } else {
        let n0 = bits_of(s[0]);
        let n1 = bits_of(s[1]);
        let n2 = bits_of(s[2]);
        let n3 = bits_of(s[3]);
        let b0 = (n0 * 4 + n1 / 16) as u8;
        let b1 = ((n1 % 16) * 16 + n2 / 4) as u8;
        let b2 = ((n2 % 4) * 64 + n3) as u8;
        if s[2] == '=' {
            seq![b0]
        } else if s[3] == '=' {
            seq![b0, b1]
        } else {
            seq![b0, b1, b2] + decoded(s.skip(4))
        }
    }
}

proof fn lemma_symbol(n: nat)
    requires
        n < 64,
    ensures
        bits_of(symbol_of(n)) == n,
        symbol_of(n) != '=',
{
}

proof fn lemma_group(b: Seq<u8>, rest: Seq<char>)
    requires
        1 <= b.len() <= 3,
        b.len() < 3 ==> rest.len() == 0,
    ensures
        decoded(group_of(b) + rest) == b + (if b.len() == 3 {
            decoded(rest)
        } else {
            Seq::empty()
        }),
{
    let b0 = b[0] as nat;
    let b1: nat = if b.len() > 1 {
        b[1] as nat
    } else {
        0
    };
    let b2: nat = if b.len() > 2 {
        b[2] as nat
    } else {
        0
    };
    lemma_symbol(b0 / 4);
    lemma_symbol((b0 % 4) * 16 + b1 / 16);
    lemma_symbol((b1 % 16) * 4 + b2 / 64);
    lemma_symbol(b2 % 64);
    let s = group_of(b) + rest;
    assert(s[0] == group_of(b)[0] && s[1] == group_of(b)[1] && s[2] == group_of(b)[2] && s[3]
        == group_of(b)[3]);
    assert(s.skip(4) =~= rest);
    let n1 = (b0 % 4) * 16 + b1 / 16;
    let n2 = (b1 % 16) * 4 + b2 / 64;
    assert(n1 / 16 == b0 % 4);
    assert(n1 % 16 == b1 / 16);
    assert(n2 / 4 == b1 % 16);
    assert(n2 % 4 == b2 / 64);
    assert((b0 / 4) * 4 + b0 % 4 == b0);
    assert((b1 / 16) * 16 + b1 % 16 == b1);
    assert((b2 / 64) * 64 + b2 % 64 == b2);
    assert(decoded(s) =~= b + (if b.len() == 3 {
        decoded(rest)
    } else {
        Seq::empty()
    }));
}

/// Decoding gives the bytes back.
pub proof fn law_base64_decodes(bytes: Seq<u8>, i: int)
    requires
        0 <= i <= bytes.len(),
    ensures
        decoded(base64_from(bytes, i)) == bytes.skip(i),
    decreases bytes.len() - i,
{
    let out = base64_from(bytes, i);
    if i == bytes.len() {
        assert(decoded(out) =~= bytes.skip(i));
    } else if i + 3 >= bytes.len() {
        let b = bytes.subrange(i, bytes.len() as int);
        lemma_group(b, Seq::empty());
        assert(group_of(b) + Seq::<char>::empty() =~= group_of(b));
        assert(decoded(Seq::<char>::empty()) =~= Seq::<u8>::empty());
        assert(b + Seq::<u8>::empty() =~= bytes.skip(i));
    } else {
        let b = bytes.subrange(i, i + 3);
        law_base64_decodes(bytes, i + 3);
        lemma_group(b, base64_from(bytes, i + 3));
        assert(b + bytes.skip(i + 3) =~= bytes.skip(i));
    }
}

/// Whether a character can stand in base64.
pub open spec fn is_symbol(c: char) -> bool {
    ('A' <= c && c <= 'Z') || ('a' <= c && c <= 'z') || ('0' <= c && c <= '9') || c == '+' || c
        == '/' || c == '='
}

/// Base64 is four symbols for every three bytes that were begun, and nothing but
/// symbols; the last four are filled up with `=`, one for each byte that is
/// missing.
pub proof fn law_base64_is_symbols(bytes: Seq<u8>, i: int)
    requires
        0 <= i <= bytes.len(),
    ensures
        ({
            let out = base64_from(bytes, i);
            let rest = bytes.len() - i;
            &&& out.len() == (rest + 2) / 3 * 4
            &&& forall|k: int| 0 <= k < out.len() ==> is_symbol(#[trigger] out[k])
            &&& rest > 0 && rest % 3 == 1 ==> out.last() == '=' && out[out.len() - 2] == '='
            &&& rest > 0 && rest % 3 == 2 ==> out.last() == '=' && out[out.len() - 2] != '='
            &&& rest > 0 && rest % 3 == 0 ==> out.last() != '='
        }),
    decreases bytes.len() - i,
{
    let out = base64_from(bytes, i);
    if i + 3 < bytes.len() {
        law_base64_is_symbols(bytes, i + 3);
        let first = group_of(bytes.subrange(i, i + 3));
        let more = base64_from(bytes, i + 3);
        assert forall|k: int| 0 <= k < out.len() implies is_symbol(#[trigger] out[k]) by {
            if k < 4 {
                assert(out[k] == first[k]);
            } else {
                assert(out[k] == more[k - 4]);
            }
        }
    }
}

/// What is handed to the terminal is the escape for its clipboard around the
/// bytes of the text in base64: who decodes it has the text.
pub proof fn law_clipboard_holds_the_text(text: Seq<char>)
    ensures
        ({
            let out = clipboard_escape(text);
            let n = out.len() as int;
            &&& n >= 8
            &&& out.take(7) == seq!['\x1b', ']', '5', '2', ';', 'c', ';']
            &&& out.last() == '\x07'
            &&& decoded(out.subrange(7, n - 1)) == encode_utf8(text)
        }),
{
    reveal_strlit("\x1b]52;c;");
    reveal_strlit("\x07");
    let out = clipboard_escape(text);
    let n = out.len() as int;
    let bytes = encode_utf8(text);
    law_base64_decodes(bytes, 0);
    assert(out.take(7) =~= seq!['\x1b', ']', '5', '2', ';', 'c', ';']);
    assert(out.subrange(7, n - 1) =~= base64_from(bytes, 0));
    assert(bytes.skip(0) =~= bytes);
}

} // verus!
