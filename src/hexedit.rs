use crate::text::{all_ascii, ascii_chars, lemma_ascii_is_utf8, string_from_utf8};
use vstd::prelude::*;
use vstd::slice::slice_subrange;
use vstd::string::StringSliceAdditionalSpecFns;
use vstd::utf8::encode_utf8;

verus! {

/// The value of an ASCII digit in bases up to 36 (`0-9`, then `a-z` or
/// `A-Z` for 10 to 35); 36 for any other byte.
pub open spec fn digit_of(c: u8) -> nat {
    if 48 <= c <= 57 {
        (c - 48) as nat
    } else if 97 <= c <= 122 {
        (c - 87) as nat
    } else if 65 <= c <= 90 {
        (c - 55) as nat
    } else {
        36
    }
}

/// The number that a run of digits spells in base `radix`, or `None` if a
/// byte is not a digit of that base.
pub open spec fn digits_value(b: Seq<u8>, radix: nat) -> Option<nat>
    decreases b.len(),
{
    if b.len() == 0 {
        Some(0)
    } else {
        match digits_value(b.drop_last(), radix) {
            Some(v) => if digit_of(b.last()) < radix {
                Some(v * radix + digit_of(b.last()))
            } else {
                None
            },
            None => None,
        }
    }
}

/// An unsigned number in base `radix`: an optional `+`, then at least one
/// digit.
pub open spec fn unsigned_value(b: Seq<u8>, radix: nat) -> Option<nat> {
    let body = if b.len() > 0 && b[0] == 43 {
        b.drop_first()
    } else {
        b
    };
    if body.len() == 0 {
        None
    } else {
        digits_value(body, radix)
    }
}

/// The parsed number when there is one that fits in `usize`, else zero.
pub open spec fn usize_or_zero(v: Option<nat>) -> usize {
    match v {
        Some(n) => if n <= usize::MAX {
            n as usize
        } else {
            0
        },
        None => 0,
    }
}

/// The offset that a command-line string denotes: hexadecimal after a `0x`
/// or `0X` prefix, decimal otherwise; zero when it does not parse.
pub open spec fn offset_value(b: Seq<u8>) -> usize {
    if b.len() >= 2 && b[0] == 48 && (b[1] == 120 || b[1] == 88) {
        usize_or_zero(unsigned_value(b.skip(2), 16))
    } else {
        usize_or_zero(unsigned_value(b, 10))
    }
}

/// A prefix of a valid run of digits is valid and spells no more.
proof fn lemma_digits_prefix(b: Seq<u8>, k: int, radix: nat)
    requires
        digits_value(b, radix) is Some,
        0 <= k <= b.len(),
        radix >= 1,
    ensures
        digits_value(b.take(k), radix) is Some,
        digits_value(b.take(k), radix).unwrap() <= digits_value(b, radix).unwrap(),
    decreases b.len(),
{
    if k == b.len() {
        assert(b.take(k) =~= b);
    } else {
        let v = digits_value(b.drop_last(), radix).unwrap();
        assert(v * radix >= v) by (nonlinear_arith)
            requires
                radix >= 1,
                v >= 0,
        ;
        lemma_digits_prefix(b.drop_last(), k, radix);
        assert(b.drop_last().take(k) =~= b.take(k));
    }
}

/// Parses an unsigned number in base `radix` as `usize::from_str_radix`
/// documents it: an optional `+`, then digits only; `None` for anything
/// else and for a value above `usize::MAX`.
pub fn parse_unsigned(b: &[u8], radix: usize) -> (r: Option<usize>)
    requires
        2 <= radix <= 36,
    ensures
        r matches Some(n) ==> unsigned_value(b@, radix as nat) == Some(n as nat),
        r is None ==> match unsigned_value(b@, radix as nat) {
            Some(v) => v > usize::MAX,
            None => true,
        },
{
    let start: usize = if b.len() > 0 && b[0] == 43 {
        1
    } else {
        0
    };
    let ghost body = if b@.len() > 0 && b@[0] == 43 {
        b@.drop_first()
    } else {
        b@
    };
    assert(body =~= b@.skip(start as int));
    if start == b.len() {
        return None;
    }
    assert(unsigned_value(b@, radix as nat) == digits_value(body, radix as nat));
    let mut acc: usize = 0;
    let mut i: usize = start;
    while i < b.len()
        invariant
            start <= i <= b@.len(),
            2 <= radix <= 36,
            body =~= b@.skip(start as int),
            start < b@.len(),
            unsigned_value(b@, radix as nat) == digits_value(body, radix as nat),
            digits_value(b@.subrange(start as int, i as int), radix as nat) == Some(acc as nat),
        decreases b@.len() - i,
    {
        let c = b[i];
        let d: usize = if 48 <= c && c <= 57 {
            (c - 48) as usize
        } else if 97 <= c && c <= 122 {
            (c - 87) as usize
        } else if 65 <= c && c <= 90 {
            (c - 55) as usize
        } else {
            36
        };
        let ghost next = b@.subrange(start as int, i + 1);
        assert(next.drop_last() =~= b@.subrange(start as int, i as int));
        assert(next.last() == c);
        assert(d as nat == digit_of(c));
        if d >= radix {
            proof {
                if digits_value(body, radix as nat) is Some {
                    lemma_digits_prefix(body, i + 1 - start, radix as nat);
                    assert(body.take(i + 1 - start) =~= next);
                    assert(digits_value(next, radix as nat) is None);
                }
            }
            return None;
        }
        let step = match acc.checked_mul(radix) {
            Some(m) => m.checked_add(d),
            None => None,
        };
        match step {
            Some(v) => {
                acc = v;
            },
            None => {
                proof {
                    if digits_value(body, radix as nat) is Some {
                        lemma_digits_prefix(body, i + 1 - start, radix as nat);
                        assert(body.take(i + 1 - start) =~= next);
                        assert(digits_value(next, radix as nat) == Some(
                            acc as nat * radix as nat + d as nat,
                        ));
                    }
                }
                return None;
            },
        }
        i = i + 1;
    }
    assert(b@.subrange(start as int, i as int) =~= body);
    Some(acc)
}

/// Reads an offset given on the command line: hexadecimal after `0x` or
/// `0X`, decimal otherwise, and zero when the text is not such a number.
pub fn parse_offset(offset_str: &str) -> (r: usize)
    ensures
        r == offset_value(offset_str.spec_bytes()),
{
    let b = offset_str.as_bytes();
    let parsed = if b.len() >= 2 && b[0] == 48 && (b[1] == 120 || b[1] == 88) {
        let tail = slice_subrange(b, 2, b.len());
        assert(tail@ =~= b@.skip(2));
        parse_unsigned(tail, 16)
    } else {
        parse_unsigned(b, 10)
    };
    match parsed {
        Some(n) => n,
        None => 0,
    }
}

/// Why a hexadecimal string could not be turned into bytes.
#[derive(PartialEq, Eq, Structural, Debug, Clone, Copy)]
pub enum HexError {
    /// The string has an odd number of bytes.
    OddLength,
    /// These two bytes do not spell a byte value in base 16.
    InvalidPair { high: u8, low: u8 },
}

/// The bytes spelled by consecutive pairs of hexadecimal digits, each pair
/// read as `u8::from_str_radix` reads it in base 16; the first bad pair, or
/// an odd length, is the error.
pub open spec fn hex_decoding(b: Seq<u8>) -> Result<Seq<u8>, HexError>
    decreases b.len(),
{
    if b.len() % 2 != 0 {
        Err(HexError::OddLength)
    } else if b.len() == 0 {
        Ok(seq![])
    } else {
        match unsigned_value(b.take(2), 16) {
            None => Err(HexError::InvalidPair { high: b[0], low: b[1] }),
            Some(v) => match hex_decoding(b.skip(2)) {
                Ok(rest) => Ok(seq![v as u8] + rest),
                Err(e) => Err(e),
            },
        }
    }
}

/// `prefix` put in front of a successful decoding; an error passes through.
pub open spec fn prepend_ok(prefix: Seq<u8>, r: Result<Seq<u8>, HexError>) -> Result<
    Seq<u8>,
    HexError,
> {
    match r {
        Ok(rest) => Ok(prefix + rest),
        Err(e) => Err(e),
    }
}

/// Two hexadecimal bytes spell at most 255.
proof fn lemma_pair_bound(b: Seq<u8>)
    requires
        b.len() == 2,
    ensures
        unsigned_value(b, 16) matches Some(v) ==> v < 256,
{
    reveal_with_fuel(digits_value, 3);
    assert(b.drop_first().drop_last().len() == 0);
    assert(b.drop_last().drop_last().len() == 0);
}

/// Decodes a string of hexadecimal digit pairs into bytes.
pub fn hex_digits_to_bytes(hex: &str) -> (r: Result<Vec<u8>, HexError>)
    ensures
        match r {
            Ok(v) => hex_decoding(hex.spec_bytes()) == Ok::<Seq<u8>, HexError>(v@),
            Err(e) => hex_decoding(hex.spec_bytes()) == Err::<Seq<u8>, HexError>(e),
        },
{
    let b = hex.as_bytes();
    if b.len() % 2 != 0 {
        return Err(HexError::OddLength);
    }
    let mut out: Vec<u8> = Vec::new();
    let mut i: usize = 0;
    assert(b@.skip(0) =~= b@);
    while i < b.len()
        invariant
            i <= b@.len(),
            i % 2 == 0,
            b@.len() % 2 == 0,
            b@ == hex.spec_bytes(),
            hex_decoding(b@) == prepend_ok(out@, hex_decoding(b@.skip(i as int))),
        decreases b@.len() - i,
    {
        let ghost rest = b@.skip(i as int);
        assert(rest.take(2) =~= b@.subrange(i as int, i + 2));
        assert(rest.skip(2) =~= b@.skip(i + 2));
        let pair = slice_subrange(b, i, i + 2);
        proof {
            lemma_pair_bound(pair@);
        }
        match parse_unsigned(pair, 16) {
            Some(v) => {
                let ghost before = out@;
                out.push(v as u8);
                assert(out@ == before + seq![v as u8]);
                assert(hex_decoding(b@) == prepend_ok(out@, hex_decoding(b@.skip(i + 2)))) by {
                    match hex_decoding(b@.skip(i + 2)) {
                        Ok(tail) => {
                            assert(before + (seq![v as u8] + tail) =~= out@ + tail);
                        },
                        Err(e) => {},
                    }
                }
            },
            None => {
                return Err(HexError::InvalidPair { high: b[i], low: b[i + 1] });
            },
        }
        i = i + 2;
    }
    assert(b@.skip(i as int).len() == 0);
    assert(out@ + seq![] =~= out@);
    Ok(out)
}

/// A character with Unicode's White_Space property, the set that
/// `char::is_whitespace` and `str::trim` use.
pub open spec fn is_white_space(c: char) -> bool {
    ('\u{9}' <= c <= '\u{d}') || c == ' ' || c == '\u{85}' || c == '\u{a0}' || c == '\u{1680}'
        || ('\u{2000}' <= c <= '\u{200a}') || c == '\u{2028}' || c == '\u{2029}' || c
        == '\u{202f}' || c == '\u{205f}' || c == '\u{3000}'
}

/// `s` without its leading white space.
pub open spec fn trim_start(s: Seq<char>) -> Seq<char>
    decreases s.len(),
{
    if s.len() > 0 && is_white_space(s[0]) {
        trim_start(s.drop_first())
    } else {
        s
    }
}

/// `s` without its trailing white space.
pub open spec fn trim_end(s: Seq<char>) -> Seq<char>
    decreases s.len(),
{
    if s.len() > 0 && is_white_space(s.last()) {
        trim_end(s.drop_last())
    } else {
        s
    }
}

/// What `str::trim` leaves of a string: the longest leading and trailing
/// runs of white space removed.
pub open spec fn trimmed(s: Seq<char>) -> Seq<char> {
    trim_end(trim_start(s))
}

/// Relies on str::trim: it removes the leading and trailing characters with
/// Unicode's White_Space property.
#[verifier::external_body]
fn trim_whitespace(s: &str) -> (r: &str)
    ensures
        r@ == trimmed(s@),
{
    s.trim()
}

/// Decodes hexadecimal digit pairs after trimming surrounding white space.
pub fn hex_string_to_bytes(hex: &str) -> (r: Result<Vec<u8>, HexError>)
    ensures
        match r {
            Ok(v) => hex_decoding(encode_utf8(trimmed(hex@))) == Ok::<Seq<u8>, HexError>(v@),
            Err(e) => hex_decoding(encode_utf8(trimmed(hex@))) == Err::<Seq<u8>, HexError>(e),
        },
{
    let t = trim_whitespace(hex);
    hex_digits_to_bytes(t)
}

/// The ASCII code of an uppercase hexadecimal digit.
pub open spec fn hex_upper(d: u64) -> u8 {
    if d < 10 {
        (48 + d) as u8
    } else {
        (55 + d) as u8
    }
}

/// Hexadecimal digit `i` of `v`, counting from the most significant.
pub open spec fn nibble(v: u64, i: int) -> u64 {
    (v >> ((60 - 4 * i) as u64)) & 0xf
}

/// The sixteen uppercase hexadecimal digits of `v` in four groups of four,
/// separated by single spaces.
pub open spec fn spaced_hex_bytes(v: u64) -> Seq<u8> {
    Seq::new(
        19,
        |p: int|
            if p % 5 == 4 {
                32u8
            } else {
                hex_upper(nibble(v, p - p / 5))
            },
    )
}

/// Writes a 64-bit value as `XXXX XXXX XXXX XXXX` in uppercase hexadecimal.
pub fn format_hex_spaced(value: u64) -> (r: String)
    ensures
        r@ == ascii_chars(spaced_hex_bytes(value)),
{
    let mut out: Vec<u8> = Vec::new();
    let mut p: usize = 0;
    while p < 19
        invariant
            p <= 19,
            out@.len() == p,
            forall|q: int| 0 <= q < p ==> #[trigger] out@[q] == spaced_hex_bytes(value)[q],
        decreases 19 - p,
    {
        if p % 5 == 4 {
            out.push(32);
        } else {
            let i = p - p / 5;
            let sh = (60 - 4 * i) as u64;
            let d = (value >> sh) & 0xf;
            assert(d < 16) by (bit_vector)
                requires
                    d == (value >> sh) & 0xf,
            ;
            let c: u8 = if d < 10 {
                (48 + d) as u8
            } else {
                (55 + d) as u8
            };
            out.push(c);
        }
        p = p + 1;
    }
    assert(out@ =~= spaced_hex_bytes(value));
    proof {
        assert forall|q: int| 0 <= q < out@.len() implies #[trigger] out@[q] < 128 by {
            let p = q;
            if p % 5 != 4 {
                let sh = (60 - 4 * (p - p / 5)) as u64;
                let d = nibble(value, p - p / 5);
                assert(d == (value >> sh) & 0xf);
                assert(d < 16) by (bit_vector)
                    requires
                        d == (value >> sh) & 0xf,
                ;
            }
        }
        assert(all_ascii(out@));
        lemma_ascii_is_utf8(out@);
    }
    match string_from_utf8(out) {
        Some(s) => s,
        None => {
            assert(false);
            String::new()
        },
    }
}

/// `buffer` with `bytes` written over it from `offset` on, grown where the
/// bytes run past its end.
pub open spec fn patched(buffer: Seq<u8>, bytes: Seq<u8>, offset: int) -> Seq<u8> {
    let end = offset + bytes.len();
    buffer.take(offset) + bytes + if end < buffer.len() {
        buffer.skip(end)
    } else {
        seq![]
    }
}

/// Writes `bytes` into `buffer` starting at `offset`, overwriting what is
/// there and appending past the end.
pub fn patch_bytes(buffer: &mut Vec<u8>, bytes: &[u8], offset: usize)
    requires
        offset <= old(buffer)@.len(),
        offset + bytes@.len() <= usize::MAX,
    ensures
        final(buffer)@ == patched(old(buffer)@, bytes@, offset as int),
{
    let ghost orig = buffer@;
    let mut i: usize = 0;
    while i < bytes.len()
        invariant
            i <= bytes@.len(),
            offset <= orig.len(),
            offset + bytes@.len() <= usize::MAX,
            buffer@ == patched(orig, bytes@.take(i as int), offset as int),
        decreases bytes@.len() - i,
    {
        let ghost before = buffer@;
        if offset + i < buffer.len() {
            buffer.set(offset + i, bytes[i]);
        } else {
            buffer.push(bytes[i]);
        }
        i = i + 1;
        assert(bytes@.take(i as int).drop_last() =~= bytes@.take(i - 1));
        assert(buffer@ =~= patched(orig, bytes@.take(i as int), offset as int));
    }
    assert(bytes@.take(i as int) =~= bytes@);
}

} // verus!
