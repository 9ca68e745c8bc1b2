use crate::text::{all_ascii, ascii_chars, lemma_ascii_is_utf8, string_from_utf8};
use vstd::prelude::*;

verus! {

/// The ASCII code of a lowercase hexadecimal digit.
pub open spec fn hex_lower(d: nat) -> u8 {
    if d < 10 {
        (48 + d) as u8
    } else {
        (87 + d) as u8
    }
}

/// The lowercase hexadecimal digits of `v`, without leading zeros.
pub open spec fn lower_hex_digits(v: nat) -> Seq<u8>
    decreases v,
{
    if v < 16 {
        seq![hex_lower(v)]
    } else {
        lower_hex_digits(v / 16).push(hex_lower(v % 16))
    }
}

/// `v` in lowercase hexadecimal, padded with zeros on the left to at least
/// `w` digits.
pub open spec fn padded_hex(v: nat, w: nat) -> Seq<u8> {
    let d = lower_hex_digits(v);
    Seq::new(if d.len() < w { (w - d.len()) as nat } else { 0 }, |i: int| 48u8) + d
}

/// The byte itself when it is a printable ASCII character, else `fallback`.
pub open spec fn printable(b: u8, fallback: u8) -> u8 {
    if 32 <= b < 127 {
        b
    } else {
        fallback
    }
}

/// Two hexadecimal digits and a space for each byte.
pub open spec fn hex_cells(chunk: Seq<u8>) -> Seq<u8>
    decreases chunk.len(),
{
    if chunk.len() == 0 {
        seq![]
    } else {
        hex_cells(chunk.drop_last()) + padded_hex(chunk.last() as nat, 2) + seq![32u8]
    }
}

/// One line of a hex dump of up to sixteen bytes starting at `pos`: the
/// position in at least eight digits, a colon, the bytes in hexadecimal
/// padded to sixteen columns, then the bytes as text between bars, with a
/// dot for each unprintable byte.
pub open spec fn dump_line_bytes(pos: nat, chunk: Seq<u8>) -> Seq<u8> {
    padded_hex(pos, 8) + seq![58u8, 32u8] + hex_cells(chunk) + Seq::new(
        (3 * (16 - chunk.len())) as nat,
        |i: int| 32u8,
    ) + seq![32u8, 124u8] + Seq::new(chunk.len(), |i: int| printable(chunk[i], 46)) + seq![124u8]
}

proof fn lemma_hex_digits_ascii(v: nat)
    ensures
        all_ascii(lower_hex_digits(v)),
        lower_hex_digits(v).len() >= 1,
    decreases v,
{
    if v >= 16 {
        lemma_hex_digits_ascii(v / 16);
    }
}

/// The byte itself when it is a printable ASCII character, else `fallback`.
pub fn printable_byte(b: u8, fallback: u8) -> (r: u8)
    ensures
        r == printable(b, fallback),
{
    if 32 <= b && b < 127 {
        b
    } else {
        fallback
    }
}

/// Appends `v` in lowercase hexadecimal, zero-padded to `width` digits.
fn push_padded_hex(out: &mut Vec<u8>, v: u64, width: usize)
    requires
        all_ascii(old(out)@),
    ensures
        final(out)@ == old(out)@ + padded_hex(v as nat, width as nat),
        all_ascii(final(out)@),
{
    let mut digits: Vec<u8> = Vec::new();
    let mut cur: u64 = v;
    while cur >= 16
        invariant
            lower_hex_digits(v as nat) == lower_hex_digits(cur as nat) + digits@,
        decreases cur,
    {
        let d = cur % 16;
        let c: u8 = if d < 10 {
            (48 + d) as u8
        } else {
            (87 + d) as u8
        };
        let ghost before = digits@;
        digits.insert(0, c);
        assert(digits@ =~= seq![c] + before);
        assert(lower_hex_digits(cur as nat) =~= lower_hex_digits((cur / 16) as nat) + seq![c]);
        cur = cur / 16;
    }
    let c: u8 = if cur < 10 {
        (48 + cur) as u8
    } else {
        (87 + cur) as u8
    };
    let ghost before = digits@;
    digits.insert(0, c);
    assert(digits@ =~= lower_hex_digits(v as nat));
    proof {
        lemma_hex_digits_ascii(v as nat);
    }
    let ghost start = out@;
    let mut k: usize = digits.len();
    while k < width
        invariant
            k >= digits@.len(),
            k <= if digits@.len() < width { width as int } else { digits@.len() as int },
            digits@ == lower_hex_digits(v as nat),
            out@ == start + Seq::new((k - digits@.len()) as nat, |i: int| 48u8),
            all_ascii(out@),
        decreases width - k,
    {
        out.push(48);
        k = k + 1;
        assert(out@ =~= start + Seq::new((k - digits@.len()) as nat, |i: int| 48u8));
    }
    let ghost padded = out@;
    let mut j: usize = 0;
    while j < digits.len()
        invariant
            j <= digits@.len(),
            out@ == padded + digits@.take(j as int),
            all_ascii(digits@),
            all_ascii(out@),
        decreases digits@.len() - j,
    {
        out.push(digits[j]);
        j = j + 1;
        assert(out@ =~= padded + digits@.take(j as int));
    }
    assert(digits@.take(j as int) =~= digits@);
    assert(padded =~= start + Seq::new((k - digits@.len()) as nat, |i: int| 48u8));
    assert(out@ =~= start + padded_hex(v as nat, width as nat));
}

/// Formats one line of a hex dump of up to sixteen bytes at position `pos`.
pub fn dump_line(pos: usize, chunk: &[u8]) -> (r: String)
    requires
        chunk@.len() <= 16,
    ensures
        r@ == ascii_chars(dump_line_bytes(pos as nat, chunk@)),
{
    let mut out: Vec<u8> = Vec::new();
    push_padded_hex(&mut out, pos as u64, 8);
    out.push(58);
    out.push(32);
    let ghost head = out@;
    let mut i: usize = 0;
    while i < chunk.len()
        invariant
            i <= chunk@.len(),
            out@ == head + hex_cells(chunk@.take(i as int)),
            all_ascii(out@),
        decreases chunk@.len() - i,
    {
        push_padded_hex(&mut out, chunk[i] as u64, 2);
        out.push(32);
        i = i + 1;
        assert(chunk@.take(i as int).drop_last() =~= chunk@.take(i - 1));
        assert(out@ =~= head + hex_cells(chunk@.take(i as int)));
    }
    assert(chunk@.take(i as int) =~= chunk@);
    let ghost cells = out@;
    let mut k: usize = 0;
    while k < 3 * (16 - chunk.len())
        invariant
            chunk@.len() <= 16,
            k <= 3 * (16 - chunk@.len()),
            out@ == cells + Seq::new(k as nat, |j: int| 32u8),
            all_ascii(out@),
        decreases 3 * (16 - chunk@.len()) - k,
    {
        out.push(32);
        k = k + 1;
        assert(out@ =~= cells + Seq::new(k as nat, |j: int| 32u8));
    }
    out.push(32);
    out.push(124);
    let ghost bar = out@;
    let mut t: usize = 0;
    while t < chunk.len()
        invariant
            t <= chunk@.len(),
            out@ == bar + Seq::new(t as nat, |j: int| printable(chunk@[j], 46)),
            all_ascii(out@),
        decreases chunk@.len() - t,
    {
        out.push(printable_byte(chunk[t], 46));
        t = t + 1;
        assert(out@ =~= bar + Seq::new(t as nat, |j: int| printable(chunk@[j], 46)));
    }
    out.push(124);
    assert(out@ =~= dump_line_bytes(pos as nat, chunk@));
    proof {
        lemma_ascii_is_utf8(out@);
    }
    match string_from_utf8(out) {
        Some(s) => s,
        None => {
            assert(false);
            String::new()
        },
    }
}

} // verus!
