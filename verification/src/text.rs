//! Text from bytes: UTF-8 decoding and ASCII rendering.
use vstd::prelude::*;
use vstd::utf8::*;

verus! {

/// The characters that a sequence of ASCII bytes spells.
pub open spec fn ascii_chars(bytes: Seq<u8>) -> Seq<char> {
    Seq::new(bytes.len(), |i: int| bytes[i] as char)
}

/// True when every byte is below 128.
pub open spec fn is_ascii_bytes(bytes: Seq<u8>) -> bool {
    forall|i: int| 0 <= i < bytes.len() ==> #[trigger] bytes[i] < 128
}

/// ASCII bytes are valid UTF-8 and decode to the characters they spell.
pub proof fn lemma_ascii_is_utf8(bytes: Seq<u8>)
    requires
        is_ascii_bytes(bytes),
    ensures
        valid_utf8(bytes),
        decode_utf8(bytes) == ascii_chars(bytes),
        encode_utf8(ascii_chars(bytes)) == bytes,
{
    let chars = ascii_chars(bytes);
    assert(is_ascii_chars(chars)) by {
        assert forall|i: int| 0 <= i < chars.len() implies '\0' <= #[trigger] chars[i] <= '\u{7f}' by {
            assert(bytes[i] < 128);
        }
    }
    is_ascii_chars_encode_utf8(chars);
    assert(encode_utf8(chars) =~= bytes) by {
        assert forall|i: int| 0 <= i < bytes.len() implies encode_utf8(chars)[i] == bytes[i] by {
            assert(chars[i] as u8 == encode_utf8(chars)[i]);
            assert(bytes[i] < 128);
        }
    }
    encode_utf8_valid_utf8(chars);
    encode_utf8_decode_utf8(chars);
}

/// Calls `String::from_utf8`. The standard library documents that it returns
/// the string whose UTF-8 encoding is `bytes` when `bytes` is valid UTF-8, and
/// an error otherwise; the error's detail is dropped here.
#[verifier::external_body]
pub(crate) fn string_from_utf8(bytes: Vec<u8>) -> (r: Option<String>)
    ensures
        r is Some <==> valid_utf8(bytes@),
        r matches Some(s) ==> encode_utf8(s@) == bytes@,
{
    String::from_utf8(bytes).ok()
}

/// The string that ASCII bytes spell.
pub fn ascii_string(bytes: Vec<u8>) -> (r: String)
    requires
        is_ascii_bytes(bytes@),
    ensures
        r@ == ascii_chars(bytes@),
{
    proof {
        lemma_ascii_is_utf8(bytes@);
    }
    match string_from_utf8(bytes) {
        Some(s) => {
            proof {
                encode_utf8_decode_utf8(s@);
            }
            s
        },
        None => String::new(),
    }
}

/// A number in decimal, as ASCII digits without leading zeros.
pub open spec fn decimal(n: nat) -> Seq<u8>
    decreases n,
{
    if n < 10 {
        seq![(48 + n) as u8]
    } else {
        decimal(n / 10).push((48 + n % 10) as u8)
    }
}

/// The numbers of a list in decimal, with a comma and a space between two.
pub open spec fn decimal_items(bytes: Seq<u8>) -> Seq<u8>
    decreases bytes.len(),
{
    if bytes.len() == 0 {
        Seq::empty()
    } else if bytes.len() == 1 {
        decimal(bytes[0] as nat)
    } else {
        decimal_items(bytes.drop_last()) + seq![44u8, 32u8] + decimal(bytes.last() as nat)
    }
}

/// A list of bytes as it is printed for inspection: `[1, 2, 3]`.
pub open spec fn decimal_list(bytes: Seq<u8>) -> Seq<u8> {
    seq![91u8] + decimal_items(bytes) + seq![93u8]
}

/// Decimal digits are ASCII.
pub proof fn lemma_decimal_is_ascii(n: nat)
    ensures
        is_ascii_bytes(decimal(n)),
        decimal(n).len() > 0,
    decreases n,
{
    if n >= 10 {
        lemma_decimal_is_ascii(n / 10);
    }
}

/// Appends `n` in decimal.
pub fn push_decimal(out: &mut Vec<u8>, n: u64)
    ensures
        final(out)@ == old(out)@ + decimal(n as nat),
    decreases n,
{
    if n < 10 {
        out.push(48 + n as u8);
        assert(out@ =~= old(out)@ + decimal(n as nat));
    } else {
        push_decimal(out, n / 10);
        out.push(48 + (n % 10) as u8);
        assert(out@ =~= old(out)@ + decimal(n as nat));
    }
}

/// Appends a list of bytes as it is printed for inspection.
pub fn push_decimal_list(out: &mut Vec<u8>, bytes: &[u8])
    ensures
        final(out)@ == old(out)@ + decimal_list(bytes@),
{
    out.push(91);
    let mut i: usize = 0;
    while i < bytes.len()
        invariant
            i <= bytes@.len(),
            out@ == old(out)@ + seq![91u8] + decimal_items(bytes@.take(i as int)),
        decreases bytes@.len() - i,
    {
        if i > 0 {
            out.push(44);
            out.push(32);
        }
        push_decimal(out, bytes[i] as u64);
        proof {
            let next = bytes@.take(i + 1);
            assert(next.drop_last() =~= bytes@.take(i as int));
            assert(next.last() == bytes@[i as int]);
            assert(out@ =~= old(out)@ + seq![91u8] + decimal_items(next));
        }
        i += 1;
    }
    out.push(93);
    proof {
        assert(bytes@.take(i as int) =~= bytes@);
        assert(out@ =~= old(out)@ + decimal_list(bytes@));
    }
}

/// A printed list is ASCII.
pub proof fn lemma_decimal_list_is_ascii(bytes: Seq<u8>)
    ensures
        is_ascii_bytes(decimal_list(bytes)),
{
    lemma_decimal_items_are_ascii(bytes);
}

proof fn lemma_decimal_items_are_ascii(bytes: Seq<u8>)
    ensures
        is_ascii_bytes(decimal_items(bytes)),
    decreases bytes.len(),
{
    if bytes.len() == 1 {
        lemma_decimal_is_ascii(bytes[0] as nat);
    } else if bytes.len() > 1 {
        lemma_decimal_items_are_ascii(bytes.drop_last());
        lemma_decimal_is_ascii(bytes.last() as nat);
    }
}

/// `n` in decimal, as text.
pub fn decimal_string(n: u64) -> (r: String)
    ensures
        r@ == ascii_chars(decimal(n as nat)),
{
    let mut out: Vec<u8> = Vec::new();
    push_decimal(&mut out, n);
    proof {
        lemma_decimal_is_ascii(n as nat);
        assert(out@ =~= decimal(n as nat));
    }
    ascii_string(out)
}

/// A list of bytes as it is printed for inspection, as text.
pub fn decimal_list_string(bytes: &[u8]) -> (r: String)
    ensures
        r@ == ascii_chars(decimal_list(bytes@)),
{
    let mut out: Vec<u8> = Vec::new();
    push_decimal_list(&mut out, bytes);
    proof {
        lemma_decimal_list_is_ascii(bytes@);
        assert(out@ =~= decimal_list(bytes@));
    }
    ascii_string(out)
}

} // verus!
