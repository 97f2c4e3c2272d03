use vstd::prelude::*;

verus! {

/// The SHA-256 digest of a byte sequence.
pub uninterp spec fn sha256_of(bytes: Seq<u8>) -> Seq<u8>;

/// The SHA-256 digest of `bytes` (`sha2::Sha256::digest`): 32 bytes that depend on the
/// bytes alone.
#[verifier::external_body]
pub(crate) fn sha256(bytes: &[u8]) -> (digest: Vec<u8>)
    ensures
        digest@ == sha256_of(bytes@),
        digest@.len() == 32,
{
    <sha2::Sha256 as sha2::Digest>::digest(bytes).to_vec()
}

/// The lower-case hexadecimal digit of a number below sixteen.
pub open spec fn hex_digit(d: int) -> char {
    if d < 10 {
        (('0' as int) + d) as char
    } else {
        (('a' as int) + d - 10) as char
    }
}

/// Two lower-case hexadecimal digits per byte, most significant first.
pub open spec fn hex_of(bytes: Seq<u8>) -> Seq<char>
    decreases bytes.len(),
{
    if bytes.len() == 0 {
        Seq::empty()
    } else {
        hex_of(bytes.drop_last()).push(hex_digit((bytes.last() / 16) as int)).push(
            hex_digit((bytes.last() % 16) as int),
        )
    }
}

/// Whether a character is a lower-case hexadecimal digit.
pub open spec fn is_lower_hex_digit(c: char) -> bool {
    ('0' <= c && c <= '9') || ('a' <= c && c <= 'f')
}

/// Every number below sixteen has a lower-case hexadecimal digit.
proof fn lemma_hex_digit_is_lower_hex(d: int)
    requires
        0 <= d < 16,
    ensures
        is_lower_hex_digit(hex_digit(d)),
{
    if d < 10 {
        assert((('0' as int) + d) as char as int == ('0' as int) + d);
    } else {
        assert((('a' as int) + d - 10) as char as int == ('a' as int) + d - 10);
    }
}

/// The hexadecimal text of `bytes` has two digits per byte, each a lower-case hexadecimal digit.
pub proof fn lemma_hex_of_shape(bytes: Seq<u8>)
    ensures
        hex_of(bytes).len() == 2 * bytes.len(),
        forall|i: int| 0 <= i < hex_of(bytes).len() ==> is_lower_hex_digit(#[trigger] hex_of(bytes)[i]),
    decreases bytes.len(),
{
    if bytes.len() > 0 {
        let rest = bytes.drop_last();
        lemma_hex_of_shape(rest);
        let b = bytes.last();
        lemma_hex_digit_is_lower_hex((b / 16) as int);
        lemma_hex_digit_is_lower_hex((b % 16) as int);
        let h = hex_of(bytes);
        assert forall|i: int| 0 <= i < h.len() implies is_lower_hex_digit(#[trigger] h[i]) by {
            if i < hex_of(rest).len() {
                assert(h[i] == hex_of(rest)[i]);
            }
        }
    }
}

fn hex_char(d: u8) -> (c: char)
    requires
        d < 16,
    ensures
        c == hex_digit(d as int),
{
    if d < 10 {
        proof {
            assert(('0' as int) + d < 0xD800);
        }
        ((48u8 + d) as char)
    } else {
        ((87u8 + d) as char)
    }
}

/// Appends two lower-case hexadecimal digits per byte of `bytes` to `out`.
pub fn push_hex(out: &mut String, bytes: &[u8])
    ensures
        final(out)@ == old(out)@ + hex_of(bytes@),
{
    let mut i: usize = 0;
    while i < bytes.len()
        invariant
            i <= bytes@.len(),
            out@ == old(out)@ + hex_of(bytes@.subrange(0, i as int)),
        decreases bytes@.len() - i,
    {
        let byte = bytes[i];
        crate::text::push_char(out, hex_char(byte / 16));
        crate::text::push_char(out, hex_char(byte % 16));
        proof {
            let prefix = bytes@.subrange(0, i + 1);
            assert(prefix.drop_last() =~= bytes@.subrange(0, i as int));
            assert(prefix.last() == byte);
            assert(old(out)@ + hex_of(bytes@.subrange(0, i as int)).push(hex_digit((byte / 16) as int)).push(
                hex_digit((byte % 16) as int),
            ) =~= old(out)@ + hex_of(bytes@.subrange(0, i as int)).push(hex_digit((byte / 16) as int)).push(
                hex_digit((byte % 16) as int),
            ));
        }
        i = i + 1;
        assert(out@ =~= old(out)@ + hex_of(bytes@.subrange(0, i as int)));
    }
    assert(bytes@.subrange(0, bytes@.len() as int) =~= bytes@);
}

} // verus!
