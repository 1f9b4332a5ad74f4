//! Lowercase hexadecimal encoding of byte strings, with a proved
//! encode/decode round trip.
//!
//! Hex spellings appear in three places: the transient working-directory
//! names, the displayed content hash, and the ticket text.

use vstd::prelude::*;

verus! {

/// The lowercase hex digit (as an ASCII byte) of a value below 16.
pub open spec fn hex_digit_of(n: u8) -> u8
    recommends
        n < 16,
{
    if n < 10 {
        (48 + n) as u8  // '0'..'9'
    } else {
        (87 + n) as u8  // 'a'..'f'
    }
}

/// The value of a lowercase hex digit byte; `None` for any other byte.
pub open spec fn hex_val_of(c: u8) -> Option<u8> {
    if 48 <= c && c <= 57 {
        Some((c - 48) as u8)
    } else if 97 <= c && c <= 102 {
        Some((c - 87) as u8)
    } else {
        None
    }
}

/// The hex spelling of a byte string: two digits per byte, high digit first.
pub open spec fn spec_hex_encode(b: Seq<u8>) -> Seq<u8>
    decreases b.len(),
{
    if b.len() == 0 {
        Seq::<u8>::empty()
    } else {
        spec_hex_encode(b.drop_last()) + seq![
            hex_digit_of(b.last() / 16),
            hex_digit_of(b.last() % 16),
        ]
    }
}

/// The byte string a hex spelling stands for; `None` when the length is odd
/// or any byte is not a lowercase hex digit.
pub open spec fn spec_hex_decode(s: Seq<u8>) -> Option<Seq<u8>>
    decreases s.len(),
{
    if s.len() % 2 != 0 {
        None
    } else if s.len() == 0 {
        Some(Seq::<u8>::empty())
    } else {
        let rest = spec_hex_decode(s.drop_last().drop_last());
        let hi = hex_val_of(s[s.len() - 2]);
        let lo = hex_val_of(s.last());
        if rest is Some && hi is Some && lo is Some {
            Some(rest.unwrap().push((hi.unwrap() * 16 + lo.unwrap()) as u8))
        } else {
            None
        }
    }
}

/// A hex spelling is twice as long as its source and consists of ASCII
/// bytes only.
pub proof fn lemma_hex_encode_shape(b: Seq<u8>)
    ensures
        spec_hex_encode(b).len() == 2 * b.len(),
        forall|i: int| 0 <= i < 2 * b.len() ==> #[trigger] spec_hex_encode(b)[i] < 128,
    decreases b.len(),
{
    if b.len() > 0 {
        lemma_hex_encode_shape(b.drop_last());
    }
}

/// Decoding inverts encoding: every byte string comes back from its hex
/// spelling unchanged.
pub proof fn lemma_hex_round_trip(b: Seq<u8>)
    ensures
        spec_hex_decode(spec_hex_encode(b)) == Some(b),
    decreases b.len(),
{
    if b.len() == 0 {
        assert(spec_hex_encode(b).len() == 0);
        assert(spec_hex_decode(spec_hex_encode(b)) == Some(b)) by {
            assert(b =~= Seq::<u8>::empty());
        }
    } else {
        lemma_hex_round_trip(b.drop_last());
        lemma_hex_encode_shape(b.drop_last());
        let e = spec_hex_encode(b);
        assert(e.drop_last().drop_last() =~= spec_hex_encode(b.drop_last()));
        let x = b.last();
        assert(hex_val_of(hex_digit_of(x / 16)) == Some(x / 16));
        assert(hex_val_of(hex_digit_of(x % 16)) == Some(x % 16));
        assert((x / 16) * 16 + x % 16 == x) by (nonlinear_arith);
        assert(spec_hex_decode(e).unwrap() =~= b);
    }
}

/// The lowercase hex digit byte of a value below 16.
fn hex_digit(n: u8) -> (r: u8)
    requires
        n < 16,
    ensures
        r == hex_digit_of(n),
{
    if n < 10 {
        48 + n
    } else {
        87 + n
    }
}

/// The value of a lowercase hex digit byte.
fn hex_val(c: u8) -> (r: Option<u8>)
    ensures
        r == hex_val_of(c),
{
    if 48 <= c && c <= 57 {
        Some(c - 48)
    } else if 97 <= c && c <= 102 {
        Some(c - 87)
    } else {
        None
    }
}

/// Encode a byte string as lowercase hex.
pub fn hex_encode(bytes: &[u8]) -> (r: Vec<u8>)
    ensures
        r@ == spec_hex_encode(bytes@),
        r@.len() == 2 * bytes@.len(),
{
    let mut out: Vec<u8> = Vec::new();
    let mut i: usize = 0;
    while i < bytes.len()
        invariant
            i <= bytes@.len(),
            out@ == spec_hex_encode(bytes@.take(i as int)),
            out@.len() == 2 * i,
        decreases bytes@.len() - i,
    {
        let x = bytes[i];
        out.push(hex_digit(x / 16));
        out.push(hex_digit(x % 16));
        proof {
            let t = bytes@.take(i + 1 as int);
            assert(t.drop_last() =~= bytes@.take(i as int));
            assert(t.last() == bytes@[i as int]);
        }
        i += 1;
    }
    proof {
        assert(bytes@.take(bytes@.len() as int) =~= bytes@);
        lemma_hex_encode_shape(bytes@);
    }
    out
}

/// Decode a lowercase hex spelling; `None` on odd length or a byte that is
/// not a lowercase hex digit.
pub fn hex_decode(s: &[u8]) -> (r: Option<Vec<u8>>)
    ensures
        match r {
            Some(v) => spec_hex_decode(s@) == Some(v@),
            None => spec_hex_decode(s@) is None,
        },
{
    if s.len() % 2 != 0 {
        proof {
            lemma_hex_odd_none(s@);
        }
        return None;
    }
    let mut out: Vec<u8> = Vec::new();
    let mut i: usize = 0;
    while i < s.len()
        invariant
            i <= s@.len(),
            i % 2 == 0,
            s@.len() % 2 == 0,
            spec_hex_decode(s@.take(i as int)) == Some(out@),
        decreases s@.len() - i,
    {
        let hi = hex_val(s[i]);
        let lo = hex_val(s[i + 1]);
        match (hi, lo) {
            (Some(h), Some(l)) => {
                out.push(h * 16 + l);
                proof {
                    let t = s@.take(i + 2 as int);
                    assert(t.drop_last().drop_last() =~= s@.take(i as int));
                    assert(t[t.len() - 2] == s@[i as int]);
                    assert(t.last() == s@[i + 1 as int]);
                }
                i += 2;
            },
            _ => {
                proof {
                    lemma_hex_bad_digit_none(s@, i as int);
                }
                return None;
            },
        }
    }
    proof {
        assert(s@.take(s@.len() as int) =~= s@);
    }
    Some(out)
}

/// A spelling of odd length decodes to nothing.
proof fn lemma_hex_odd_none(s: Seq<u8>)
    requires
        s.len() % 2 != 0,
    ensures
        spec_hex_decode(s) is None,
{
}

/// A spelling with a non-digit byte decodes to nothing.
proof fn lemma_hex_bad_digit_none(s: Seq<u8>, i: int)
    requires
        s.len() % 2 == 0,
        0 <= i,
        i % 2 == 0,
        i + 2 <= s.len(),
        hex_val_of(s[i]) is None || hex_val_of(s[i + 1]) is None,
    ensures
        spec_hex_decode(s) is None,
    decreases s.len(),
{
    if i + 2 == s.len() {
    } else {
        lemma_hex_bad_digit_none(s.drop_last().drop_last(), i);
    }
}

} // verus!
