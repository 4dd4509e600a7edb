//! The binary emitter: each 16-bit word becomes two bytes, least
//! significant first, with no header, footer, padding or magic number.
//! Decoding pairs the bytes back up; the two directions invert each
//! other exactly.
use vstd::prelude::*;

verus! {

pub open spec fn lo_byte(w: u16) -> u8 {
    ((w as int) % 256) as u8
}

pub open spec fn hi_byte(w: u16) -> u8 {
    ((w as int) / 256) as u8
}

/// The byte stream of a word sequence, each word low byte first.
pub open spec fn le_bytes(ws: Seq<u16>) -> Seq<u8>
    decreases ws.len(),
{
    if ws.len() == 0 {
        Seq::empty()
    } else {
        seq![lo_byte(ws[0]), hi_byte(ws[0])] + le_bytes(ws.drop_first())
    }
}

/// The words read back from a byte stream, low byte first in each pair.
pub open spec fn le_words(bs: Seq<u8>) -> Seq<u16>
    decreases bs.len(),
{
    if bs.len() < 2 {
        Seq::empty()
    } else {
        seq![((bs[1] as int) * 256 + (bs[0] as int)) as u16] + le_words(bs.skip(2))
    }
}

/// Serializing then deserializing with the little-endian pairing rule
/// recovers every word exactly.
pub proof fn lemma_le_round_trip(ws: Seq<u16>)
    ensures
        le_bytes(ws).len() == 2 * ws.len(),
        le_words(le_bytes(ws)) == ws,
    decreases ws.len(),
{
    if ws.len() == 0 {
        assert(le_words(le_bytes(ws)) =~= ws);
    } else {
        lemma_le_round_trip(ws.drop_first());
        let bs = le_bytes(ws);
        assert(bs[0] == lo_byte(ws[0]));
        assert(bs[1] == hi_byte(ws[0]));
        assert(bs.skip(2) =~= le_bytes(ws.drop_first()));
        assert((bs[1] as int) * 256 + (bs[0] as int) == ws[0] as int);
        assert(le_words(bs) =~= ws);
    }
}

/// The byte stream of a word sequence, ready to be written out as the
/// assembled binary.
pub fn words_to_bytes(words: &Vec<u16>) -> (r: Vec<u8>)
    ensures
        r@ == le_bytes(words@),
{
    let n: usize = words.len();
    let mut r: Vec<u8> = Vec::new();
    let mut i: usize = 0;
    proof {
        assert(words@.skip(0) =~= words@);
    }
    while i < n
        invariant
            i <= n,
            n == words@.len(),
            le_bytes(words@) == r@ + le_bytes(words@.skip(i as int)),
        decreases n - i,
    {
        let w: u16 = words[i];
        let ghost rest = words@.skip(i as int);
        proof {
            assert(rest[0] == words@[i as int]);
            assert(rest.drop_first() =~= words@.skip(i as int + 1));
        }
        let ghost r0 = r@;
        r.push((w % 256) as u8);
        r.push((w / 256) as u8);
        i = i + 1;
        proof {
            assert(r@ =~= r0 + seq![lo_byte(w), hi_byte(w)]);
            assert(r0 + (seq![lo_byte(w), hi_byte(w)] + le_bytes(words@.skip(i as int))) =~= r@
                + le_bytes(words@.skip(i as int)));
        }
    }
    proof {
        assert(words@.skip(n as int) =~= Seq::<u16>::empty());
        assert(r@ + Seq::<u8>::empty() =~= r@);
    }
    r
}

/// The words read back from a byte stream; a trailing lone byte, which
/// no emitted binary has, is ignored.
pub fn bytes_to_words(bytes: &Vec<u8>) -> (r: Vec<u16>)
    ensures
        r@ == le_words(bytes@),
{
    let n: usize = bytes.len();
    let mut r: Vec<u16> = Vec::new();
    let mut i: usize = 0;
    proof {
        assert(bytes@.skip(0) =~= bytes@);
    }
    while i < n && i + 1 < n
        invariant
            i <= n,
            n == bytes@.len(),
            le_words(bytes@) == r@ + le_words(bytes@.skip(i as int)),
        decreases n - i,
    {
        let lo: u8 = bytes[i];
        let hi: u8 = bytes[i + 1];
        let w: u16 = (hi as u16) * 256 + (lo as u16);
        let ghost rest = bytes@.skip(i as int);
        proof {
            assert(rest.len() >= 2);
            assert(rest[0] == bytes@[i as int]);
            assert(rest[1] == bytes@[i as int + 1]);
            assert(rest.skip(2) =~= bytes@.skip(i as int + 2));
        }
        let ghost r0 = r@;
        r.push(w);
        i = i + 2;
        proof {
            assert(r@ =~= r0 + seq![w]);
            assert(r0 + (seq![w] + le_words(bytes@.skip(i as int))) =~= r@ + le_words(
                bytes@.skip(i as int),
            ));
        }
    }
    proof {
        assert(bytes@.skip(i as int).len() < 2);
        assert(le_words(bytes@.skip(i as int)) =~= Seq::<u16>::empty());
        assert(r@ + Seq::<u16>::empty() =~= r@);
    }
    r
}

} // verus!
