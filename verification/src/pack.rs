//! String packing for the `ds` data directive: a payload's characters
//! become one byte each, a zero byte pads an odd count, and consecutive
//! byte pairs `(lo, hi)` form the word `hi * 256 + lo` (low byte first).
use vstd::prelude::*;

use crate::text::chars_of;

verus! {

/// The payload without one layer of surrounding double quotes, if both
/// are present.
pub open spec fn strip_quotes(s: Seq<char>) -> Seq<char> {
    if s.len() >= 2 && s[0] == '"' && s.last() == '"' {
        s.subrange(1, s.len() - 1)
    } else {
        s
    }
}

/// The byte a payload character contributes: its code point, reduced to
/// one byte.
pub open spec fn byte_of_char(c: char) -> u8 {
    (((c as u32) as int) % 256) as u8
}

/// Two bytes paired little endian into one word.
pub open spec fn pair_word(lo: u8, hi: u8) -> u16 {
    ((hi as int) * 256 + (lo as int)) as u16
}

/// The words a character sequence packs to: byte pairs low byte first,
/// with a zero high byte closing an odd-length sequence.
pub open spec fn pack_words(s: Seq<char>) -> Seq<u16>
    decreases s.len(),
{
    if s.len() == 0 {
        Seq::empty()
    } else if s.len() == 1 {
        seq![pair_word(byte_of_char(s[0]), 0)]
    } else {
        seq![pair_word(byte_of_char(s[0]), byte_of_char(s[1]))] + pack_words(s.skip(2))
    }
}

/// A packed payload takes one word per byte pair: half the character
/// count, rounded up; the padding byte of an odd-length payload leaves
/// the final word's high byte zero.
pub proof fn lemma_pack_words_len(s: Seq<char>)
    ensures
        pack_words(s).len() == (s.len() + 1) / 2,
        s.len() % 2 == 0 ==> pack_words(s).len() == s.len() / 2,
        s.len() % 2 == 1 ==> pack_words(s).last() == pair_word(byte_of_char(s.last()), 0),
        s.len() % 2 == 1 ==> pack_words(s).last() < 256,
    decreases s.len(),
{
    if s.len() > 1 {
        lemma_pack_words_len(s.skip(2));
        if s.len() % 2 == 1 {
            assert(s.skip(2).len() % 2 == 1);
            assert(s.skip(2).last() == s.last());
            assert(pack_words(s).last() == pack_words(s.skip(2)).last());
        }
    }
}

fn byte_of_char_exec(c: char) -> (r: u8)
    ensures
        r == byte_of_char(c),
{
    let v: u32 = c as u32;
    (v % 256) as u8
}

/// The characters of `v` without one layer of surrounding quotes.
fn strip_quotes_vec(v: &Vec<char>) -> (r: Vec<char>)
    ensures
        r@ == strip_quotes(v@),
{
    let n: usize = v.len();
    if n >= 2 && v[0] == '"' && v[n - 1] == '"' {
        let mut r: Vec<char> = Vec::new();
        let mut i: usize = 1;
        while i < n - 1
            invariant
                1 <= i <= n - 1,
                n == v@.len(),
                r@ == v@.subrange(1, i as int),
            decreases n - i,
        {
            r.push(v[i]);
            i = i + 1;
            proof {
                assert(r@ =~= v@.subrange(1, i as int));
            }
        }
        r
    } else {
        let mut r: Vec<char> = Vec::new();
        let mut i: usize = 0;
        while i < n
            invariant
                i <= n,
                n == v@.len(),
                r@ == v@.take(i as int),
            decreases n - i,
        {
            r.push(v[i]);
            i = i + 1;
            proof {
                assert(r@ =~= v@.take(i as int));
            }
        }
        proof {
            assert(v@.take(n as int) =~= v@);
        }
        r
    }
}

/// How many words a payload of `stripped_len` characters packs to,
/// without overflow.
pub fn pack_len_of(stripped_len: usize) -> (r: usize)
    ensures
        r as int == (stripped_len + 1) / 2,
{
    stripped_len / 2 + stripped_len % 2
}

/// The words a `ds` payload token packs to, quotes stripped first.
pub fn pack_payload(token: &str) -> (r: Vec<u16>)
    ensures
        r@ == pack_words(strip_quotes(token@)),
{
    let cs: Vec<char> = chars_of(token);
    let s: Vec<char> = strip_quotes_vec(&cs);
    let n: usize = s.len();
    let mut r: Vec<u16> = Vec::new();
    let mut i: usize = 0;
    proof {
        assert(s@.skip(0) =~= s@);
    }
    while i + 1 < n
        invariant
            i <= n,
            i % 2 == 0,
            n == s@.len(),
            pack_words(s@) == r@ + pack_words(s@.skip(i as int)),
        decreases n - i,
    {
        let lo: u8 = byte_of_char_exec(s[i]);
        let hi: u8 = byte_of_char_exec(s[i + 1]);
        let w: u16 = (hi as u16) * 256 + (lo as u16);
        proof {
            let rest = s@.skip(i as int);
            assert(rest.len() >= 2);
            assert(rest[0] == s@[i as int]);
            assert(rest[1] == s@[i as int + 1]);
            assert(rest.skip(2) =~= s@.skip(i as int + 2));
        }
        r.push(w);
        i = i + 2;
    }
    if i < n {
        let lo: u8 = byte_of_char_exec(s[i]);
        let w: u16 = lo as u16;
        proof {
            let rest = s@.skip(i as int);
            assert(rest.len() == 1);
            assert(rest[0] == s@[i as int]);
            assert(pack_words(rest) =~= seq![pair_word(byte_of_char(s@[i as int]), 0)]);
        }
        r.push(w);
        proof {
            assert(pack_words(s@) =~= r@);
        }
    } else {
        proof {
            assert(s@.skip(i as int) =~= Seq::<char>::empty());
            assert(pack_words(s@) =~= r@);
        }
    }
    r
}

} // verus!
