//! Program images: little-endian byte pairs, low byte first.
use vstd::prelude::*;

verus! {

/// The word whose low byte is `lo` and high byte is `hi`.
pub open spec fn le_word(lo: u8, hi: u8) -> u16 {
    (lo as int + 256 * hi as int) as u16
}

/// The words of `bytes`, two bytes each, low byte first.
pub open spec fn words_of(bytes: Seq<u8>) -> Seq<u16> {
    Seq::new(bytes.len() / 2, |i: int| le_word(bytes[2 * i], bytes[2 * i + 1]))
}

/// The bytes of `words`, low byte first.
pub open spec fn bytes_of(words: Seq<u16>) -> Seq<u8> {
    Seq::new(
        words.len() * 2,
        |i: int|
            if i % 2 == 0 {
                (words[i / 2] % 256) as u8
            } else {
                (words[i / 2] / 256) as u8
            },
    )
}

/// Decodes a program image; `None` when its length is odd.
pub fn words_from_le_bytes(bytes: &[u8]) -> (r: Option<Vec<u16>>)
    ensures
        r is None <==> bytes@.len() % 2 == 1,
        r is Some ==> r->Some_0@ == words_of(bytes@),
{
    if bytes.len() % 2 == 1 {
        return None;
    }
    let mut words: Vec<u16> = Vec::new();
    let n = bytes.len() / 2;
    let mut i: usize = 0;
    while i < n
        invariant
            n == bytes@.len() / 2,
            n * 2 == bytes@.len(),
            bytes@.len() <= usize::MAX,
            i <= n,
            words@ =~= words_of(bytes@).subrange(0, i as int),
        decreases n - i,
    {
        let lo = bytes[2 * i];
        let hi = bytes[2 * i + 1];
        words.push(lo as u16 + (hi as u16) * 256);
        i = i + 1;
    }
    assert(words@ =~= words_of(bytes@));
    Some(words)
}

/// Encodes words as a program image.
pub fn le_bytes_from_words(words: &[u16]) -> (r: Vec<u8>)
    requires
        words@.len() * 2 <= usize::MAX,
    ensures
        r@ == bytes_of(words@),
{
    let mut bytes: Vec<u8> = Vec::new();
    let mut i: usize = 0;
    while i < words.len()
        invariant
            i <= words@.len(),
            words@.len() * 2 <= usize::MAX,
            bytes@ =~= bytes_of(words@).subrange(0, 2 * i as int),
        decreases words@.len() - i,
    {
        let w = words[i];
        bytes.push((w % 256) as u8);
        bytes.push((w / 256) as u8);
        i = i + 1;
        assert forall|k: int| 2 * (i - 1) <= k < 2 * i implies #[trigger] bytes_of(words@)[k]
            == bytes@[k] by {
            assert(k / 2 == i - 1);
        }
    }
    bytes
}

/// Encoding words and decoding the bytes gives the words back.
pub proof fn lemma_words_round_trip(words: Seq<u16>)
    ensures
        bytes_of(words).len() % 2 == 0,
        words_of(bytes_of(words)) == words,
{
    let b = bytes_of(words);
    assert forall|i: int| 0 <= i < words.len() implies #[trigger] words_of(b)[i] == words[i] by {
        assert((2 * i) / 2 == i && (2 * i + 1) / 2 == i);
        assert((2 * i) % 2 == 0 && (2 * i + 1) % 2 == 1);
        let w = words[i];
        assert(w % 256 + 256 * (w / 256) == w);
    }
    assert(words_of(b) =~= words);
}

/// Decoding an even-length image and encoding the words gives the bytes back.
pub proof fn lemma_bytes_round_trip(bytes: Seq<u8>)
    requires
        bytes.len() % 2 == 0,
    ensures
        bytes_of(words_of(bytes)) == bytes,
{
    let w = words_of(bytes);
    assert forall|k: int| 0 <= k < bytes.len() implies #[trigger] bytes_of(w)[k] == bytes[k] by {
        let i = k / 2;
        let lo = bytes[2 * i];
        let hi = bytes[2 * i + 1];
        assert(((lo as int + 256 * hi as int) % 256) == lo && ((lo as int + 256 * hi as int) / 256)
            == hi);
    }
    assert(bytes_of(w) =~= bytes);
}

} // verus!
