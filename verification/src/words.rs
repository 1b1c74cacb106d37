//! Conversion of push constant bytes into the words that passes store.

use vstd::prelude::*;

verus! {

/// The little-endian reading of four bytes.
pub open spec fn le_word(b0: u8, b1: u8, b2: u8, b3: u8) -> int {
    b0 + 256 * b1 + 65536 * b2 + 16777216 * b3
}

/// The big-endian reading of four bytes.
pub open spec fn be_word(b0: u8, b1: u8, b2: u8, b3: u8) -> int {
    b3 + 256 * b2 + 65536 * b1 + 16777216 * b0
}

/// The words of each whole group of four bytes of `data`, read little
/// endian when `little` holds and big endian otherwise; trailing bytes are
/// ignored.
pub open spec fn words_in_order(data: Seq<u8>, little: bool) -> Seq<u32> {
    Seq::new(
        data.len() / 4,
        |j: int|
            if little {
                le_word(data[4 * j], data[4 * j + 1], data[4 * j + 2], data[4 * j + 3]) as u32
            } else {
                be_word(data[4 * j], data[4 * j + 1], data[4 * j + 2], data[4 * j + 3]) as u32
            },
    )
}

/// `words` holds the words of `data` read in one byte order, the machine's.
pub open spec fn push_constant_words(data: Seq<u8>, words: Seq<u32>) -> bool {
    words == words_in_order(data, true) || words == words_in_order(data, false)
}

/// `u32::from_ne_bytes([1, 0, 0, 0])`: one on a little-endian machine, and
/// `1 << 24` on a big-endian one.  Which of the two is not stated.
#[verifier::external_body]
fn one_from_ne_bytes() -> (r: u32)
    ensures
        r == 1 || r == 0x0100_0000,
{
    u32::from_ne_bytes([1, 0, 0, 0])
}

/// Converts each whole group of four bytes of `data` into a word read little
/// endian when `little` holds and big endian otherwise; trailing bytes are
/// ignored.
pub fn words_from_bytes_in_order(data: &[u8], little: bool) -> (words: Vec<u32>)
    ensures
        words@ == words_in_order(data@, little),
{
    let len = data.len();
    let n = len / 4;
    let mut words: Vec<u32> = Vec::new();
    let mut i: usize = 0;
    while i < n
        invariant
            n == data@.len() / 4,
            len == data@.len(),
            i <= n,
            words@.len() == i,
            forall|j: int| 0 <= j < i ==> #[trigger] words@[j] == words_in_order(data@, little)[j],
        decreases n - i,
    {
        assert(4 * i + 3 < len) by (nonlinear_arith)
            requires
                i < n,
                n == len / 4,
        ;
        let b0 = data[4 * i] as u32;
        let b1 = data[4 * i + 1] as u32;
        let b2 = data[4 * i + 2] as u32;
        let b3 = data[4 * i + 3] as u32;
        let w = if little {
            b0 + 256 * b1 + 65536 * b2 + 16777216 * b3
        } else {
            b3 + 256 * b2 + 65536 * b1 + 16777216 * b0
        };
        words.push(w);
        i = i + 1;
    }
    assert(words@ =~= words_in_order(data@, little));
    words
}

/// Converts each whole group of four bytes of `data` into a word read in the
/// machine's byte order; trailing bytes are ignored.
pub fn words_from_bytes(data: &[u8]) -> (words: Vec<u32>)
    ensures
        push_constant_words(data@, words@),
{
    let little = one_from_ne_bytes() == 1;
    words_from_bytes_in_order(data, little)
}

} // verus!
