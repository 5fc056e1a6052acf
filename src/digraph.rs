use vstd::prelude::*;
use crate::text::{is_letter, is_letter_exec};

verus! {

/// The letter put between doubled letters and after an odd last letter.
pub const FILLER: char = 'x';

/// The lowercase letters of `s`, in order; everything else is dropped.
pub open spec fn letters_of(s: Seq<char>) -> Seq<char>
    decreases s.len(),
{
    if s.len() == 0 {
        Seq::empty()
    } else if is_letter(s.last()) {
        letters_of(s.drop_last()).push(s.last())
    } else {
        letters_of(s.drop_last())
    }
}

/// One pair of letters, split by the filler where the two are the same.
pub open spec fn piece(a: char, b: char) -> Seq<char> {
    if a == b {
        seq![a, FILLER, b]
    } else {
        seq![a, b]
    }
}

/// `s` taken in consecutive pairs from the front, each pair split where its
/// letters repeat; a last single letter stays as it is.
pub open spec fn expand(s: Seq<char>) -> Seq<char>
    decreases s.len(),
{
    if s.len() == 0 {
        Seq::empty()
    } else if s.len() % 2 == 1 {
        expand(s.drop_last()).push(s.last())
    } else {
        expand(s.subrange(0, s.len() - 2)) + piece(s[s.len() - 2], s[s.len() - 1])
    }
}

/// `s`, with a filler after it where its length is odd.
pub open spec fn pad(s: Seq<char>) -> Seq<char> {
    if s.len() % 2 == 1 {
        s.push(FILLER)
    } else {
        s
    }
}

/// The consecutive pairs of `s`.
pub open spec fn pairs_of(s: Seq<char>) -> Seq<(char, char)> {
    Seq::new(s.len() / 2, |k: int| (s[2 * k], s[2 * k + 1]))
}

/// The digraphs of an already lowercased text.
pub open spec fn digraphs_of(lowered: Seq<char>) -> Seq<(char, char)> {
    pairs_of(pad(expand(letters_of(lowered))))
}

/// Splits an already lowercased text into digraphs: letters only, a filler
/// between doubled letters of a pair, and one at the end if needed.
pub fn digraphs(lowered: &Vec<char>) -> (r: Vec<(char, char)>)
    ensures
        r@ == digraphs_of(lowered@),
{
    let mut letters: Vec<char> = Vec::new();
    let mut i: usize = 0;
    while i < lowered.len()
        invariant
            0 <= i <= lowered@.len(),
            letters@ == letters_of(lowered@.subrange(0, i as int)),
        decreases lowered@.len() - i,
    {
        let c = lowered[i];
        assert(lowered@.subrange(0, i + 1).drop_last() == lowered@.subrange(0, i as int));
        if is_letter_exec(c) {
            letters.push(c);
        }
        i = i + 1;
    }
    assert(lowered@.subrange(0, lowered@.len() as int) == lowered@);

    let mut text: Vec<char> = Vec::new();
    let mut j: usize = 0;
    while j < letters.len()
        invariant
            0 <= j <= letters@.len(),
            j % 2 == 0 || j == letters@.len(),
            text@ == expand(letters@.subrange(0, j as int)),
            text@.len() <= 2 * j,
        decreases letters@.len() - j,
    {
        if j + 1 < letters.len() {
            let a = letters[j];
            let b = letters[j + 1];
            let ghost s = letters@.subrange(0, j + 2);
            assert(s.subrange(0, s.len() - 2) == letters@.subrange(0, j as int));
            assert(s[s.len() - 2] == a && s[s.len() - 1] == b);
            text.push(a);
            if a == b {
                text.push(FILLER);
            }
            text.push(b);
            assert(text@ == expand(s));
            j = j + 2;
        } else {
            let a = letters[j];
            assert(letters@.subrange(0, j + 1).drop_last() == letters@.subrange(0, j as int));
            text.push(a);
            j = j + 1;
        }
    }
    assert(letters@.subrange(0, letters@.len() as int) == letters@);

    if text.len() % 2 == 1 {
        text.push(FILLER);
    }

    let mut out: Vec<(char, char)> = Vec::new();
    let mut k: usize = 0;
    while k < text.len() / 2
        invariant
            text@.len() % 2 == 0,
            0 <= k <= text@.len() / 2,
            out@ == pairs_of(text@).subrange(0, k as int),
        decreases text@.len() / 2 - k,
    {
        out.push((text[2 * k], text[2 * k + 1]));
        assert(pairs_of(text@).subrange(0, k + 1) == pairs_of(text@).subrange(0, k as int).push(
            (text@[2 * k], text@[2 * k + 1]),
        ));
        k = k + 1;
    }
    assert(pairs_of(text@).subrange(0, k as int) == pairs_of(text@));
    out
}

} // verus!
