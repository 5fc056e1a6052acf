use vstd::prelude::*;
use crate::text::{is_letter, is_letter_exec};

verus! {

/// The letters a to z in order.
pub open spec fn alphabet() -> Seq<char> {
    Seq::new(26, |i: int| (97 + i) as char)
}

/// Appends to `acc`, in order, each character of `s` that is a lowercase
/// letter, not yet present and not `ignore`.
pub open spec fn absorb(acc: Seq<char>, s: Seq<char>, ignore: char) -> Seq<char>
    decreases s.len(),
{
    if s.len() == 0 {
        acc
    } else {
        let prev = absorb(acc, s.drop_last(), ignore);
        let c = s.last();
        if is_letter(c) && !prev.contains(c) && c != ignore {
            prev.push(c)
        } else {
            prev
        }
    }
}

/// The key square built from an already lowercased key.
pub open spec fn square_of(lowered_key: Seq<char>, ignore: char) -> Seq<char> {
    absorb(absorb(Seq::empty(), lowered_key, ignore), alphabet(), ignore)
}

/// A key square: 25 or 26 distinct lowercase letters.
pub open spec fn square_wf(sq: Seq<char>) -> bool {
    &&& 25 <= sq.len() <= 26
    &&& sq.no_duplicates()
    &&& forall|i: int| 0 <= i < sq.len() ==> is_letter(#[trigger] sq[i])
}

/// Absorbing keeps the characters distinct, lowercase letters and free of
/// `ignore`, and holds exactly what was there and what qualified in `s`.
pub proof fn lemma_absorb(acc: Seq<char>, s: Seq<char>, ignore: char)
    requires
        acc.no_duplicates(),
        forall|i: int| 0 <= i < acc.len() ==> is_letter(#[trigger] acc[i]),
        !acc.contains(ignore),
    ensures
        absorb(acc, s, ignore).no_duplicates(),
        !absorb(acc, s, ignore).contains(ignore),
        forall|c: char|
            #[trigger] absorb(acc, s, ignore).contains(c) <==> (acc.contains(c) || (s.contains(c)
                && is_letter(c) && c != ignore)),
    decreases s.len(),
{
    if s.len() > 0 {
        lemma_absorb(acc, s.drop_last(), ignore);
        let prev = absorb(acc, s.drop_last(), ignore);
        let c = s.last();
        assert forall|d: char| s.contains(d) <==> (s.drop_last().contains(d) || d == c) by {
            if s.contains(d) {
                let j = choose|j: int| 0 <= j < s.len() && s[j] == d;
                if j < s.len() - 1 {
                    assert(s.drop_last()[j] == d);
                }
            }
            if s.drop_last().contains(d) {
                let j = choose|j: int| 0 <= j < s.len() - 1 && s.drop_last()[j] == d;
                assert(s[j] == d);
            }
            if d == c {
                assert(s[s.len() - 1] == d);
            }
        }
        assert forall|d: char|
            #[trigger] absorb(acc, s, ignore).contains(d) <==> (acc.contains(d) || (s.contains(d)
                && is_letter(d) && d != ignore)) by {
            assert(s.contains(d) <==> (s.drop_last().contains(d) || d == c));
            if is_letter(c) && !prev.contains(c) && c != ignore {
                assert(absorb(acc, s, ignore) == prev.push(c));
                if prev.push(c).contains(d) {
                    let j = choose|j: int| 0 <= j < prev.len() + 1 && prev.push(c)[j] == d;
                    if j < prev.len() {
                        assert(prev[j] == d);
                    }
                }
                if prev.contains(d) {
                    let j = choose|j: int| 0 <= j < prev.len() && prev[j] == d;
                    assert(prev.push(c)[j] == d);
                }
                if d == c {
                    assert(prev.push(c)[prev.len() as int] == d);
                }
            }
        }
    } else {
        assert forall|d: char| !s.contains(d) by {}
    }
}

/// The letters of the alphabet are exactly the lowercase letters, each once.
pub proof fn lemma_alphabet()
    ensures
        alphabet().no_duplicates(),
        forall|c: char| #[trigger] alphabet().contains(c) <==> is_letter(c),
{
    assert forall|c: char| #[trigger] alphabet().contains(c) <==> is_letter(c) by {
        if is_letter(c) {
            assert(alphabet()[c as int - 97] == c);
        }
    }
}

/// Every key square is well formed, lacks `ignore`, and holds every other
/// letter; it has exactly 25 letters when `ignore` is a lowercase letter.
pub proof fn lemma_square_wf(lowered_key: Seq<char>, ignore: char)
    ensures
        square_wf(square_of(lowered_key, ignore)),
        !square_of(lowered_key, ignore).contains(ignore),
        forall|c: char|
            #[trigger] square_of(lowered_key, ignore).contains(c) <==> (is_letter(c) && c != ignore),
        is_letter(ignore) ==> square_of(lowered_key, ignore).len() == 25,
{
    let e = Seq::<char>::empty();
    lemma_absorb(e, lowered_key, ignore);
    let keyed = absorb(e, lowered_key, ignore);
    assert forall|i: int| 0 <= i < keyed.len() implies is_letter(#[trigger] keyed[i]) by {
        assert(keyed.contains(keyed[i]));
    }
    lemma_absorb(keyed, alphabet(), ignore);
    lemma_alphabet();
    let sq = square_of(lowered_key, ignore);
    assert forall|i: int| 0 <= i < sq.len() implies is_letter(#[trigger] sq[i]) by {
        assert(sq.contains(sq[i]));
    }
    sq.unique_seq_to_set();
    alphabet().unique_seq_to_set();
    if is_letter(ignore) {
        assert(sq.to_set() =~= alphabet().to_set().remove(ignore));
        assert(alphabet().to_set().contains(ignore));
    } else {
        assert(sq.to_set() =~= alphabet().to_set());
    }
}

/// Builds the key square from an already lowercased key: the key's letters
/// in first-seen order, then the rest of the alphabet, leaving out `ignore`.
pub fn build_square(lowered: &Vec<char>, ignore: char) -> (r: Vec<char>)
    ensures
        r@ == square_of(lowered@, ignore),
{
    let mut result: Vec<char> = Vec::new();
    let mut i: usize = 0;
    while i < lowered.len()
        invariant
            0 <= i <= lowered@.len(),
            result@ == absorb(Seq::empty(), lowered@.subrange(0, i as int), ignore),
        decreases lowered@.len() - i,
    {
        let c = lowered[i];
        if is_letter_exec(c) && !contains(&result, c) && c != ignore {
            result.push(c);
        }
        proof {
            assert(lowered@.subrange(0, i + 1).drop_last() == lowered@.subrange(0, i as int));
        }
        i = i + 1;
    }
    assert(lowered@.subrange(0, lowered@.len() as int) == lowered@);
    let ghost keyed = result@;
    let mut b: u8 = 97;
    while b <= 122
        invariant
            97 <= b <= 123,
            result@ == absorb(keyed, alphabet().subrange(0, b - 97), ignore),
        decreases 123 - b,
    {
        let c = b as char;
        assert(c == alphabet()[b - 97]);
        if !contains(&result, c) && c != ignore {
            result.push(c);
        }
        proof {
            assert(alphabet().subrange(0, b - 96).drop_last() == alphabet().subrange(0, b - 97));
        }
        b = b + 1;
    }
    assert(alphabet().subrange(0, 26) == alphabet());
    result
}

/// The index of `c` in a square that holds it.
pub open spec fn pos_of(sq: Seq<char>, c: char) -> int {
    choose|i: int| 0 <= i < sq.len() && sq[i] == c
}

/// The letter at column `x` and row `y`, both taken modulo 5.
pub open spec fn at_spec(sq: Seq<char>, x: int, y: int) -> char {
    sq[(y % 5) * 5 + x % 5]
}

/// In a square without duplicates, an index that holds `c` is its position.
pub proof fn lemma_pos_of(sq: Seq<char>, c: char, p: int)
    requires
        sq.no_duplicates(),
        0 <= p < sq.len(),
        sq[p] == c,
    ensures
        pos_of(sq, c) == p,
        sq.contains(c),
{
    assert(sq.contains(c));
}

/// Whether `c` occurs in `v`.
fn contains(v: &Vec<char>, c: char) -> (r: bool)
    ensures
        r == v@.contains(c),
{
    let mut i: usize = 0;
    while i < v.len()
        invariant
            0 <= i <= v@.len(),
            forall|j: int| 0 <= j < i ==> v@[j] != c,
        decreases v@.len() - i,
    {
        if v[i] == c {
            return true;
        }
        i = i + 1;
    }
    false
}

} // verus!
