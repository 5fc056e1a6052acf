//! Properties of the cipher, proved over the specifications of its parts.
use vstd::prelude::*;
use crate::cipher::{lemma_failure_stays, transform_all, transform_pair};
use crate::error::PlayfairError;
use crate::digraph::{digraphs_of, expand, letters_of, pad, piece};
use crate::render::rendered;
use crate::shape::{apply, classify, Shape};
use crate::square::{at_spec, lemma_pos_of, lemma_square_wf, pos_of, square_of, square_wf};
use crate::text::{is_letter, lower_of};

verus! {

/// For any key and any lowercase letter left out, the square holds exactly
/// 25 distinct lowercase letters, and not the one left out.
pub proof fn law_square_has_25_letters(key: Seq<char>, ignore: char)
    requires
        is_letter(ignore),
    ensures
        square_of(lower_of(key), ignore).len() == 25,
        square_of(lower_of(key), ignore).no_duplicates(),
        !square_of(lower_of(key), ignore).contains(ignore),
        forall|i: int|
            0 <= i < 25 ==> is_letter(#[trigger] square_of(lower_of(key), ignore)[i]),
{
    lemma_square_wf(lower_of(key), ignore);
}

proof fn lemma_coords(x: int, y: int)
    requires
        0 <= x < 5,
        0 <= y < 5,
    ensures
        (y * 5 + x) % 5 == x,
        (y * 5 + x) / 5 == y,
        0 <= y * 5 + x < 25,
{
    assert((y * 5 + x) % 5 == x && (y * 5 + x) / 5 == y && 0 <= y * 5 + x < 25)
        by (nonlinear_arith)
        requires
            0 <= x < 5,
            0 <= y < 5,
    ;
}

proof fn lemma_split(p: int)
    requires
        0 <= p < 25,
    ensures
        p == (p / 5) * 5 + p % 5,
        0 <= p / 5 < 5,
        0 <= p % 5 < 5,
{
}

/// The letter at a position of a 25-letter square, and its place again.
proof fn lemma_letter_at(sq: Seq<char>, x: int, y: int)
    requires
        sq.no_duplicates(),
        sq.len() == 25,
        0 <= x < 5,
        0 <= y < 5,
    ensures
        at_spec(sq, x, y) == sq[y * 5 + x],
        sq.contains(at_spec(sq, x, y)),
        pos_of(sq, at_spec(sq, x, y)) == y * 5 + x,
        pos_of(sq, at_spec(sq, x, y)) % 5 == x,
        pos_of(sq, at_spec(sq, x, y)) / 5 == y,
{
    lemma_coords(x, y);
    lemma_pos_of(sq, sq[y * 5 + x], y * 5 + x);
}

/// The place of a letter of a 25-letter square.
proof fn lemma_place(sq: Seq<char>, c: char)
    requires
        sq.no_duplicates(),
        sq.len() == 25,
        sq.contains(c),
    ensures
        0 <= pos_of(sq, c) < 25,
        sq[pos_of(sq, c)] == c,
        at_spec(sq, pos_of(sq, c) % 5, pos_of(sq, c) / 5) == c,
{
    let p = pos_of(sq, c);
    lemma_split(p);
}

/// A digraph whose letters make a rectangle in a 25-letter square comes back
/// to itself when its rectangle substitution is applied twice, whatever the
/// step.
pub proof fn law_rectangle_self_inverse(sq: Seq<char>, a: char, b: char, s1: int, s2: int)
    requires
        square_wf(sq),
        sq.len() == 25,
        sq.contains(a),
        sq.contains(b),
        classify(pos_of(sq, a) as nat, pos_of(sq, b) as nat) is Rectangle,
    ensures
        transform_pair(sq, (a, b), s1) matches Ok(d) && classify(
            pos_of(sq, d.0) as nat,
            pos_of(sq, d.1) as nat,
        ) is Rectangle && transform_pair(sq, d, s2) == Ok::<(char, char), PlayfairError>(
            (a, b),
        ),
{
    lemma_place(sq, a);
    lemma_place(sq, b);
    let p1 = pos_of(sq, a);
    let p2 = pos_of(sq, b);
    let (x1, y1, x2, y2) = (p1 % 5, p1 / 5, p2 % 5, p2 / 5);
    lemma_letter_at(sq, x2, y1);
    lemma_letter_at(sq, x1, y2);
}

/// Moving a coordinate one place forward and then four (or four and then
/// one), modulo 5, brings it back to where it was.
pub proof fn law_line_shifts_inverse(c: int)
    requires
        0 <= c,
    ensures
        ((c + 1) % 5 + 4) % 5 == c % 5,
        ((c + 4) % 5 + 1) % 5 == c % 5,
{
}

/// Two letters of one column move one place down when enciphered.
proof fn lemma_column_shift(sq: Seq<char>, x: int, y1: int, y2: int)
    requires
        sq.no_duplicates(),
        sq.len() == 25,
        0 <= x < 5,
        0 <= y1 < 5,
        0 <= y2 < 5,
    ensures
        transform_pair(sq, (at_spec(sq, x, y1), at_spec(sq, x, y2)), 1) == Ok::<
            (char, char),
            PlayfairError,
        >((at_spec(sq, x, (y1 + 1) % 5), at_spec(sq, x, (y2 + 1) % 5))),
{
    lemma_letter_at(sq, x, y1);
    lemma_letter_at(sq, x, y2);
    assert(at_spec(sq, x, y1 + 1) == at_spec(sq, x, (y1 + 1) % 5));
    assert(at_spec(sq, x, y2 + 1) == at_spec(sq, x, (y2 + 1) % 5));
}

/// Two letters of one column, moved one place down, move back by four places.
proof fn lemma_column_shift_back(sq: Seq<char>, x: int, y1: int, y2: int)
    requires
        sq.no_duplicates(),
        sq.len() == 25,
        0 <= x < 5,
        0 <= y1 < 5,
        0 <= y2 < 5,
    ensures
        transform_pair(sq, (at_spec(sq, x, (y1 + 1) % 5), at_spec(sq, x, (y2 + 1) % 5)), 4)
            == Ok::<(char, char), PlayfairError>((at_spec(sq, x, y1), at_spec(sq, x, y2))),
{
    let (v1, v2) = ((y1 + 1) % 5, (y2 + 1) % 5);
    lemma_letter_at(sq, x, v1);
    lemma_letter_at(sq, x, v2);
    law_line_shifts_inverse(y1);
    law_line_shifts_inverse(y2);
    assert(at_spec(sq, x, v1 + 4) == at_spec(sq, x, y1));
    assert(at_spec(sq, x, v2 + 4) == at_spec(sq, x, y2));
}

/// A digraph on one column of a 25-letter square: one place down, then four.
proof fn lemma_vertical_round_trip(sq: Seq<char>, a: char, b: char)
    requires
        sq.no_duplicates(),
        sq.len() == 25,
        sq.contains(a),
        sq.contains(b),
        classify(pos_of(sq, a) as nat, pos_of(sq, b) as nat) is VerticalLine,
    ensures
        transform_pair(sq, (a, b), 1) matches Ok(d) && transform_pair(sq, d, 4) == Ok::<
            (char, char),
            PlayfairError,
        >((a, b)),
{
    lemma_place(sq, a);
    lemma_place(sq, b);
    let p1 = pos_of(sq, a);
    let p2 = pos_of(sq, b);
    let x = p1 % 5;
    assert(p2 % 5 == x);
    lemma_column_shift(sq, x, p1 / 5, p2 / 5);
    lemma_column_shift_back(sq, x, p1 / 5, p2 / 5);
}

/// Two letters of one row, moved one place right, move back by four places.
proof fn lemma_row_shift_back(sq: Seq<char>, x1: int, x2: int, y: int)
    requires
        sq.no_duplicates(),
        sq.len() == 25,
        0 <= x1 < 5,
        0 <= x2 < 5,
        0 <= y < 5,
        x1 != x2,
    ensures
        transform_pair(sq, (at_spec(sq, (x1 + 1) % 5, y), at_spec(sq, (x2 + 1) % 5, y)), 4)
            == Ok::<(char, char), PlayfairError>((at_spec(sq, x1, y), at_spec(sq, x2, y))),
{
    let (u1, u2) = ((x1 + 1) % 5, (x2 + 1) % 5);
    lemma_letter_at(sq, u1, y);
    lemma_letter_at(sq, u2, y);
    law_line_shifts_inverse(x1);
    law_line_shifts_inverse(x2);
    assert(u1 != u2);
    assert(at_spec(sq, u1 + 4, y) == at_spec(sq, x1, y));
    assert(at_spec(sq, u2 + 4, y) == at_spec(sq, x2, y));
}

/// Two letters of one row move one place right when enciphered.
proof fn lemma_row_shift(sq: Seq<char>, x1: int, x2: int, y: int)
    requires
        sq.no_duplicates(),
        sq.len() == 25,
        0 <= x1 < 5,
        0 <= x2 < 5,
        0 <= y < 5,
        x1 != x2,
    ensures
        transform_pair(sq, (at_spec(sq, x1, y), at_spec(sq, x2, y)), 1) == Ok::<
            (char, char),
            PlayfairError,
        >((at_spec(sq, (x1 + 1) % 5, y), at_spec(sq, (x2 + 1) % 5, y))),
{
    lemma_letter_at(sq, x1, y);
    lemma_letter_at(sq, x2, y);
    assert(at_spec(sq, x1 + 1, y) == at_spec(sq, (x1 + 1) % 5, y));
    assert(at_spec(sq, x2 + 1, y) == at_spec(sq, (x2 + 1) % 5, y));
}

/// A digraph on one row of a 25-letter square: one place right, then four.
proof fn lemma_horizontal_round_trip(sq: Seq<char>, a: char, b: char)
    requires
        sq.no_duplicates(),
        sq.len() == 25,
        sq.contains(a),
        sq.contains(b),
        classify(pos_of(sq, a) as nat, pos_of(sq, b) as nat) is HorizontalLine,
    ensures
        transform_pair(sq, (a, b), 1) matches Ok(d) && transform_pair(sq, d, 4) == Ok::<
            (char, char),
            PlayfairError,
        >((a, b)),
{
    lemma_place(sq, a);
    lemma_place(sq, b);
    let p1 = pos_of(sq, a);
    let p2 = pos_of(sq, b);
    let x1 = p1 % 5;
    let x2 = p2 % 5;
    let y = p1 / 5;
    assert(x1 != x2 && p2 / 5 == y);
    lemma_row_shift(sq, x1, x2, y);
    lemma_row_shift_back(sq, x1, x2, y);
}

/// In a 25-letter square, deciphering the encipherment of a digraph whose
/// letters the square holds gives the digraph back.
pub proof fn law_decipher_inverts_encipher_pair(sq: Seq<char>, a: char, b: char)
    requires
        square_wf(sq),
        sq.len() == 25,
        sq.contains(a),
        sq.contains(b),
    ensures
        transform_pair(sq, (a, b), 1) matches Ok(d) && transform_pair(sq, d, 4) == Ok::<
            (char, char),
            PlayfairError,
        >((a, b)),
{
    let shape = classify(pos_of(sq, a) as nat, pos_of(sq, b) as nat);
    if shape is VerticalLine {
        lemma_vertical_round_trip(sq, a, b);
    } else if shape is HorizontalLine {
        lemma_horizontal_round_trip(sq, a, b);
    } else {
        law_rectangle_self_inverse(sq, a, b, 1, 4);
    }
}

/// In a 25-letter square, deciphering the encipherment of a sequence of
/// digraphs whose letters the square holds gives the sequence back.
pub proof fn law_decipher_inverts_encipher(sq: Seq<char>, ds: Seq<(char, char)>)
    requires
        square_wf(sq),
        sq.len() == 25,
        forall|i: int| 0 <= i < ds.len() ==> sq.contains(#[trigger] ds[i].0) && sq.contains(ds[i].1),
    ensures
        transform_all(sq, ds, 1) matches Ok(e) && transform_all(sq, e, 4) == Ok::<
            Seq<(char, char)>,
            PlayfairError,
        >(ds),
    decreases ds.len(),
{
    if ds.len() > 0 {
        let init = ds.drop_last();
        assert forall|i: int| 0 <= i < init.len() implies sq.contains(#[trigger] init[i].0)
            && sq.contains(init[i].1) by {
            assert(init[i] == ds[i]);
        }
        law_decipher_inverts_encipher(sq, init);
        let d = ds.last();
        assert(sq.contains(ds[ds.len() - 1].0));
        law_decipher_inverts_encipher_pair(sq, d.0, d.1);
        let e1 = transform_all(sq, init, 1)->Ok_0;
        let d1 = transform_pair(sq, d, 1)->Ok_0;
        let e = e1.push(d1);
        assert(transform_all(sq, ds, 1) == Ok::<Seq<(char, char)>, PlayfairError>(e));
        assert(e.drop_last() == e1);
        assert(e.last() == d1);
        assert(init.push(d) == ds);
        assert(transform_all(sq, e, 4) == Ok::<Seq<(char, char)>, PlayfairError>(
            init.push(d),
        ));
    } else {
        assert(ds == Seq::<(char, char)>::empty());
    }
}

proof fn lemma_letters_concat(a: Seq<char>, b: Seq<char>)
    ensures
        letters_of(a + b) == letters_of(a) + letters_of(b),
    decreases b.len(),
{
    if b.len() == 0 {
        assert(a + b == a);
    } else {
        assert((a + b).drop_last() == a + b.drop_last());
        lemma_letters_concat(a, b.drop_last());
    }
}

proof fn lemma_letters_idempotent(s: Seq<char>)
    ensures
        letters_of(letters_of(s)) == letters_of(s),
    decreases s.len(),
{
    if s.len() > 0 {
        lemma_letters_idempotent(s.drop_last());
        if is_letter(s.last()) {
            let l = letters_of(s.drop_last());
            assert(l.push(s.last()).drop_last() == l);
        }
    }
}

/// A character that is not a lowercase letter, wherever it stands, changes
/// nothing in the digraphs of a lowercased text.
pub proof fn law_non_letter_dropped(before: Seq<char>, c: char, after: Seq<char>)
    requires
        !is_letter(c),
    ensures
        digraphs_of(before + seq![c] + after) == digraphs_of(before + after),
{
    lemma_letters_concat(before + seq![c], after);
    lemma_letters_concat(before, seq![c]);
    lemma_letters_concat(before, after);
    assert(seq![c].drop_last() == Seq::<char>::empty());
    assert(seq![c].last() == c);
    assert(letters_of(Seq::<char>::empty()) == Seq::<char>::empty());
    assert(letters_of(seq![c]) == Seq::<char>::empty());
    assert(letters_of(before) + Seq::<char>::empty() == letters_of(before));
}

/// The digraphs of a lowercased text are those of its letters alone.
pub proof fn law_only_letters_matter(s: Seq<char>)
    ensures
        digraphs_of(s) == digraphs_of(letters_of(s)),
{
    lemma_letters_idempotent(s);
}

/// An empty text has no digraphs, every transform of no digraphs succeeds
/// with none, and no digraphs render as the empty string.
pub proof fn law_empty_text(sq: Seq<char>, step: int)
    ensures
        digraphs_of(Seq::empty()).len() == 0,
        transform_all(sq, Seq::empty(), step) == Ok::<Seq<(char, char)>, PlayfairError>(
            Seq::empty(),
        ),
        rendered(Seq::empty()).len() == 0,
{
}

/// A digraph that holds the letter left out of the square makes the whole
/// transform fail, with no output.
pub proof fn law_ignored_letter_fails(
    lowered_key: Seq<char>,
    ignore: char,
    ds: Seq<(char, char)>,
    step: int,
    i: int,
)
    requires
        0 <= i < ds.len(),
        ds[i].0 == ignore || ds[i].1 == ignore,
    ensures
        transform_all(square_of(lowered_key, ignore), ds, step) is Err,
{
    let sq = square_of(lowered_key, ignore);
    lemma_square_wf(lowered_key, ignore);
    let pre = ds.subrange(0, i + 1);
    assert(pre.drop_last() == ds.subrange(0, i));
    assert(pre.last() == ds[i]);
    assert(transform_pair(sq, ds[i], step) is Err);
    lemma_failure_stays(sq, ds, i + 1, step);
}

proof fn lemma_only_ignore_missing(
    lowered_key: Seq<char>,
    ignore: char,
    ds: Seq<(char, char)>,
    step: int,
)
    requires
        forall|j: int| 0 <= j < ds.len() ==> is_letter(#[trigger] ds[j].0) && is_letter(ds[j].1),
    ensures
        transform_all(square_of(lowered_key, ignore), ds, step) is Err ==> transform_all(
            square_of(lowered_key, ignore),
            ds,
            step,
        ) == Err::<Seq<(char, char)>, PlayfairError>(PlayfairError::MissingCharacter(ignore)),
    decreases ds.len(),
{
    if ds.len() > 0 {
        let init = ds.drop_last();
        assert forall|j: int| 0 <= j < init.len() implies is_letter(#[trigger] init[j].0)
            && is_letter(init[j].1) by {
            assert(init[j] == ds[j]);
        }
        lemma_only_ignore_missing(lowered_key, ignore, init, step);
        lemma_square_wf(lowered_key, ignore);
        assert(is_letter(ds[ds.len() - 1].0));
    }
}

/// When every character of the digraphs is a lowercase letter, as in every
/// chunked text, and one of them is the letter left out, the transform fails
/// naming that letter.
pub proof fn law_ignored_letter_named(
    lowered_key: Seq<char>,
    ignore: char,
    ds: Seq<(char, char)>,
    step: int,
    i: int,
)
    requires
        0 <= i < ds.len(),
        ds[i].0 == ignore || ds[i].1 == ignore,
        forall|j: int| 0 <= j < ds.len() ==> is_letter(#[trigger] ds[j].0) && is_letter(ds[j].1),
    ensures
        transform_all(square_of(lowered_key, ignore), ds, step) == Err::<
            Seq<(char, char)>,
            PlayfairError,
        >(PlayfairError::MissingCharacter(ignore)),
{
    law_ignored_letter_fails(lowered_key, ignore, ds, step, i);
    lemma_only_ignore_missing(lowered_key, ignore, ds, step);
}

/// Every character of `s` is a lowercase letter.
pub open spec fn all_letters(s: Seq<char>) -> bool {
    forall|j: int| 0 <= j < s.len() ==> is_letter(#[trigger] s[j])
}

proof fn lemma_letters_are_letters(s: Seq<char>)
    ensures
        all_letters(letters_of(s)),
    decreases s.len(),
{
    if s.len() > 0 {
        lemma_letters_are_letters(s.drop_last());
    }
}

proof fn lemma_expand_keeps_letters(s: Seq<char>)
    requires
        all_letters(s),
    ensures
        all_letters(expand(s)),
    decreases s.len(),
{
    if s.len() == 0 {
    } else if s.len() % 2 == 1 {
        let init = s.drop_last();
        assert forall|j: int| 0 <= j < init.len() implies is_letter(#[trigger] init[j]) by {
            assert(init[j] == s[j]);
        }
        lemma_expand_keeps_letters(init);
    } else {
        let init = s.subrange(0, s.len() - 2);
        assert forall|j: int| 0 <= j < init.len() implies is_letter(#[trigger] init[j]) by {
            assert(init[j] == s[j]);
        }
        lemma_expand_keeps_letters(init);
        assert(is_letter(s[s.len() - 2]) && is_letter(s[s.len() - 1]));
        let e = expand(init);
        let p = piece(s[s.len() - 2], s[s.len() - 1]);
        assert(all_letters(p));
        assert forall|j: int| 0 <= j < (e + p).len() implies is_letter(#[trigger] (e + p)[j]) by {
            if j < e.len() {
                assert((e + p)[j] == e[j]);
            } else {
                assert((e + p)[j] == p[j - e.len()]);
            }
        }
    }
}

/// Every digraph of a lowercased text is made of lowercase letters.
pub proof fn law_digraphs_are_letters(lowered: Seq<char>)
    ensures
        forall|j: int|
            0 <= j < digraphs_of(lowered).len() ==> is_letter(#[trigger] digraphs_of(lowered)[j].0)
                && is_letter(digraphs_of(lowered)[j].1),
{
    lemma_letters_are_letters(lowered);
    lemma_expand_keeps_letters(letters_of(lowered));
    let t = pad(expand(letters_of(lowered)));
    assert(all_letters(t));
    assert forall|j: int| 0 <= j < digraphs_of(lowered).len() implies is_letter(
        #[trigger] digraphs_of(lowered)[j].0,
    ) && is_letter(digraphs_of(lowered)[j].1) by {
        assert(j < t.len() / 2);
        assert(is_letter(t[2 * j]) && is_letter(t[2 * j + 1]));
    }
}

} // verus!
