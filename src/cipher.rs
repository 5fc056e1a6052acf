use vstd::prelude::*;
use crate::error::PlayfairError;
use crate::render::{grid_of, render_grid};
use crate::shape::{apply, classify, Shape};
use crate::square::{at_spec, build_square, lemma_pos_of, lemma_square_wf, pos_of, square_of, square_wf};
use crate::digraph::{digraphs, digraphs_of};
use crate::text::{lower_of, lowercase};

verus! {

/// The substitute for one digraph, or the first of its letters that the
/// square lacks.
pub open spec fn transform_pair(sq: Seq<char>, d: (char, char), step: int) -> Result<
    (char, char),
    PlayfairError,
> {
    if !sq.contains(d.0) {
        Err(PlayfairError::MissingCharacter(d.0))
    } else if !sq.contains(d.1) {
        Err(PlayfairError::MissingCharacter(d.1))
    } else {
        Ok(apply(sq, classify(pos_of(sq, d.0) as nat, pos_of(sq, d.1) as nat), step))
    }
}

/// Each digraph replaced in order; the first failure ends it all.
pub open spec fn transform_all(sq: Seq<char>, ds: Seq<(char, char)>, step: int) -> Result<
    Seq<(char, char)>,
    PlayfairError,
>
    decreases ds.len(),
{
    if ds.len() == 0 {
        Ok(Seq::empty())
    } else {
        match transform_all(sq, ds.drop_last(), step) {
            Err(e) => Err(e),
            Ok(done) => match transform_pair(sq, ds.last(), step) {
                Err(e) => Err(e),
                Ok(p) => Ok(done.push(p)),
            },
        }
    }
}

/// The contents of a transform's result.
pub open spec fn outcome(r: Result<Vec<(char, char)>, PlayfairError>) -> Result<
    Seq<(char, char)>,
    PlayfairError,
> {
    match r {
        Ok(v) => Ok(v@),
        Err(e) => Err(e),
    }
}

/// Once a prefix has failed, so has every longer sequence, with that error.
pub proof fn lemma_failure_stays(sq: Seq<char>, ds: Seq<(char, char)>, k: int, step: int)
    requires
        0 <= k <= ds.len(),
        transform_all(sq, ds.subrange(0, k), step) is Err,
    ensures
        transform_all(sq, ds, step) == transform_all(sq, ds.subrange(0, k), step),
    decreases ds.len(),
{
    if k == ds.len() {
        assert(ds.subrange(0, k) == ds);
    } else {
        assert(ds.drop_last().subrange(0, k) == ds.subrange(0, k));
        lemma_failure_stays(sq, ds.drop_last(), k, step);
    }
}

/// A Playfair cipher, held as its key square.
pub struct Playfair {
    key: Vec<char>,
}

impl Playfair {
    /// The key square, row by row.
    pub closed spec fn square(&self) -> Seq<char> {
        self.key@
    }

    /// The square is well formed: 25 or 26 distinct lowercase letters.
    pub open spec fn wf(&self) -> bool {
        square_wf(self.square())
    }

    /// Builds the square from `key` (lowercased) and the letter to leave out.
    pub fn new(key: String, ignore_char: char) -> (r: Self)
        ensures
            r.wf(),
            r.square() == square_of(lower_of(key@), ignore_char),
    {
        let lowered = lowercase(key.as_str());
        let square = build_square(&lowered, ignore_char);
        proof {
            lemma_square_wf(lower_of(key@), ignore_char);
        }
        Playfair { key: square }
    }

    /// Enciphers `text`: its digraphs, each moved one place along a line.
    pub fn encipher(&self, text: &str) -> (r: Result<Vec<(char, char)>, PlayfairError>)
        requires
            self.wf(),
        ensures
            outcome(r) == transform_all(self.square(), digraphs_of(lower_of(text@)), 1),
            text@.len() == 0 ==> (r matches Ok(v) && v@.len() == 0),
    {
        self.transform_with_shapes(text, 1)
    }

    /// Deciphers `text`: its digraphs, each moved one place back along a
    /// line (four places forward, modulo 5).
    pub fn decipher(&self, text: &str) -> (r: Result<Vec<(char, char)>, PlayfairError>)
        requires
            self.wf(),
        ensures
            outcome(r) == transform_all(self.square(), digraphs_of(lower_of(text@)), 4),
            text@.len() == 0 ==> (r matches Ok(v) && v@.len() == 0),
    {
        self.transform_with_shapes(text, 4)
    }

    /// Splits `text` into digraphs and replaces each, moving `step_size`
    /// places along a line.
    pub fn transform_with_shapes(&self, text: &str, step_size: usize) -> (r: Result<
        Vec<(char, char)>,
        PlayfairError,
    >)
        requires
            self.wf(),
            step_size <= usize::MAX - 5,
        ensures
            outcome(r) == transform_all(self.square(), digraphs_of(lower_of(text@)), step_size as int),
            text@.len() == 0 ==> (r matches Ok(v) && v@.len() == 0),
    {
        let pairs = self.chunkify(text);
        proof {
            if text@.len() == 0 {
                assert(pairs@ == Seq::<(char, char)>::empty());
            }
        }
        self.transform_digraphs(&pairs, step_size)
    }

    /// The digraphs of `text`, lowercased.
    pub fn chunkify(&self, text: &str) -> (r: Vec<(char, char)>)
        ensures
            r@ == digraphs_of(lower_of(text@)),
            text@.len() == 0 ==> r@.len() == 0,
    {
        let lowered = lowercase(text);
        digraphs(&lowered)
    }

    /// The square drawn five letters to a row.
    pub fn to_string(&self) -> (r: String)
        ensures
            r@ == grid_of(self.square()),
    {
        render_grid(&self.key)
    }

    /// The letter at column `x` and row `y`, both wrapping around modulo 5.
    pub fn at(&self, x: usize, y: usize) -> (r: char)
        requires
            self.wf(),
        ensures
            r == at_spec(self.square(), x as int, y as int),
    {
        let x = x % 5;
        let y = y % 5;
        assert(y * 5 + x < 25) by (nonlinear_arith)
            requires
                x < 5,
                y < 5,
        ;
        self.key[y * 5 + x]
    }

    /// The position of `c` in the square.
    pub fn find_single(&self, char_to_find: &char) -> (r: Result<usize, PlayfairError>)
        requires
            self.wf(),
        ensures
            r is Ok <==> self.square().contains(*char_to_find),
            r matches Ok(p) ==> p < self.square().len() && self.square()[p as int]
                == *char_to_find && p == pos_of(self.square(), *char_to_find),
            r matches Err(e) ==> e == PlayfairError::MissingCharacter(*char_to_find),
    {
        let mut i: usize = 0;
        while i < self.key.len()
            invariant
                self.wf(),
                0 <= i <= self.key@.len(),
                forall|j: int| 0 <= j < i ==> self.key@[j] != *char_to_find,
            decreases self.key@.len() - i,
        {
            if self.key[i] == *char_to_find {
                proof {
                    lemma_pos_of(self.key@, *char_to_find, i as int);
                }
                return Ok(i);
            }
            i = i + 1;
        }
        Err(PlayfairError::MissingCharacter(*char_to_find))
    }

    /// The shape that the two letters of `pair` make in the square.
    pub fn find(&self, pair: &(char, char)) -> (r: Result<Shape, PlayfairError>)
        requires
            self.wf(),
        ensures
            !self.square().contains(pair.0) ==> r == Err::<Shape, PlayfairError>(
                PlayfairError::MissingCharacter(pair.0),
            ),
            self.square().contains(pair.0) && !self.square().contains(pair.1) ==> r == Err::<
                Shape,
                PlayfairError,
            >(PlayfairError::MissingCharacter(pair.1)),
            self.square().contains(pair.0) && self.square().contains(pair.1) ==> r == Ok::<
                Shape,
                PlayfairError,
            >(classify(pos_of(self.square(), pair.0) as nat, pos_of(self.square(), pair.1) as nat)),
    {
        let pos1 = match self.find_single(&pair.0) {
            Ok(p) => p,
            Err(e) => return Err(e),
        };
        let pos2 = match self.find_single(&pair.1) {
            Ok(p) => p,
            Err(e) => return Err(e),
        };
        let x1 = pos1 % 5;
        let y1 = pos1 / 5;
        let x2 = pos2 % 5;
        let y2 = pos2 / 5;
        if x1 == x2 {
            Ok(Shape::VerticalLine { x: x1, y1, y2 })
        } else if y1 == y2 {
            Ok(Shape::HorizontalLine { y: y1, x1, x2 })
        } else {
            Ok(Shape::Rectangle { x1, y1, x2, y2 })
        }
    }

    /// Replaces each digraph by its substitute, moving `step_size` places
    /// along a line; fails on the first letter that the square lacks.
    pub fn transform_digraphs(&self, pairs: &Vec<(char, char)>, step_size: usize) -> (r: Result<
        Vec<(char, char)>,
        PlayfairError,
    >)
        requires
            self.wf(),
            step_size <= usize::MAX - 5,
        ensures
            outcome(r) == transform_all(self.square(), pairs@, step_size as int),
    {
        let mut agg: Vec<(char, char)> = Vec::new();
        let mut i: usize = 0;
        while i < pairs.len()
            invariant
                self.wf(),
                step_size <= usize::MAX - 5,
                0 <= i <= pairs@.len(),
                transform_all(self.square(), pairs@.subrange(0, i as int), step_size as int) == Ok::<
                    Seq<(char, char)>,
                    PlayfairError,
                >(agg@),
            decreases pairs@.len() - i,
        {
            let pair = pairs[i];
            assert(pairs@.subrange(0, i + 1).drop_last() == pairs@.subrange(0, i as int));
            let shape = match self.find(&pair) {
                Ok(s) => s,
                Err(e) => {
                    proof {
                        lemma_failure_stays(self.square(), pairs@, i + 1, step_size as int);
                    }
                    return Err(e);
                },
            };
            let cipher = match shape {
                Shape::Rectangle { x1, y1, x2, y2 } => (self.at(x2, y1), self.at(x1, y2)),
                Shape::VerticalLine { x, y1, y2 } => {
                    (self.at(x, y1 + step_size), self.at(x, y2 + step_size))
                },
                Shape::HorizontalLine { y, x1, x2 } => {
                    (self.at(x1 + step_size, y), self.at(x2 + step_size, y))
                },
            };
            assert(cipher == apply(self.square(), shape, step_size as int));
            agg.push(cipher);
            i = i + 1;
        }
        assert(pairs@.subrange(0, pairs@.len() as int) == pairs@);
        Ok(agg)
    }
}

} // verus!
