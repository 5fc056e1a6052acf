use vstd::prelude::*;
use crate::text::{is_letter, is_letter_exec, string_of};

verus! {

/// `c` raised to upper case when it is a lowercase ASCII letter; any other
/// character is kept as it is.
pub open spec fn upper(c: char) -> char {
    if is_letter(c) {
        ((c as int) - 32) as char
    } else {
        c
    }
}

/// The two letters of a digraph, in upper case.
pub open spec fn group(d: (char, char)) -> Seq<char> {
    seq![upper(d.0), upper(d.1)]
}

/// The digraphs as upper-case groups of two, one space between groups.
pub open spec fn rendered(ds: Seq<(char, char)>) -> Seq<char>
    decreases ds.len(),
{
    if ds.len() == 0 {
        Seq::empty()
    } else if ds.len() == 1 {
        group(ds[0])
    } else {
        rendered(ds.drop_last()) + seq![' '] + group(ds.last())
    }
}

fn to_upper(c: char) -> (r: char)
    ensures
        r == upper(c),
{
    if is_letter_exec(c) {
        ((c as u8) - 32) as char
    } else {
        c
    }
}

/// Renders digraphs as groups of two letters, separated by single spaces,
/// with the letters a to z raised to upper case and other characters kept.
pub fn render_pairs(pairs: &Vec<(char, char)>) -> (r: String)
    ensures
        r@ == rendered(pairs@),
{
    let mut out: Vec<char> = Vec::new();
    let mut i: usize = 0;
    while i < pairs.len()
        invariant
            0 <= i <= pairs@.len(),
            out@ == rendered(pairs@.subrange(0, i as int)),
        decreases pairs@.len() - i,
    {
        let (a, b) = pairs[i];
        assert(pairs@.subrange(0, i + 1).drop_last() == pairs@.subrange(0, i as int));
        if i > 0 {
            out.push(' ');
        }
        out.push(to_upper(a));
        out.push(to_upper(b));
        assert(out@ == rendered(pairs@.subrange(0, i + 1)));
        i = i + 1;
    }
    assert(pairs@.subrange(0, pairs@.len() as int) == pairs@);
    string_of(&out)
}

/// The characters of `s` with single spaces between them.
pub open spec fn spaced(s: Seq<char>) -> Seq<char>
    decreases s.len(),
{
    if s.len() == 0 {
        Seq::empty()
    } else if s.len() == 1 {
        seq![s[0]]
    } else {
        spaced(s.drop_last()) + seq![' ', s.last()]
    }
}

/// One row of the square's picture: `| a b c d e |` and a line break.
pub open spec fn grid_row(r: Seq<char>) -> Seq<char> {
    seq!['|', ' '] + spaced(r) + seq![' ', '|', '\n']
}

/// The square's picture: its letters five to a row, the last row shorter
/// when the letters do not fill it.
pub open spec fn grid_of(sq: Seq<char>) -> Seq<char>
    decreases sq.len(),
{
    if sq.len() == 0 {
        Seq::empty()
    } else if sq.len() <= 5 {
        grid_row(sq)
    } else {
        grid_row(sq.subrange(0, 5)) + grid_of(sq.subrange(5, sq.len() as int))
    }
}

/// Draws the letters of a square five to a row.
pub fn render_grid(sq: &Vec<char>) -> (r: String)
    ensures
        r@ == grid_of(sq@),
{
    let mut out: Vec<char> = Vec::new();
    let mut i: usize = 0;
    assert(sq@.subrange(0, sq@.len() as int) == sq@);
    assert(out@ + grid_of(sq@) == grid_of(sq@));
    while i < sq.len()
        invariant
            0 <= i <= sq@.len(),
            out@ + grid_of(sq@.subrange(i as int, sq@.len() as int)) == grid_of(sq@),
        decreases sq@.len() - i,
    {
        let end: usize = if sq.len() - i < 5 {
            sq.len()
        } else {
            i + 5
        };
        let ghost base = out@;
        let ghost rest = sq@.subrange(i as int, sq@.len() as int);
        proof {
            assert(rest.subrange(0, end - i) == sq@.subrange(i as int, end as int));
            assert(rest.subrange(end - i, rest.len() as int) == sq@.subrange(
                end as int,
                sq@.len() as int,
            ));
            if rest.len() <= 5 {
                assert(rest.subrange(0, end - i) == rest);
                assert(grid_of(sq@.subrange(end as int, sq@.len() as int)) == Seq::<char>::empty());
            }
        }
        out.push('|');
        out.push(' ');
        let mut j: usize = i;
        while j < end
            invariant
                i <= j <= end <= sq@.len(),
                out@ == base + seq!['|', ' '] + spaced(sq@.subrange(i as int, j as int)),
            decreases end - j,
        {
            if j > i {
                out.push(' ');
            }
            out.push(sq[j]);
            assert(sq@.subrange(i as int, j + 1).drop_last() == sq@.subrange(i as int, j as int));
            j = j + 1;
        }
        out.push(' ');
        out.push('|');
        out.push('\n');
        assert(out@ == base + grid_row(sq@.subrange(i as int, end as int)));
        i = end;
    }
    assert(sq@.subrange(i as int, sq@.len() as int) == Seq::<char>::empty());
    assert(out@ + Seq::<char>::empty() == out@);
    string_of(&out)
}

/// Display of a sequence of digraphs.
pub trait PairsToString {
    /// The digraphs displayed.
    spec fn pairs(&self) -> Seq<(char, char)>;

    /// The digraphs as upper-case groups of two, one space between groups.
    fn pairs_to_string(&self) -> (r: String)
        ensures
            r@ == rendered(self.pairs()),
    ;
}

impl PairsToString for Vec<(char, char)> {
    open spec fn pairs(&self) -> Seq<(char, char)> {
        self@
    }

    fn pairs_to_string(&self) -> (r: String) {
        render_pairs(self)
    }
}

} // verus!
