use vstd::prelude::*;
use crate::text::{chars_of, lines, max_len, rows_view, split_lines, trim_chars, trimmed, string_of};

verus! {

/// The rows of a piece of ASCII art once the line feeds around it are gone.
pub open spec fn art_rows(art: Seq<char>) -> Seq<Seq<char>> {
    lines(trimmed(art, true))
}

/// A length as an `i32`, saturating at its largest value.
pub open spec fn sat_i32(n: nat) -> int {
    if n > i32::MAX {
        i32::MAX as int
    } else {
        n as int
    }
}

fn to_i32_sat(n: usize) -> (r: i32)
    ensures
        r == sat_i32(n as nat),
{
    if n > i32::MAX as usize {
        i32::MAX
    } else {
        n as i32
    }
}

/// ASCII art with its dimensions and the credit for it.
#[derive(Clone, PartialEq, Eq)]
pub struct AsciiArt {
    art: String,
    h: i32,
    w: i32,
    credit: String,
    rows: Vec<Vec<char>>,
}

impl AsciiArt {
    /// The art's text, without leading or trailing line feeds.
    pub closed spec fn spec_art(&self) -> Seq<char> {
        self.art@
    }

    /// The art's rows, top to bottom.
    pub closed spec fn spec_rows(&self) -> Seq<Seq<char>> {
        rows_view(self.rows)
    }

    /// Number of rows.
    pub closed spec fn spec_h(&self) -> int {
        self.h as int
    }

    /// Length of the longest row.
    pub closed spec fn spec_w(&self) -> int {
        self.w as int
    }

    pub closed spec fn spec_credit(&self) -> Seq<char> {
        self.credit@
    }

    /// The dimensions are those of the rows, and the rows those of the text.
    pub open spec fn wf(&self) -> bool {
        &&& self.spec_rows() == lines(self.spec_art())
        &&& self.spec_h() == sat_i32(self.spec_rows().len())
        &&& self.spec_w() == sat_i32(max_len(self.spec_rows()))
    }

    /// Art from its text, with the line feeds at either end removed, and its
    /// credit.
    pub fn new(art: &str, credit: &str) -> (r: AsciiArt)
        ensures
            r.wf(),
            r.spec_art() == trimmed(art@, true),
            r.spec_rows() == art_rows(art@),
            r.spec_credit() == credit@,
    {
        let chars = chars_of(art);
        let t = trim_chars(&chars, true);
        let rows = split_lines(&t);
        let mut w: usize = 0;
        let mut i: usize = 0;
        while i < rows.len()
            invariant
                i <= rows@.len(),
                rows_view(rows) == lines(t@),
                w == max_len(rows_view(rows).subrange(0, i as int)),
            decreases rows@.len() - i,
        {
            proof {
                assert(rows_view(rows).subrange(0, i + 1).drop_last() =~= rows_view(rows).subrange(0, i as int));
            }
            if rows[i].len() > w {
                w = rows[i].len();
            }
            i = i + 1;
        }
        proof {
            assert(rows_view(rows).subrange(0, i as int) =~= rows_view(rows));
        }
        let h = rows.len();
        AsciiArt {
            art: string_of(&t),
            h: to_i32_sat(h),
            w: to_i32_sat(w),
            credit: string_of(&chars_of(credit)),
            rows,
        }
    }

    pub fn height(&self) -> (r: i32)
        ensures
            r == self.spec_h(),
    {
        self.h
    }

    pub fn width(&self) -> (r: i32)
        ensures
            r == self.spec_w(),
    {
        self.w
    }

    pub fn art(&self) -> (r: &str)
        ensures
            r@ == self.spec_art(),
    {
        self.art.as_str()
    }

    pub fn credit(&self) -> (r: &str)
        ensures
            r@ == self.spec_credit(),
    {
        self.credit.as_str()
    }

    /// The rows of the art, as characters.
    pub fn rows(&self) -> (r: &Vec<Vec<char>>)
        ensures
            rows_view(*r) == self.spec_rows(),
    {
        &self.rows
    }
}

} // verus!
