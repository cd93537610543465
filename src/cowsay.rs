use vstd::prelude::*;
use crate::art::{AsciiArt, art_rows};
use crate::text::{chars_of, lines, max_len, rows_view, split_lines, trim_chars, trimmed, push_char, lemma_max_len};

verus! {

/// The lines of a bubble's message, each without surrounding whitespace.
pub open spec fn message_lines(text: Seq<char>) -> Seq<Seq<char>> {
    lines(text).map_values(|l: Seq<char>| trimmed(l, false))
}

/// `.====.` — the top or bottom edge for lines of width `mw`.
pub open spec fn bubble_edge(mw: nat) -> Seq<char> {
    seq!['.'] + Seq::new(mw + 2, |i: int| '=') + seq!['.', '\n']
}

/// `| line    |` — one line padded to width `mw`.
pub open spec fn bubble_line(l: Seq<char>, mw: nat) -> Seq<char> {
    seq!['|', ' '] + l + Seq::new((mw - l.len()) as nat, |i: int| ' ') + seq![' ', '|', '\n']
}

/// All message lines of a bubble, in order.
pub open spec fn bubble_body(rows: Seq<Seq<char>>, mw: nat) -> Seq<char>
    decreases rows.len(),
{
    if rows.len() == 0 {
        Seq::empty()
    } else {
        bubble_body(rows.drop_last(), mw) + bubble_line(rows.last(), mw)
    }
}

/// A speech bubble framing the given lines.
pub open spec fn bubble_of(rows: Seq<Seq<char>>) -> Seq<char> {
    let mw = max_len(rows);
    bubble_edge(mw) + bubble_body(rows, mw) + bubble_edge(mw)
}

fn push_repeat(out: &mut String, c: char, n: usize)
    ensures
        final(out)@ == old(out)@ + Seq::new(n as nat, |i: int| c),
{
    let mut i: usize = 0;
    while i < n
        invariant
            i <= n,
            out@ == old(out)@ + Seq::new(i as nat, |k: int| c),
        decreases n - i,
    {
        push_char(out, c);
        i = i + 1;
        assert(out@ =~= old(out)@ + Seq::new(i as nat, |k: int| c));
    }
}

fn push_chars(out: &mut String, v: &Vec<char>)
    ensures
        final(out)@ == old(out)@ + v@,
{
    let mut i: usize = 0;
    while i < v.len()
        invariant
            i <= v@.len(),
            out@ == old(out)@ + v@.subrange(0, i as int),
        decreases v@.len() - i,
    {
        push_char(out, v[i]);
        i = i + 1;
        assert(out@ =~= old(out)@ + v@.subrange(0, i as int));
    }
    assert(v@.subrange(0, v@.len() as int) =~= v@);
}

fn push_edge(out: &mut String, mw: usize)
    ensures
        final(out)@ == old(out)@ + bubble_edge(mw as nat),
{
    push_char(out, '.');
    push_repeat(out, '=', mw);
    push_char(out, '=');
    push_char(out, '=');
    push_char(out, '.');
    push_char(out, '\n');
    assert(out@ =~= old(out)@ + bubble_edge(mw as nat));
}

/// A speech bubble around the lines of `text`: each line trimmed, padded to
/// the longest, between `| ` and ` |`, with an edge of `=` above and below.
pub fn gen_bubble(text: &str) -> (r: String)
    requires
        text@.len() > 0,
    ensures
        r@ == bubble_of(message_lines(text@)),
{
    let chars = chars_of(text);
    let raw = split_lines(&chars);
    let mut rows: Vec<Vec<char>> = Vec::new();
    let mut mw: usize = 0;
    let mut i: usize = 0;
    while i < raw.len()
        invariant
            i <= raw@.len(),
            rows_view(raw) == lines(text@),
            rows_view(rows) == message_lines(text@).subrange(0, i as int),
            mw == max_len(rows_view(rows)),
        decreases raw@.len() - i,
    {
        let l = trim_chars(&raw[i], false);
        proof {
            assert(rows_view(raw)[i as int] == raw@[i as int]@);
        }
        let n = l.len();
        rows.push(l);
        proof {
            assert(rows_view(rows) =~= message_lines(text@).subrange(0, i + 1));
            assert(rows_view(rows).drop_last() =~= message_lines(text@).subrange(0, i as int));
        }
        if n > mw {
            mw = n;
        }
        i = i + 1;
    }
    proof {
        assert(rows_view(rows) =~= message_lines(text@));
        lemma_max_len(rows_view(rows));
    }
    let ghost all = rows_view(rows);
    let mut out = String::new();
    push_edge(&mut out, mw);
    let mut j: usize = 0;
    while j < rows.len()
        invariant
            j <= rows@.len(),
            all == rows_view(rows),
            mw == max_len(all),
            forall|k: int| 0 <= k < all.len() ==> #[trigger] all[k].len() <= mw,
            out@ == bubble_edge(mw as nat) + bubble_body(all.subrange(0, j as int), mw as nat),
        decreases rows@.len() - j,
    {
        let ghost before = out@;
        assert(all[j as int] == rows@[j as int]@);
        push_char(&mut out, '|');
        push_char(&mut out, ' ');
        push_chars(&mut out, &rows[j]);
        push_repeat(&mut out, ' ', mw - rows[j].len());
        push_char(&mut out, ' ');
        push_char(&mut out, '|');
        push_char(&mut out, '\n');
        proof {
            assert(out@ =~= before + bubble_line(all[j as int], mw as nat));
            assert(all.subrange(0, j + 1).drop_last() =~= all.subrange(0, j as int));
        }
        j = j + 1;
    }
    proof {
        assert(all.subrange(0, j as int) =~= all);
    }
    push_edge(&mut out, mw);
    out
}

/// A speech bubble around `text`, as ASCII art credited to "cowsay".
pub fn gen_bubble_ascii(text: &str) -> (r: AsciiArt)
    requires
        text@.len() > 0,
    ensures
        r.wf(),
        r.spec_rows() == art_rows(bubble_of(message_lines(text@))),
        r.spec_credit() == "cowsay"@,
{
    let b = gen_bubble(text);
    AsciiArt::new(b.as_str(), "cowsay")
}

} // verus!
