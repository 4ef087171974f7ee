//! Rendering input lines and their results as two aligned columns.
use crate::text::views_of;
use vstd::prelude::*;

verus! {

/// The largest number of characters in any of `ls`; 0 when there are none.
pub open spec fn max_width(ls: Seq<Seq<char>>) -> nat
    decreases ls.len(),
{
    if ls.len() == 0 {
        0
    } else {
        let w = max_width(ls.drop_last());
        if ls.last().len() > w {
            ls.last().len()
        } else {
            w
        }
    }
}

/// `k` spaces.
pub open spec fn spaces(k: nat) -> Seq<char> {
    Seq::new(k, |j: int| ' ')
}

/// `l` padded on the right with spaces to `width` characters.
pub open spec fn pad(l: Seq<char>, width: nat) -> Seq<char> {
    if l.len() < width {
        l + spaces((width - l.len()) as nat)
    } else {
        l
    }
}

/// One row: the input padded to `width`, a separator, and the result if any.
pub open spec fn render_row(input: Seq<char>, output: Seq<char>, width: nat) -> Seq<char> {
    if output.len() == 0 {
        pad(input, width) + seq![' ', '|']
    } else {
        pad(input, width) + seq![' ', '|', ' '] + output
    }
}

/// `rows` joined with one newline between each two.
pub open spec fn join_rows(rows: Seq<Seq<char>>) -> Seq<char>
    decreases rows.len(),
{
    if rows.len() == 0 {
        Seq::empty()
    } else if rows.len() == 1 {
        rows[0]
    } else {
        join_rows(rows.drop_last()) + seq!['\n'] + rows.last()
    }
}

/// The rows of the two-column report of `input` against `output`.
pub open spec fn zipped_rows(input: Seq<Seq<char>>, output: Seq<Seq<char>>) -> Seq<Seq<char>> {
    Seq::new(input.len(), |i: int| render_row(input[i], output[i], max_width(input)))
}

/// The two-column report of `input` against `output`.
pub open spec fn zipped(input: Seq<Seq<char>>, output: Seq<Seq<char>>) -> Seq<char> {
    join_rows(zipped_rows(input, output))
}

/// `s` without its trailing spaces.
pub open spec fn trim_trailing_spaces(s: Seq<char>) -> Seq<char>
    decreases s.len(),
{
    if s.len() > 0 && s.last() == ' ' {
        trim_trailing_spaces(s.drop_last())
    } else {
        s
    }
}

/// No line is wider than the column width.
pub proof fn lemma_max_width_bounds(ls: Seq<Seq<char>>)
    ensures
        forall|i: int| 0 <= i < ls.len() ==> (#[trigger] ls[i]).len() <= max_width(ls),
        ls.len() > 0 ==> exists|i: int| 0 <= i < ls.len() && (#[trigger] ls[i]).len() == max_width(ls),
    decreases ls.len(),
{
    if ls.len() > 0 {
        let init = ls.drop_last();
        lemma_max_width_bounds(init);
        assert forall|i: int| 0 <= i < ls.len() implies (#[trigger] ls[i]).len() <= max_width(ls) by {
            if i < ls.len() - 1 {
                assert(ls[i] == init[i]);
            }
        }
        if ls.last().len() <= max_width(init) && init.len() > 0 {
            let j = choose|j: int| 0 <= j < init.len() && (#[trigger] init[j]).len() == max_width(init);
            assert(ls[j] == init[j]);
        }
    }
}

proof fn lemma_trim_padding(l: Seq<char>, k: nat)
    requires
        l.len() == 0 || l.last() != ' ',
    ensures
        trim_trailing_spaces(l + spaces(k)) == l,
    decreases k,
{
    if k == 0 {
        assert(l + spaces(0) =~= l);
    } else {
        let s = l + spaces(k);
        assert(s.drop_last() =~= l + spaces((k - 1) as nat));
        lemma_trim_padding(l, (k - 1) as nat);
    }
}

/// Padding a line of a document to the document's column width and then
/// trimming trailing spaces gives the line back, for every line that does not
/// itself end in a space.
pub proof fn lemma_pad_then_trim(ls: Seq<Seq<char>>, i: int)
    requires
        0 <= i < ls.len(),
        ls[i].len() == 0 || ls[i].last() != ' ',
    ensures
        ls[i].len() <= max_width(ls),
        trim_trailing_spaces(pad(ls[i], max_width(ls))) == ls[i],
{
    lemma_max_width_bounds(ls);
    if ls[i].len() < max_width(ls) {
        lemma_trim_padding(ls[i], (max_width(ls) - ls[i].len()) as nat);
    }
}

/// The column width of `lines`: the largest number of characters in a line.
pub fn column_width(lines: &[&str]) -> (r: usize)
    ensures
        r == max_width(views_of(lines@)),
{
    let ghost v = views_of(lines@);
    let mut width: usize = 0;
    let mut i: usize = 0;
    while i < lines.len()
        invariant
            v == views_of(lines@),
            i <= lines@.len(),
            width == max_width(v.take(i as int)),
        decreases lines@.len() - i,
    {
        let n = lines[i].unicode_len();
        assert(v.take(i + 1).drop_last() =~= v.take(i as int));
        if n > width {
            width = n;
        }
        i = i + 1;
    }
    assert(v.take(i as int) =~= v);
    width
}

/// The two-column report of `input` against `output`: one row per pair of
/// lines, the input padded to the width of the widest input line, then ` |`,
/// then a space and the result where the result is not empty; rows are joined
/// by newlines, with none at the end.
pub fn zip_columns(input: &[&str], output: &[&str]) -> (r: String)
    requires
        input@.len() == output@.len(),
    ensures
        r@ == zipped(views_of(input@), views_of(output@)),
{
    let ghost iv = views_of(input@);
    let ghost ov = views_of(output@);
    let ghost rows = zipped_rows(iv, ov);
    let width = column_width(input);
    proof {
        reveal_strlit("\n");
        reveal_strlit(" ");
        reveal_strlit(" |");
        lemma_max_width_bounds(iv);
    }
    let mut out = String::new();
    let mut i: usize = 0;
    assert(rows.take(0) =~= Seq::<Seq<char>>::empty());
    while i < input.len()
        invariant
            iv == views_of(input@),
            ov == views_of(output@),
            rows == zipped_rows(iv, ov),
            input@.len() == output@.len(),
            width == max_width(iv),
            forall|j: int| 0 <= j < iv.len() ==> (#[trigger] iv[j]).len() <= max_width(iv),
            i <= input@.len(),
            out@ == join_rows(rows.take(i as int)),
            "\n"@ == seq!['\n'],
            " "@ == seq![' '],
            " |"@ == seq![' ', '|'],
        decreases input@.len() - i,
    {
        let ghost before = out@;
        if i > 0 {
            out.append("\n");
        }
        let line = input[i];
        let result = output[i];
        let ghost row_start = out@;
        out.append(line);
        let n = line.unicode_len();
        let mut k: usize = n;
        while k < width
            invariant
                n <= k <= width || (n > width && k == n),
                out@ == row_start + line@ + spaces((k - n) as nat),
                " "@ == seq![' '],
            decreases width - k,
        {
            out.append(" ");
            k = k + 1;
            assert(out@ =~= row_start + line@ + spaces((k - n) as nat));
        }
        assert(iv[i as int] == line@);
        assert(ov[i as int] == result@);
        assert(line@ + spaces((k - n) as nat) =~= pad(line@, width as nat));
        out.append(" |");
        if result.unicode_len() > 0 {
            out.append(" ");
            out.append(result);
        }
        assert(rows[i as int] == render_row(line@, result@, width as nat));
        assert(out@ =~= row_start + rows[i as int]);
        assert(rows.take(i + 1).drop_last() =~= rows.take(i as int));
        if i > 0 {
            assert(row_start =~= before + seq!['\n']);
        } else {
            assert(row_start =~= Seq::<char>::empty());
        }
        i = i + 1;
    }
    assert(rows.take(i as int) =~= rows);
    out
}

} // verus!
