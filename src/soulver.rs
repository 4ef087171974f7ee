//! Realigning the calculator's output with its input document.
use crate::text::{
    lemma_split_newlines_nonempty, lines_of, split_lines, split_newlines, trim_end, trim_end_spec,
    views_of,
};
use crate::zipper::{zip_columns, zipped};
use vstd::prelude::*;

verus! {

/// What can go wrong while evaluating a document.
#[derive(Debug, Clone, Copy, PartialEq, Eq, Structural)]
pub enum SoulverError {
    /// The calculator could not be started.
    Spawn,
    /// The calculator exited with a non-zero status.
    NonZeroExit,
    /// The calculator's output was not valid UTF-8.
    Decoding,
    /// After realignment, the output and the input differ in their number of lines.
    Misalignment,
}

/// A line that the calculator skips when it leads the document: an empty
/// line, or a comment starting with `#` or `//`.
pub open spec fn blank_or_comment(l: Seq<char>) -> bool {
    l.len() == 0 || l[0] == '#' || (l.len() >= 2 && l[0] == '/' && l[1] == '/')
}

/// The number of consecutive blank or comment lines of `ls` from index `i` on.
pub open spec fn leading_from(ls: Seq<Seq<char>>, i: int) -> nat
    decreases ls.len() - i,
{
    if 0 <= i < ls.len() && blank_or_comment(ls[i]) {
        1 + leading_from(ls, i + 1)
    } else {
        0
    }
}

/// The number of blank or comment lines that open `ls`.
pub open spec fn leading_blank_or_comment(ls: Seq<Seq<char>>) -> nat {
    leading_from(ls, 0)
}

/// `k` newline characters.
pub open spec fn newlines(k: nat) -> Seq<char> {
    Seq::new(k, |j: int| '\n')
}

/// `s` without one final newline, if it has one.
pub open spec fn strip_final_newline(s: Seq<char>) -> Seq<char> {
    if s.len() > 0 && s.last() == '\n' {
        s.drop_last()
    } else {
        s
    }
}

/// The lines of the document `doc` once its trailing white space is gone.
pub open spec fn input_lines(doc: Seq<char>) -> Seq<Seq<char>> {
    lines_of(trim_end_spec(doc))
}

/// The calculator's output `raw` for `doc`, with the lines it dropped from the
/// front restored as empty lines.
pub open spec fn aligned_output(doc: Seq<char>, raw: Seq<char>) -> Seq<char> {
    newlines(leading_blank_or_comment(input_lines(doc))) + raw
}

/// Whether the realigned output has as many lines as the trimmed document.
pub open spec fn lines_aligned(doc: Seq<char>, raw: Seq<char>) -> bool {
    lines_of(aligned_output(doc, raw)).len() == input_lines(doc).len()
}

/// The two-column report of the trimmed document `doc` against its realigned
/// output.
pub open spec fn zipped_report(doc: Seq<char>, raw: Seq<char>) -> Seq<char> {
    zipped(input_lines(doc), lines_of(aligned_output(doc, raw)))
}

/// `k` empty lines.
pub open spec fn empty_lines(k: nat) -> Seq<Seq<char>> {
    Seq::new(k, |j: int| Seq::<char>::empty())
}

proof fn lemma_split_newlines_only(k: nat)
    ensures
        split_newlines(newlines(k)) == empty_lines(k + 1),
    decreases k,
{
    if k == 0 {
        assert(newlines(0) =~= Seq::<char>::empty());
        assert(empty_lines(1) =~= seq![Seq::<char>::empty()]);
    } else {
        assert(newlines(k).drop_last() =~= newlines((k - 1) as nat));
        lemma_split_newlines_only((k - 1) as nat);
        assert(empty_lines(k).push(Seq::empty()) =~= empty_lines(k + 1));
    }
}

proof fn lemma_split_after_newlines(k: nat, r: Seq<char>)
    ensures
        split_newlines(newlines(k) + r) == empty_lines(k) + split_newlines(r),
    decreases r.len(),
{
    lemma_split_newlines_nonempty(r);
    if r.len() == 0 {
        assert(newlines(k) + r =~= newlines(k));
        lemma_split_newlines_only(k);
        assert(empty_lines(k) + seq![Seq::<char>::empty()] =~= empty_lines(k + 1));
    } else {
        let s = newlines(k) + r;
        assert(s.drop_last() =~= newlines(k) + r.drop_last());
        lemma_split_after_newlines(k, r.drop_last());
        lemma_split_newlines_nonempty(r.drop_last());
        let q = split_newlines(r.drop_last());
        let p = empty_lines(k) + q;
        if r.last() == '\n' {
            assert(p.push(Seq::empty()) =~= empty_lines(k) + q.push(Seq::empty()));
        } else {
            assert(p.update(p.len() - 1, p.last().push(r.last())) =~= empty_lines(k) + q.update(
                q.len() - 1,
                q.last().push(r.last()),
            ));
        }
    }
}

/// Putting `k` newlines in front of a text adds exactly `k` lines to it.
pub proof fn lemma_lines_after_newlines(k: nat, r: Seq<char>)
    ensures
        lines_of(newlines(k) + r).len() == k + lines_of(r).len(),
{
    lemma_split_after_newlines(k, r);
    lemma_split_newlines_nonempty(r);
}

/// For a document that opens with `k` blank or comment lines followed by a
/// line that is neither (or by nothing), the leading count is `k`; and when
/// the calculator leaves out exactly those `k` lines, the realigned output has
/// as many lines as the document.
pub proof fn lemma_realigned_line_count(doc: Seq<char>, raw: Seq<char>, k: nat)
    requires
        k <= input_lines(doc).len(),
        forall|j: int| 0 <= j < k ==> blank_or_comment(#[trigger] input_lines(doc)[j]),
        k < input_lines(doc).len() ==> !blank_or_comment(input_lines(doc)[k as int]),
        lines_of(raw).len() + k == input_lines(doc).len(),
    ensures
        leading_blank_or_comment(input_lines(doc)) == k,
        lines_aligned(doc, raw),
{
    lemma_leading_count_is_prefix_run(input_lines(doc), k);
    lemma_lines_after_newlines(k, raw);
}

proof fn lemma_leading_from(ls: Seq<Seq<char>>, i: int, k: int)
    requires
        0 <= i <= k <= ls.len(),
        forall|j: int| i <= j < k ==> blank_or_comment(#[trigger] ls[j]),
        k < ls.len() ==> !blank_or_comment(ls[k]),
    ensures
        leading_from(ls, i) == k - i,
    decreases k - i,
{
    if i < k {
        lemma_leading_from(ls, i + 1, k);
    }
}

/// The leading count is exactly the length of the run of blank or comment
/// lines that opens the document: every line before it is blank or a comment,
/// and the line at it, if any, is neither.
pub proof fn lemma_leading_count_is_prefix_run(ls: Seq<Seq<char>>, k: nat)
    requires
        k <= ls.len(),
        forall|j: int| 0 <= j < k ==> blank_or_comment(#[trigger] ls[j]),
        k < ls.len() ==> !blank_or_comment(ls[k as int]),
    ensures
        leading_blank_or_comment(ls) == k,
{
    lemma_leading_from(ls, 0, k as int);
}

/// Whether `line` is blank or a comment.
pub fn is_blank_or_comment(line: &str) -> (r: bool)
    ensures
        r == blank_or_comment(line@),
{
    let n = line.unicode_len();
    if n == 0 {
        true
    } else {
        let first = line.get_char(0);
        first == '#' || (n >= 2 && first == '/' && line.get_char(1) == '/')
    }
}

/// The number of blank or comment lines at the start of `lines`: the lines
/// the calculator leaves out of the front of its output.
pub fn get_number_of_initial_newlines(lines: &[&str]) -> (r: usize)
    ensures
        r == leading_blank_or_comment(views_of(lines@)),
{
    let ghost v = views_of(lines@);
    let mut i: usize = 0;
    while i < lines.len() && is_blank_or_comment(lines[i])
        invariant
            v == views_of(lines@),
            i <= lines@.len(),
            leading_from(v, 0) == i + leading_from(v, i as int),
        decreases lines@.len() - i,
    {
        i = i + 1;
    }
    i
}

/// `raw` with `count` newlines put in front of it.
pub fn prepend_newlines(raw: &str, count: usize) -> (r: String)
    ensures
        r@ == newlines(count as nat) + raw@,
{
    let mut out = String::new();
    let mut i: usize = 0;
    proof {
        reveal_strlit("\n");
    }
    assert(out@ =~= newlines(0));
    while i < count
        invariant
            i <= count,
            out@ == newlines(i as nat),
            "\n"@ == seq!['\n'],
        decreases count - i,
    {
        out.append("\n");
        i = i + 1;
        assert(out@ =~= newlines(i as nat));
    }
    out.append(raw);
    out
}

/// Turns what the calculator printed into its raw output: fails if it exited
/// with a non-zero status, and otherwise drops the newline that ends the text.
pub fn raw_soulver_output(exit_success: bool, stdout: &str) -> (r: Result<String, SoulverError>)
    ensures
        match r {
            Ok(out) => exit_success && out@ == strip_final_newline(stdout@),
            Err(e) => !exit_success && e == SoulverError::NonZeroExit,
        },
{
    if !exit_success {
        return Err(SoulverError::NonZeroExit);
    }
    let n = stdout.unicode_len();
    if n > 0 && stdout.get_char(n - 1) == '\n' {
        Ok(String::from_str(stdout.substring_char(0, n - 1)))
    } else {
        Ok(String::from_str(stdout))
    }
}

/// Realigns the calculator's output `raw_output` for the document `file`
/// (which the calculator received without its trailing white space): puts back
/// one empty line for each blank or comment line that opens the document.
pub fn run_soulver(file: &str, raw_output: &str) -> (r: String)
    ensures
        r@ == aligned_output(file@, raw_output@),
{
    let trimmed_input = trim_end(file);
    let lines = split_lines(trimmed_input);
    let initial_newlines = get_number_of_initial_newlines(lines.as_slice());
    prepend_newlines(raw_output, initial_newlines)
}

/// The two-column report of the document `file` against the calculator's
/// output `raw_output` for it, after realignment; fails with `Misalignment`
/// exactly when the realigned output and the trimmed document differ in
/// their number of lines.
pub fn run_soulver_zipped(file: &str, raw_output: &str) -> (r: Result<String, SoulverError>)
    ensures
        match r {
            Ok(z) => lines_aligned(file@, raw_output@) && z@ == zipped_report(file@, raw_output@),
            Err(e) => !lines_aligned(file@, raw_output@) && e == SoulverError::Misalignment,
        },
{
    let trimmed_input = trim_end(file);
    let output = run_soulver(file, raw_output);
    let output_lines = split_lines(output.as_str());
    let input_lines = split_lines(trimmed_input);
    if input_lines.len() != output_lines.len() {
        return Err(SoulverError::Misalignment);
    }
    Ok(zip_columns(input_lines.as_slice(), output_lines.as_slice()))
}

} // verus!
