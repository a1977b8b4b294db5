//! The lines of a text.

use vstd::prelude::*;

verus! {

/// The pieces of `text` between its line feeds. Every line feed ends a
/// line and begins another, so a text that ends in a line feed has an empty
/// last line. A carriage return before a line feed stays in its line, where
/// it counts as a separator.
pub open spec fn lines(text: Seq<char>) -> Seq<Seq<char>>
    decreases text.len(),
{
    if text.len() == 0 {
        seq![Seq::empty()]
    } else {
        let before = lines(text.drop_last());
        if text.last() == '\n' {
            before.push(Seq::empty())
        } else {
            before.drop_last().push(before.last().push(text.last()))
        }
    }
}

/// Splits `text` at its line feeds.
pub fn split_lines(text: &str) -> (pieces: Vec<String>)
    ensures
        pieces.deep_view() == lines(text@),
{
    let mut pieces: Vec<String> = Vec::new();
    let mut current = String::new();
    for c in it: text.chars()
        invariant
            it.seq() == text@,
            pieces.deep_view().push(current@) == lines(text@.take(it.index())),
    {
        let ghost read = text@.take(it.index() + 1);
        let ghost before = pieces.deep_view();
        let ghost open = current@;
        assert(read.drop_last() =~= text@.take(it.index()));
        assert(read.last() == c);
        assert(before.push(open).drop_last() =~= before);
        if c == '\n' {
            pieces.push(current);
            current = String::new();
            assert(pieces.deep_view() =~= before.push(open));
        } else {
            current.push(c);
        }
    }
    let ghost before = pieces.deep_view();
    assert(text@.take(text@.len() as int) =~= text@);
    pieces.push(current);
    assert(pieces.deep_view() =~= before.push(current@));
    pieces
}

/// A text has one line at least.
pub proof fn lemma_lines_nonempty(text: Seq<char>)
    ensures
        lines(text).len() >= 1,
    decreases text.len(),
{
    if text.len() > 0 {
        lemma_lines_nonempty(text.drop_last());
    }
}

/// A text without a line feed is one line.
pub proof fn lemma_lines_of_line(line: Seq<char>)
    requires
        !line.contains('\n'),
    ensures
        lines(line) == seq![line],
    decreases line.len(),
{
    if line.len() == 0 {
        assert(line =~= Seq::<char>::empty());
    } else {
        let front = line.drop_last();
        assert(!front.contains('\n')) by {
            if front.contains('\n') {
                let i = choose|i: int| 0 <= i < front.len() && front[i] == '\n';
                assert(line[i] == '\n');
            }
        }
        assert(line[line.len() - 1] != '\n');
        lemma_lines_of_line(front);
        assert(front.push(line.last()) =~= line);
        assert(seq![front].drop_last().push(line) =~= seq![line]);
    }
}

/// A line feed between two texts sets the lines of the second behind the
/// lines of the first.
pub proof fn lemma_lines_concat(first: Seq<char>, second: Seq<char>)
    ensures
        lines(first + seq!['\n'] + second) == lines(first) + lines(second),
    decreases second.len(),
{
    let feed = seq!['\n'];
    let whole = first + feed + second;
    if second.len() == 0 {
        assert(whole.drop_last() =~= first);
        assert(lines(first).push(Seq::<char>::empty()) =~= lines(first) + lines(second));
    } else {
        let front = second.drop_last();
        assert(whole.drop_last() =~= first + feed + front);
        assert(whole.last() == second.last());
        lemma_lines_concat(first, front);
        lemma_lines_nonempty(front);
        assert(lines(whole) =~= lines(first) + lines(second));
    }
}

} // verus!
