//! Words: what stands between the separators of a line.
//!
//! A text is modelled as its sequence of characters. The words of a text are
//! defined by [`words`]; [`lemma_words_of_spaced`] says the same in another
//! way: however words are written out with separators between them, splitting
//! finds these words again.

use vstd::prelude::*;
use vstd::string::StringExecFns;

verus! {

/// The characters that separate the words of a line: those with the Unicode
/// property `White_Space`.
pub open spec fn is_space(c: char) -> bool {
    let u = c as u32;
    ||| 0x09 <= u <= 0x0D
    ||| u == 0x20
    ||| u == 0x85
    ||| u == 0xA0
    ||| u == 0x1680
    ||| 0x2000 <= u <= 0x200A
    ||| u == 0x2028
    ||| u == 0x2029
    ||| u == 0x202F
    ||| u == 0x205F
    ||| u == 0x3000
}

/// A word: at least one character, and no separator among them.
pub open spec fn is_word(w: Seq<char>) -> bool {
    w.len() > 0 && forall|i: int| 0 <= i < w.len() ==> !is_space(#[trigger] w[i])
}

/// A blank text holds separators only; the empty text is blank.
pub open spec fn is_blank(s: Seq<char>) -> bool {
    forall|i: int| 0 <= i < s.len() ==> is_space(#[trigger] s[i])
}

/// The words of `s`: its maximal runs of characters that are no separators,
/// from left to right. A separator ends the word before it; any other
/// character lengthens the word that the character before it belongs to, or
/// begins a new word.
pub open spec fn words(s: Seq<char>) -> Seq<Seq<char>>
    decreases s.len(),
{
    if s.len() == 0 {
        Seq::empty()
    } else {
        let before = words(s.drop_last());
        let c = s.last();
        if is_space(c) {
            before
        } else if s.len() >= 2 && !is_space(s[s.len() - 2]) {
            before.drop_last().push(before.last().push(c))
        } else {
            before.push(seq![c])
        }
    }
}

/// The word that `s` ends in: its longest suffix without a separator. It is
/// empty where `s` is empty or ends in a separator.
pub open spec fn last_run(s: Seq<char>) -> Seq<char>
    decreases s.len(),
{
    if s.len() == 0 || is_space(s.last()) {
        Seq::empty()
    } else {
        last_run(s.drop_last()).push(s.last())
    }
}

/// The words of `s` that a separator has ended: all of them, but for the one
/// that `s` ends in.
pub open spec fn ended_words(s: Seq<char>) -> Seq<Seq<char>> {
    if last_run(s).len() > 0 {
        words(s).drop_last()
    } else {
        words(s)
    }
}

/// The words joined by single spaces, with no space before the first or
/// after the last.
pub open spec fn join_words(parts: Seq<Seq<char>>) -> Seq<char>
    decreases parts.len(),
{
    if parts.len() == 0 {
        Seq::empty()
    } else if parts.len() == 1 {
        parts[0]
    } else {
        join_words(parts.drop_last()) + seq![' '] + parts.last()
    }
}

/// A gap between two words: one separator or more.
pub open spec fn is_gap(g: Seq<char>) -> bool {
    g.len() > 0 && is_blank(g)
}

/// The words written out with a gap between each two neighbours: the word
/// at `i + 1` follows the word at `i` after `gaps[i]`.
pub open spec fn spaced(parts: Seq<Seq<char>>, gaps: Seq<Seq<char>>) -> Seq<char>
    recommends
        gaps.len() + 1 >= parts.len(),
    decreases parts.len(),
{
    if parts.len() == 0 {
        Seq::empty()
    } else if parts.len() == 1 {
        parts[0]
    } else {
        spaced(parts.drop_last(), gaps) + gaps[parts.len() - 2] + parts.last()
    }
}

/// The gaps of a text whose words are one space apart.
pub open spec fn single_spaces(count: nat) -> Seq<Seq<char>> {
    Seq::new(count, |i: int| seq![' '])
}

/// Tells whether `c` separates words.
pub fn is_space_char(c: char) -> (space: bool)
    ensures
        space == is_space(c),
{
    let u: u32 = c as u32;
    (0x09 <= u && u <= 0x0D) || u == 0x20 || u == 0x85 || u == 0xA0 || u == 0x1680 || (0x2000 <= u
        && u <= 0x200A) || u == 0x2028 || u == 0x2029 || u == 0x202F || u == 0x205F || u == 0x3000
}

/// Splits `line` into its words.
pub fn split_words(line: &str) -> (fields: Vec<String>)
    ensures
        fields.deep_view() == words(line@),
{
    let mut fields: Vec<String> = Vec::new();
    let mut current = String::new();
    let mut in_word = false;
    for c in it: line.chars()
        invariant
            it.seq() == line@,
            fields.deep_view() == ended_words(line@.take(it.index())),
            current@ == last_run(line@.take(it.index())),
            in_word == (current@.len() > 0),
    {
        let ghost read = line@.take(it.index() + 1);
        proof {
            assert(read.drop_last() =~= line@.take(it.index()));
            assert(read.last() == c);
            lemma_scan_step(read);
        }
        if is_space_char(c) {
            if in_word {
                let ghost before = fields.deep_view();
                fields.push(current);
                assert(fields.deep_view() =~= before.push(last_run(read.drop_last())));
                current = String::new();
                in_word = false;
            }
        } else {
            current.push(c);
            in_word = true;
        }
    }
    proof {
        assert(line@.take(line@.len() as int) =~= line@);
        lemma_last_run_is_last_word(line@);
    }
    if in_word {
        let ghost before = fields.deep_view();
        fields.push(current);
        assert(fields.deep_view() =~= before.push(last_run(line@)));
        assert(words(line@) =~= words(line@).drop_last().push(words(line@).last()));
    }
    fields
}

/// Joins the parts with single spaces.
pub fn join_with_spaces(parts: &Vec<String>) -> (joined: String)
    ensures
        joined@ == join_words(parts.deep_view()),
{
    let mut joined = String::new();
    let mut i: usize = 0;
    while i < parts.len()
        invariant
            i <= parts.len(),
            joined@ == join_words(parts.deep_view().take(i as int)),
        decreases parts.len() - i,
    {
        let ghost taken = parts.deep_view().take(i + 1);
        assert(taken.drop_last() =~= parts.deep_view().take(i as int));
        assert(taken.last() == parts[i as int]@);
        if i > 0 {
            joined.push(' ');
        }
        joined.append(parts[i].as_str());
        assert(joined@ =~= join_words(taken));
        i += 1;
    }
    assert(parts.deep_view().take(i as int) =~= parts.deep_view());
    joined
}

/// Tells whether `line` holds separators only.
pub fn is_blank_line(line: &str) -> (blank: bool)
    ensures
        blank == is_blank(line@),
{
    for c in it: line.chars()
        invariant
            it.seq() == line@,
            is_blank(line@.take(it.index())),
    {
        if !is_space_char(c) {
            assert(!is_space(line@[it.index()]));
            return false;
        }
        assert forall|i: int| 0 <= i < it.index() + 1 implies is_space(
            #[trigger] line@.take(it.index() + 1)[i],
        ) by {
            if i < it.index() {
                assert(line@.take(it.index() + 1)[i] == line@.take(it.index())[i]);
            }
        }
    }
    assert(line@.take(line@.len() as int) =~= line@);
    true
}

/// The run that a text ends in is the last of its words.
pub proof fn lemma_last_run_is_last_word(s: Seq<char>)
    ensures
        last_run(s).len() > 0 <==> s.len() > 0 && !is_space(s.last()),
        last_run(s).len() > 0 ==> words(s).len() > 0 && words(s).last() == last_run(s),
    decreases s.len(),
{
    if s.len() > 0 && !is_space(s.last()) {
        let p = s.drop_last();
        lemma_last_run_is_last_word(p);
        if s.len() >= 2 && !is_space(s[s.len() - 2]) {
            assert(p.last() == s[s.len() - 2]);
        } else {
            assert(last_run(p) =~= Seq::<char>::empty());
            assert(last_run(s) =~= seq![s.last()]);
        }
    }
}

/// How one more character changes the ended words and the last run.
proof fn lemma_scan_step(s: Seq<char>)
    requires
        s.len() > 0,
    ensures
        is_space(s.last()) ==> last_run(s).len() == 0 && ended_words(s) == words(s.drop_last()),
        !is_space(s.last()) ==> last_run(s) == last_run(s.drop_last()).push(s.last())
            && ended_words(s) == ended_words(s.drop_last()),
        words(s.drop_last()) == if last_run(s.drop_last()).len() > 0 {
            ended_words(s.drop_last()).push(last_run(s.drop_last()))
        } else {
            ended_words(s.drop_last())
        },
{
    let p = s.drop_last();
    lemma_last_run_is_last_word(p);
    lemma_last_run_is_last_word(s);
    if last_run(p).len() > 0 {
        assert(words(p) =~= words(p).drop_last().push(words(p).last()));
    }
    if !is_space(s.last()) {
        if s.len() >= 2 && !is_space(s[s.len() - 2]) {
            assert(p.last() == s[s.len() - 2]);
            assert(words(s).drop_last() =~= words(p).drop_last());
        } else {
            assert(words(s).drop_last() =~= words(p));
        }
    }
}

/// Separators at the end of a text add no word.
pub proof fn lemma_words_append_blank(s: Seq<char>, blank: Seq<char>)
    requires
        is_blank(blank),
    ensures
        words(s + blank) == words(s),
    decreases blank.len(),
{
    if blank.len() == 0 {
        assert(s + blank =~= s);
    } else {
        assert((s + blank).drop_last() =~= s + blank.drop_last());
        assert((s + blank).last() == blank[blank.len() - 1]);
        lemma_words_append_blank(s, blank.drop_last());
    }
}

/// A word written behind a separator, or at the start of a text, is one
/// more word of the text.
pub proof fn lemma_words_append_word(s: Seq<char>, w: Seq<char>)
    requires
        is_word(w),
        s.len() == 0 || is_space(s.last()),
    ensures
        words(s + w) == words(s).push(w),
    decreases w.len(),
{
    let t = s + w;
    assert(t.drop_last() =~= s + w.drop_last());
    assert(t.last() == w[w.len() - 1]);
    if w.len() == 1 {
        assert(s + w.drop_last() =~= s);
        assert(w =~= seq![w[0]]);
        if s.len() > 0 {
            assert(t[t.len() - 2] == s.last());
        }
    } else {
        let v = w.drop_last();
        assert(is_word(v)) by {
            assert forall|i: int| 0 <= i < v.len() implies !is_space(#[trigger] v[i]) by {
                assert(v[i] == w[i]);
            }
        }
        lemma_words_append_word(s, v);
        assert(t[t.len() - 2] == w[w.len() - 2]);
        assert(words(s).push(v).drop_last() =~= words(s));
        assert(v.push(w[w.len() - 1]) =~= w);
    }
}

/// The words of a text are words: none is empty, none holds a separator.
pub proof fn lemma_words_are_words(s: Seq<char>)
    ensures
        forall|i: int| 0 <= i < words(s).len() ==> is_word(#[trigger] words(s)[i]),
    decreases s.len(),
{
    if s.len() > 0 {
        let p = s.drop_last();
        lemma_words_are_words(p);
        lemma_last_run_is_last_word(p);
        let c = s.last();
        if !is_space(c) {
            if s.len() >= 2 && !is_space(s[s.len() - 2]) {
                assert(p.last() == s[s.len() - 2]);
                let grown = words(p).last().push(c);
                assert(is_word(words(p)[words(p).len() - 1]));
                assert(is_word(grown)) by {
                    assert forall|i: int| 0 <= i < grown.len() implies !is_space(
                        #[trigger] grown[i],
                    ) by {
                        if i < grown.len() - 1 {
                            assert(grown[i] == words(p).last()[i]);
                        }
                    }
                }
            } else {
                assert(is_word(seq![c]));
            }
        }
    }
}

/// Words that are written out with gaps between them, and with separators
/// before the first and after the last, are the words of the text written.
pub proof fn lemma_words_of_spaced(
    lead: Seq<char>,
    parts: Seq<Seq<char>>,
    gaps: Seq<Seq<char>>,
    trail: Seq<char>,
)
    requires
        is_blank(lead),
        is_blank(trail),
        forall|i: int| 0 <= i < parts.len() ==> is_word(#[trigger] parts[i]),
        gaps.len() + 1 >= parts.len(),
        forall|i: int| 0 <= i < parts.len() - 1 ==> is_gap(#[trigger] gaps[i]),
    ensures
        words(lead + spaced(parts, gaps) + trail) == parts,
{
    lemma_words_of_lead_spaced(lead, parts, gaps);
    lemma_words_append_blank(lead + spaced(parts, gaps), trail);
}

/// The same without separators at the end.
proof fn lemma_words_of_lead_spaced(lead: Seq<char>, parts: Seq<Seq<char>>, gaps: Seq<Seq<char>>)
    requires
        is_blank(lead),
        forall|i: int| 0 <= i < parts.len() ==> is_word(#[trigger] parts[i]),
        gaps.len() + 1 >= parts.len(),
        forall|i: int| 0 <= i < parts.len() - 1 ==> is_gap(#[trigger] gaps[i]),
    ensures
        words(lead + spaced(parts, gaps)) == parts,
    decreases parts.len(),
{
    let empty = Seq::<char>::empty();
    if parts.len() == 0 {
        assert(empty + lead =~= lead);
        assert(lead + spaced(parts, gaps) =~= lead);
        lemma_words_append_blank(empty, lead);
        assert(words(empty) =~= parts);
    } else if parts.len() == 1 {
        assert(empty + lead =~= lead);
        lemma_words_append_blank(empty, lead);
        assert(is_word(parts[0]));
        if lead.len() > 0 {
            assert(is_space(lead[lead.len() - 1]));
        }
        lemma_words_append_word(lead, parts[0]);
        assert(words(empty).push(parts[0]) =~= parts);
    } else {
        let n = parts.len() as int;
        let front = parts.drop_last();
        assert forall|i: int| 0 <= i < front.len() implies is_word(#[trigger] front[i]) by {
            assert(front[i] == parts[i]);
        }
        lemma_words_of_lead_spaced(lead, front, gaps);
        let gap = gaps[n - 2];
        assert(is_gap(gap));
        let head = lead + spaced(front, gaps);
        lemma_words_append_blank(head, gap);
        assert(is_space(gap[gap.len() - 1]));
        assert((head + gap).last() == gap[gap.len() - 1]);
        assert(is_word(parts[n - 1]));
        lemma_words_append_word(head + gap, parts[n - 1]);
        assert(lead + spaced(parts, gaps) =~= head + gap + parts[n - 1]);
        assert(front.push(parts[n - 1]) =~= parts);
    }
}

/// Joining with single spaces is writing out with gaps of one space.
pub proof fn lemma_join_is_spaced(parts: Seq<Seq<char>>)
    ensures
        join_words(parts) == spaced(parts, single_spaces(parts.len())),
    decreases parts.len(),
{
    if parts.len() >= 2 {
        let front = parts.drop_last();
        lemma_join_is_spaced(front);
        lemma_spaced_reads_needed_gaps(front, single_spaces(front.len()), single_spaces(parts.len()));
        assert(single_spaces(parts.len())[parts.len() - 2] =~= seq![' ']);
    }
}

/// Only the gaps between the words count.
proof fn lemma_spaced_reads_needed_gaps(
    parts: Seq<Seq<char>>,
    gaps: Seq<Seq<char>>,
    more: Seq<Seq<char>>,
)
    requires
        gaps.len() + 1 >= parts.len(),
        more.len() + 1 >= parts.len(),
        forall|i: int| 0 <= i < parts.len() - 1 ==> gaps[i] == more[i],
    ensures
        spaced(parts, gaps) == spaced(parts, more),
    decreases parts.len(),
{
    if parts.len() >= 2 {
        lemma_spaced_reads_needed_gaps(parts.drop_last(), gaps, more);
    }
}

/// Words joined by single spaces are found again when the text is split.
pub proof fn lemma_words_of_joined(parts: Seq<Seq<char>>)
    requires
        forall|i: int| 0 <= i < parts.len() ==> is_word(#[trigger] parts[i]),
    ensures
        words(join_words(parts)) == parts,
{
    let gaps = single_spaces(parts.len());
    let empty = Seq::<char>::empty();
    lemma_join_is_spaced(parts);
    assert forall|i: int| 0 <= i < parts.len() - 1 implies is_gap(#[trigger] gaps[i]) by {
        assert(gaps[i] =~= seq![' ']);
        assert(is_space(' '));
    }
    lemma_words_of_spaced(empty, parts, gaps, empty);
    assert(empty + spaced(parts, gaps) + empty =~= spaced(parts, gaps));
}

} // verus!
