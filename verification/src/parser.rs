//! From the text that `winget upgrade` prints to package records.
//!
//! The table has no column separators and no fixed column widths, and the
//! name in its first column may hold spaces. A row is therefore read from its
//! end: the last four words are the identifier, the two versions and the
//! source, and whatever stands before them is the name. Where one of these
//! four columns itself holds a space, the row is read wrongly; nothing in the
//! text tells such a row from another.

use vstd::prelude::*;
use crate::command::Invocation;
use crate::package::{PackageRecord, WingetPackage};
use crate::lines::{lemma_lines_concat, lemma_lines_of_line, lines, split_lines};
use crate::search::{occurs_in, str_contains};
use crate::words::{
    is_blank, is_blank_line, is_gap, is_word, join_with_spaces, join_words, lemma_words_are_words,
    lemma_words_of_joined, lemma_words_of_spaced, spaced, split_words, words,
};

verus! {

/// The number of words that a row needs: one for the name at least, and one
/// for each of the four columns behind it.
pub open spec fn min_words() -> nat {
    5
}

/// The record that a row of these words stands for. The last four words are
/// the identifier, the installed version, the available version and the
/// source; the words before them, joined by single spaces, are the name.
pub open spec fn record_of_words(fields: Seq<Seq<char>>) -> PackageRecord
    recommends
        fields.len() >= min_words(),
{
    let n = fields.len() as int;
    PackageRecord {
        name: join_words(fields.take(n - 4)),
        id: fields[n - 4],
        current_version: fields[n - 3],
        available_version: fields[n - 2],
        source: fields[n - 1],
    }
}

/// What one line of the table says: a record, where the line has five words
/// or more, and nothing otherwise.
pub open spec fn parse_line(line: Seq<char>) -> Option<PackageRecord> {
    let fields = words(line);
    if fields.len() >= min_words() {
        Some(record_of_words(fields))
    } else {
        None
    }
}

/// The words that end the table where `winget` speaks English.
pub open spec fn english_trailer() -> Seq<char> {
    "upgrades available"@
}

/// The words that end the table where `winget` speaks Portuguese.
pub open spec fn portuguese_trailer() -> Seq<char> {
    "atualizações disponíveis"@
}

/// A line that ends the table: a blank line, or the line below the table
/// that tells how many upgrades are available, in either language.
pub open spec fn is_terminator(line: Seq<char>) -> bool {
    ||| occurs_in(portuguese_trailer(), line)
    ||| occurs_in(english_trailer(), line)
    ||| is_blank(line)
}

/// The number of lines above the rows: the column heads and the rule under
/// them. They are passed over by their position, whatever they hold.
pub open spec fn header_lines() -> nat {
    2
}

/// The lines below the header.
pub open spec fn below_header(all: Seq<Seq<char>>) -> Seq<Seq<char>> {
    if all.len() >= header_lines() {
        all.skip(header_lines() as int)
    } else {
        Seq::empty()
    }
}

/// The lines that stand before the first terminator.
pub open spec fn before_terminator(body: Seq<Seq<char>>) -> Seq<Seq<char>>
    decreases body.len(),
{
    if body.len() == 0 || is_terminator(body.first()) {
        Seq::empty()
    } else {
        seq![body.first()] + before_terminator(body.drop_first())
    }
}

/// The rows of the table: the lines below the header, up to the first
/// terminator.
pub open spec fn table_rows(all: Seq<Seq<char>>) -> Seq<Seq<char>> {
    before_terminator(below_header(all))
}

/// [`parse_line`] as a value.
pub open spec fn line_parser() -> spec_fn(Seq<char>) -> Option<PackageRecord> {
    |line: Seq<char>| parse_line(line)
}

/// The records of the rows that hold one, in the order of the rows.
pub open spec fn records_of(rows: Seq<Seq<char>>) -> Seq<PackageRecord> {
    rows.filter_map(line_parser())
}

/// The records of a listing that is given line by line.
pub open spec fn parse_lines(all: Seq<Seq<char>>) -> Seq<PackageRecord> {
    records_of(table_rows(all))
}

/// The records of a listing.
pub open spec fn parse_output(output: Seq<char>) -> Seq<PackageRecord> {
    parse_lines(lines(output))
}

/// Why a listing gave no packages.
#[derive(Debug, Clone, Copy, PartialEq, Eq)]
pub enum ListingError {
    /// The package manager could not be started.
    NotStarted,
    /// The package manager ran and reported a failure.
    Unsuccessful,
}

/// What a listing command leaves: the records of its output where it ran
/// and reported success, and otherwise the error, whatever the output holds.
pub open spec fn listing_records(
    ended: Invocation,
    output: Seq<char>,
) -> Result<Seq<PackageRecord>, ListingError> {
    match ended {
        Invocation::NotStarted => Err(ListingError::NotStarted),
        Invocation::Ended { success } => if success {
            Ok(parse_output(output))
        } else {
            Err(ListingError::Unsuccessful)
        },
    }
}

/// Reads one row of the table. The columns are found from the end of the
/// line, since the name in front may itself hold spaces. Separators before
/// the first word and after the last are of no account, and a run of
/// separators counts as one.
pub fn parse_winget_line(line: &str) -> (package: Option<WingetPackage>)
    ensures
        package is Some <==> words(line@).len() >= min_words(),
        match package {
            Some(p) => parse_line(line@) == Some(p@) && p@.wf(),
            None => parse_line(line@) is None,
        },
{
    proof {
        if parse_line(line@) is Some {
            lemma_record_is_made_of_words(line@);
        }
    }
    let mut fields = split_words(line);
    let ghost all = fields.deep_view();
    let n = fields.len();
    if n < 5 {
        return None;
    }
    let source = fields.pop().unwrap();
    let available_version = fields.pop().unwrap();
    let current_version = fields.pop().unwrap();
    let id = fields.pop().unwrap();
    assert(fields.deep_view() =~= all.take(n - 4));
    let name = join_with_spaces(&fields);
    Some(WingetPackage { name, id, current_version, available_version, source })
}

/// Tells whether `line` ends the table.
pub fn is_terminator_line(line: &str) -> (stop: bool)
    ensures
        stop == is_terminator(line@),
{
    str_contains(line, "atualizações disponíveis") || str_contains(line, "upgrades available")
        || is_blank_line(line)
}

/// Reads the table that `winget upgrade` printed. The first two lines are
/// passed over; reading stops at the first terminator; a row with too few
/// words is left out, and the rows behind it are still read.
pub fn parse_winget_output(output: &str) -> (packages: Vec<WingetPackage>)
    ensures
        packages.deep_view() == parse_output(output@),
        forall|i: int| 0 <= i < packages.len() ==> (#[trigger] packages[i])@.wf(),
{
    let all = split_lines(output);
    let mut packages: Vec<WingetPackage> = Vec::new();
    if all.len() < 2 {
        assert(packages.deep_view() =~= parse_output(output@));
        return packages;
    }
    let ghost body = below_header(all.deep_view());
    let mut i: usize = 2;
    while i < all.len()
        invariant
            all.len() >= 2,
            body == all.deep_view().skip(2),
            2 <= i <= all.len(),
            forall|k: int| 0 <= k < i - 2 ==> !is_terminator(#[trigger] body[k]),
            packages.deep_view() == records_of(body.take(i - 2)),
            forall|k: int| 0 <= k < packages.len() ==> (#[trigger] packages[k])@.wf(),
        ensures
            i < all.len() ==> is_terminator(body[i - 2]),
        decreases all.len() - i,
    {
        assert(body[i - 2] == all[i as int]@);
        if is_terminator_line(all[i].as_str()) {
            break;
        }
        let ghost before = packages.deep_view();
        proof {
            body.lemma_filter_map_take_succ(line_parser(), i - 2);
        }
        match parse_winget_line(all[i].as_str()) {
            Some(package) => {
                packages.push(package);
                assert(packages.deep_view() =~= before.push(package@));
            },
            None => {},
        }
        i += 1;
    }
    proof {
        lemma_before_terminator(body, i - 2);
    }
    packages
}

/// Reads what the listing command left. Where the command could not be
/// started, or reported a failure, nothing is read and no package is
/// returned; otherwise the packages are those of the table in `output`.
pub fn read_listing(ended: Invocation, output: &str) -> (packages: Result<
    Vec<WingetPackage>,
    ListingError,
>)
    ensures
        packages is Ok <==> ended.is_success(),
        match packages {
            Ok(read) => listing_records(ended, output@) == Ok::<_, ListingError>(read.deep_view()),
            Err(error) => listing_records(ended, output@) == Err::<Seq<PackageRecord>, _>(error),
        },
{
    match ended {
        Invocation::NotStarted => Err(ListingError::NotStarted),
        Invocation::Ended { success } => {
            if success {
                Ok(parse_winget_output(output))
            } else {
                Err(ListingError::Unsuccessful)
            }
        },
    }
}

/// A line of five words or more gives a record, whatever separators stand
/// between the words, before the first and after the last: its last four
/// words are the identifier, the two versions and the source, in this order,
/// and the words before them, joined by single spaces, are the name.
pub proof fn lemma_parse_line_reads_columns(
    lead: Seq<char>,
    parts: Seq<Seq<char>>,
    gaps: Seq<Seq<char>>,
    trail: Seq<char>,
)
    requires
        is_blank(lead),
        is_blank(trail),
        forall|i: int| 0 <= i < parts.len() ==> is_word(#[trigger] parts[i]),
        gaps.len() + 1 >= parts.len(),
        forall|i: int| 0 <= i < parts.len() - 1 ==> is_gap(#[trigger] gaps[i]),
        parts.len() >= min_words(),
    ensures
        parse_line(lead + spaced(parts, gaps) + trail) == Some(
            PackageRecord {
                name: join_words(parts.take(parts.len() - 4)),
                id: parts[parts.len() - 4],
                current_version: parts[parts.len() - 3],
                available_version: parts[parts.len() - 2],
                source: parts[parts.len() - 1],
            },
        ),
{
    lemma_words_of_spaced(lead, parts, gaps, trail);
}

/// A line of fewer than five words gives no record.
pub proof fn lemma_short_line_has_no_record(line: Seq<char>)
    requires
        words(line).len() < min_words(),
    ensures
        parse_line(line) is None,
{
}

/// Fewer than five words give no record, whatever separators stand between
/// them, before the first and after the last.
pub proof fn lemma_few_words_have_no_record(
    lead: Seq<char>,
    parts: Seq<Seq<char>>,
    gaps: Seq<Seq<char>>,
    trail: Seq<char>,
)
    requires
        is_blank(lead),
        is_blank(trail),
        forall|i: int| 0 <= i < parts.len() ==> is_word(#[trigger] parts[i]),
        gaps.len() + 1 >= parts.len(),
        forall|i: int| 0 <= i < parts.len() - 1 ==> is_gap(#[trigger] gaps[i]),
        parts.len() < min_words(),
    ensures
        parse_line(lead + spaced(parts, gaps) + trail) is None,
{
    lemma_words_of_spaced(lead, parts, gaps, trail);
}

/// In a record that was read from a line, the identifier, the versions and
/// the source are single words of the line, and the name is made of the
/// words before them: it splits into these words again.
pub proof fn lemma_record_is_made_of_words(line: Seq<char>)
    requires
        parse_line(line) is Some,
    ensures
        ({
            let record = parse_line(line)->0;
            let fields = words(line);
            let n = fields.len() as int;
            &&& n >= 5
            &&& is_word(record.id) && record.id == fields[n - 4]
            &&& is_word(record.current_version) && record.current_version == fields[n - 3]
            &&& is_word(record.available_version) && record.available_version == fields[n - 2]
            &&& is_word(record.source) && record.source == fields[n - 1]
            &&& record.name == join_words(fields.take(n - 4))
            &&& words(record.name) == fields.take(n - 4)
            &&& record.wf()
        }),
{
    let fields = words(line);
    let n = fields.len() as int;
    lemma_words_are_words(line);
    let front = fields.take(n - 4);
    assert forall|i: int| 0 <= i < front.len() implies is_word(#[trigger] front[i]) by {
        assert(front[i] == fields[i]);
    }
    lemma_words_of_joined(front);
    assert(is_word(fields[n - 4]));
    assert(is_word(fields[n - 3]));
    assert(is_word(fields[n - 2]));
    assert(is_word(fields[n - 1]));
}

/// A row that is written from a record gives the record back: where the
/// words of the name and the four columns are joined by single spaces, the
/// line is read as the record that it was written from.
pub proof fn lemma_row_gives_its_record(record: PackageRecord)
    requires
        record.wf(),
    ensures
        parse_line(join_words(record.row_words())) == Some(record),
{
    let parts = record.row_words();
    let n = parts.len() as int;
    lemma_words_are_words(record.name);
    assert forall|i: int| 0 <= i < parts.len() implies is_word(#[trigger] parts[i]) by {
        if i < words(record.name).len() {
            assert(parts[i] == words(record.name)[i]);
        }
    }
    lemma_words_of_joined(parts);
    assert(parts.take(n - 4) =~= words(record.name));
}

/// Every record of a table is as a row gives it.
pub proof fn lemma_records_are_wf(rows: Seq<Seq<char>>)
    ensures
        forall|i: int| 0 <= i < records_of(rows).len() ==> (#[trigger] records_of(rows)[i]).wf(),
    decreases rows.len(),
{
    if rows.len() > 0 {
        let before = records_of(rows.drop_last());
        let all = records_of(rows);
        lemma_records_are_wf(rows.drop_last());
        if parse_line(rows.last()) is Some {
            lemma_record_is_made_of_words(rows.last());
            assert(all =~= before.push(parse_line(rows.last())->0));
        }
        assert forall|i: int| 0 <= i < all.len() implies (#[trigger] all[i]).wf() by {
            if i < before.len() {
                assert(all[i] == before[i]);
            }
        }
    }
}

/// The lines before the first terminator are the first `n` lines, where
/// none of these is a terminator and the line behind them, if there is one,
/// is.
pub proof fn lemma_before_terminator(body: Seq<Seq<char>>, n: int)
    requires
        0 <= n <= body.len(),
        forall|k: int| 0 <= k < n ==> !is_terminator(#[trigger] body[k]),
        n < body.len() ==> is_terminator(body[n]),
    ensures
        before_terminator(body) == body.take(n),
    decreases n,
{
    if n == 0 {
        assert(body.take(0) =~= Seq::<Seq<char>>::empty());
    } else {
        let rest = body.drop_first();
        assert(!is_terminator(body[0]));
        assert forall|k: int| 0 <= k < n - 1 implies !is_terminator(#[trigger] rest[k]) by {
            assert(rest[k] == body[k + 1]);
        }
        lemma_before_terminator(rest, n - 1);
        assert(body.take(n) =~= seq![body.first()] + rest.take(n - 1));
    }
}

/// Nothing behind a terminator is read.
proof fn lemma_before_terminator_ignores_rest(
    front: Seq<Seq<char>>,
    stop: Seq<char>,
    rest: Seq<Seq<char>>,
)
    requires
        is_terminator(stop),
    ensures
        before_terminator(front + seq![stop] + rest) == before_terminator(front),
    decreases front.len(),
{
    let all = front + seq![stop] + rest;
    if front.len() == 0 {
        assert(all.first() == stop);
    } else {
        assert(all.first() == front.first());
        assert(all.drop_first() =~= front.drop_first() + seq![stop] + rest);
        lemma_before_terminator_ignores_rest(front.drop_first(), stop, rest);
    }
}

/// Where no line of `front` is a terminator, reading goes on behind it.
proof fn lemma_before_terminator_passes(front: Seq<Seq<char>>, rest: Seq<Seq<char>>)
    requires
        forall|k: int| 0 <= k < front.len() ==> !is_terminator(#[trigger] front[k]),
    ensures
        before_terminator(front + rest) == front + before_terminator(rest),
    decreases front.len(),
{
    let all = front + rest;
    if front.len() == 0 {
        assert(all =~= rest);
        assert(front + before_terminator(rest) =~= before_terminator(rest));
    } else {
        let tail = front.drop_first();
        assert(!is_terminator(front[0]));
        assert(all.first() == front.first());
        assert(all.drop_first() =~= tail + rest);
        assert forall|k: int| 0 <= k < tail.len() implies !is_terminator(#[trigger] tail[k]) by {
            assert(tail[k] == front[k + 1]);
        }
        lemma_before_terminator_passes(tail, rest);
        assert(seq![front.first()] + (tail + before_terminator(rest)) =~= front
            + before_terminator(rest));
    }
}

/// The records of rows that stand one behind the other are the records of
/// the first rows, followed by the records of the rows behind them.
pub proof fn lemma_records_of_concat(front: Seq<Seq<char>>, back: Seq<Seq<char>>)
    ensures
        records_of(front + back) == records_of(front) + records_of(back),
    decreases back.len(),
{
    if back.len() == 0 {
        assert(front + back =~= front);
        assert(records_of(front) + records_of(back) =~= records_of(front));
    } else {
        assert((front + back).drop_last() =~= front + back.drop_last());
        assert((front + back).last() == back.last());
        lemma_records_of_concat(front, back.drop_last());
        assert(records_of(front + back) =~= records_of(front) + records_of(back));
    }
}

/// A terminator below the header ends the table: whatever stands behind it,
/// the records are those of the lines before it.
pub proof fn lemma_terminator_ends_table(
    head: Seq<Seq<char>>,
    stop: Seq<char>,
    tail: Seq<Seq<char>>,
)
    requires
        head.len() >= header_lines(),
        is_terminator(stop),
    ensures
        parse_lines(head + seq![stop] + tail) == parse_lines(head),
{
    assert(below_header(head + seq![stop] + tail) =~= below_header(head) + seq![stop] + tail);
    lemma_before_terminator_ignores_rest(below_header(head), stop, tail);
}

/// A blank line below the header ends the table: the lines behind it are
/// not read, whether they are blank or not.
pub proof fn lemma_blank_line_ends_table(
    head: Seq<Seq<char>>,
    blank: Seq<char>,
    tail: Seq<Seq<char>>,
)
    requires
        head.len() >= header_lines(),
        is_blank(blank),
    ensures
        parse_lines(head + seq![blank] + tail) == parse_lines(head),
{
    lemma_terminator_ends_table(head, blank, tail);
}

/// The trailer ends the table in the same way in both languages: a line
/// that holds the English words and a line that holds the Portuguese words
/// leave the same records, whatever follows either.
pub proof fn lemma_trailers_end_table_alike(
    head: Seq<Seq<char>>,
    english: Seq<char>,
    english_tail: Seq<Seq<char>>,
    portuguese: Seq<char>,
    portuguese_tail: Seq<Seq<char>>,
)
    requires
        head.len() >= header_lines(),
        occurs_in(english_trailer(), english),
        occurs_in(portuguese_trailer(), portuguese),
    ensures
        parse_lines(head + seq![english] + english_tail) == parse_lines(head),
        parse_lines(head + seq![portuguese] + portuguese_tail) == parse_lines(head),
        parse_lines(head + seq![english] + english_tail) == parse_lines(
            head + seq![portuguese] + portuguese_tail,
        ),
{
    lemma_terminator_ends_table(head, english, english_tail);
    lemma_terminator_ends_table(head, portuguese, portuguese_tail);
}

/// The records come in the order of the rows. Where rows stand below a
/// header of two lines, and none of the first rows is a terminator, the
/// records of the first rows come first, and behind them the records that
/// the rows behind them give.
pub proof fn lemma_records_keep_row_order(
    header: Seq<Seq<char>>,
    front: Seq<Seq<char>>,
    back: Seq<Seq<char>>,
)
    requires
        header.len() == header_lines(),
        forall|k: int| 0 <= k < front.len() ==> !is_terminator(#[trigger] front[k]),
    ensures
        parse_lines(header + front) == records_of(front),
        parse_lines(header + front + back) == records_of(front) + parse_lines(header + back),
{
    let none = Seq::<Seq<char>>::empty();
    assert(below_header(header + front) =~= front);
    assert(below_header(header + back) =~= back);
    assert(below_header(header + front + back) =~= front + back);
    lemma_before_terminator_passes(front, none);
    assert(front + none =~= front);
    assert(front + before_terminator(none) =~= front);
    lemma_before_terminator_passes(front, back);
    lemma_records_of_concat(front, before_terminator(back));
}

/// One row gives one record or none: the record of its line.
pub proof fn lemma_records_of_row(row: Seq<char>)
    ensures
        records_of(seq![row]) == match parse_line(row) {
            Some(record) => seq![record],
            None => Seq::empty(),
        },
{
    Seq::lemma_filter_map_singleton(row, line_parser());
}

/// In a listing that is written as a text, a terminator line ends the
/// table: the text behind it adds nothing to the records.
pub proof fn lemma_terminator_ends_listing(table: Seq<char>, stop: Seq<char>, rest: Seq<char>)
    requires
        lines(table).len() >= header_lines(),
        is_terminator(stop),
        !stop.contains('\n'),
    ensures
        parse_output(table + seq!['\n'] + stop + seq!['\n'] + rest) == parse_output(table),
        parse_output(table + seq!['\n'] + stop) == parse_output(table),
{
    let feed = seq!['\n'];
    lemma_lines_of_line(stop);
    lemma_lines_concat(table, stop);
    lemma_lines_concat(table + feed + stop, rest);
    lemma_terminator_ends_table(lines(table), stop, lines(rest));
    lemma_terminator_ends_table(lines(table), stop, Seq::empty());
    assert(lines(table) + seq![stop] + Seq::<Seq<char>>::empty() =~= lines(table) + seq![stop]);
}

} // verus!
