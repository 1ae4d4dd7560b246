//! The pattern format: one row per line, `#` for a live cell and `_` for a
//! dead one, every other character skipped, the first empty line the end.

use crate::grid::{binary, defect, table_of, Grid, MalformedInputError};
use vstd::prelude::*;
use vstd::std_specs::iter::IteratorSpec;

verus! {

/// The length of the first line of `text`: the number of characters before
/// its first line feed, or all of them where it has none.
pub open spec fn line_end(text: Seq<char>) -> nat
    decreases text.len(),
{
    if text.len() == 0 || text[0] == '\n' {
        0
    } else {
        1 + line_end(text.drop_first())
    }
}

/// The first line of `text` without its line ending: a line feed, or a
/// carriage return and a line feed. A carriage return that no line feed
/// follows belongs to the line.
pub open spec fn first_line(text: Seq<char>) -> Seq<char> {
    let end = line_end(text) as int;
    if end < text.len() && end > 0 && text[end - 1] == '\r' {
        text.take(end - 1)
    } else {
        text.take(end)
    }
}

/// What follows the first line of `text` and its line ending.
pub open spec fn after_first_line(text: Seq<char>) -> Seq<char> {
    let end = line_end(text) as int;
    if end < text.len() {
        text.skip(end + 1)
    } else {
        Seq::empty()
    }
}

/// The cells that a line stands for: 1 for each `#` and 0 for each `_`, in
/// their order; every other character adds nothing.
pub open spec fn cells_of(line: Seq<char>) -> Seq<u8>
    decreases line.len(),
{
    if line.len() == 0 {
        Seq::empty()
    } else if line.last() == '#' {
        cells_of(line.drop_last()).push(1u8)
    } else if line.last() == '_' {
        cells_of(line.drop_last()).push(0u8)
    } else {
        cells_of(line.drop_last())
    }
}

/// The rows that a text stands for: the cells of each of its lines, up to
/// and without the first empty line.
pub open spec fn parsed_rows(text: Seq<char>) -> Seq<Seq<u8>>
    decreases text.len(),
{
    if text.len() == 0 || first_line(text).len() == 0 {
        Seq::empty()
    } else {
        seq![cells_of(first_line(text))] + parsed_rows(after_first_line(text))
    }
}

/// The first line ends at `end` where no line feed stands before `end` and
/// one stands there, or the text ends there.
pub proof fn lemma_line_end_found(text: Seq<char>, end: int)
    requires
        0 <= end <= text.len(),
        forall|i: int| 0 <= i < end ==> text[i] != '\n',
        end == text.len() || text[end] == '\n',
    ensures
        line_end(text) == end,
    decreases end,
{
    if end > 0 {
        lemma_line_end_found(text.drop_first(), end - 1);
    }
}

/// The first line ends inside the text or at its end, at a line feed if
/// inside, and holds no line feed.
pub proof fn lemma_line_end_bounds(text: Seq<char>)
    ensures
        line_end(text) <= text.len(),
        line_end(text) < text.len() ==> text[line_end(text) as int] == '\n',
        forall|i: int| 0 <= i < line_end(text) ==> text[i] != '\n',
    decreases text.len(),
{
    if !(text.len() == 0 || text[0] == '\n') {
        lemma_line_end_bounds(text.drop_first());
        assert forall|i: int| 0 <= i < line_end(text) implies text[i] != '\n' by {
            if i > 0 {
                assert(text[i] == text.drop_first()[i - 1]);
            }
        }
    }
}

/// A line gives only cells that are 0 or 1.
pub proof fn lemma_cells_binary(line: Seq<char>)
    ensures
        forall|c: int| 0 <= c < cells_of(line).len() ==> (#[trigger] cells_of(line)[c]) <= 1,
    decreases line.len(),
{
    if line.len() > 0 {
        let shorter = cells_of(line.drop_last());
        lemma_cells_binary(line.drop_last());
        assert forall|c: int| 0 <= c < cells_of(line).len() implies (#[trigger] cells_of(
            line,
        )[c]) <= 1 by {
            if c < shorter.len() {
                assert(cells_of(line)[c] == shorter[c]);
            }
        }
    }
}

/// A text gives only cells that are 0 or 1.
pub proof fn lemma_parsed_rows_binary(text: Seq<char>)
    ensures
        binary(parsed_rows(text)),
    decreases text.len(),
{
    if !(text.len() == 0 || first_line(text).len() == 0) {
        lemma_line_end_bounds(text);
        lemma_parsed_rows_binary(after_first_line(text));
        lemma_cells_binary(first_line(text));
    }
}

/// A line is made of the two cell symbols alone.
pub open spec fn only_symbols(line: Seq<char>) -> bool {
    forall|c: int| 0 <= c < line.len() ==> (#[trigger] line[c]) == '#' || line[c] == '_'
}

/// The text that holds the given lines in their order, with a line feed
/// between two of them, and one after the last where `final_newline` says so.
pub open spec fn text_of_lines(lines: Seq<Seq<char>>, final_newline: bool) -> Seq<char>
    decreases lines.len(),
{
    if lines.len() == 0 {
        Seq::empty()
    } else if lines.len() == 1 {
        if final_newline {
            lines[0].push('\n')
        } else {
            lines[0]
        }
    } else {
        lines[0].push('\n') + text_of_lines(lines.drop_first(), final_newline)
    }
}

/// The cells that the lines show, position by position: 1 for `#`, else 0.
pub open spec fn picture(lines: Seq<Seq<char>>) -> Seq<Seq<u8>> {
    Seq::new(
        lines.len(),
        |r: int|
            Seq::new(
                lines[r].len(),
                |c: int|
                    if lines[r][c] == '#' {
                        1u8
                    } else {
                        0u8
                    },
            ),
    )
}

/// A line of cell symbols alone gives one cell for each of them, in place.
pub proof fn lemma_cells_of_symbols(line: Seq<char>)
    requires
        only_symbols(line),
    ensures
        cells_of(line) == picture(seq![line])[0],
    decreases line.len(),
{
    if line.len() > 0 {
        lemma_cells_of_symbols(line.drop_last());
        assert(picture(seq![line.drop_last()])[0] =~= picture(seq![line])[0].drop_last());
    }
    assert(cells_of(line) =~= picture(seq![line])[0]);
}

/// Lines that are not empty and hold the two cell symbols alone are read
/// back exactly: the text made of them gives one row for each line and one
/// cell for each symbol, 1 for `#` and 0 for `_`.
pub proof fn lemma_parse_lines_of_symbols(lines: Seq<Seq<char>>, final_newline: bool)
    requires
        forall|r: int| 0 <= r < lines.len() ==> (#[trigger] lines[r]).len() >= 1,
        forall|r: int| 0 <= r < lines.len() ==> only_symbols(#[trigger] lines[r]),
    ensures
        parsed_rows(text_of_lines(lines, final_newline)) == picture(lines),
    decreases lines.len(),
{
    let text = text_of_lines(lines, final_newline);
    if lines.len() == 0 {
        assert(picture(lines) =~= Seq::<Seq<u8>>::empty());
    } else {
        let line = lines[0];
        let others = lines.drop_first();
        assert(only_symbols(line));
        assert(forall|i: int| 0 <= i < line.len() ==> text[i] == line[i]);
        assert forall|i: int| 0 <= i < line.len() implies text[i] != '\n' by {
            assert(line[i] == '#' || line[i] == '_');
        }
        lemma_line_end_found(text, line.len() as int);
        if line.len() < text.len() {
            assert(text[line.len() - 1] == line[line.len() - 1]);
        }
        assert(first_line(text) =~= line);
        lemma_cells_of_symbols(line);
        assert forall|r: int| 0 <= r < others.len() implies (#[trigger] others[r]).len() >= 1
            && only_symbols(others[r]) by {
            assert(others[r] == lines[r + 1]);
        }
        lemma_parse_lines_of_symbols(others, final_newline);
        if lines.len() == 1 {
            assert(others =~= Seq::<Seq<char>>::empty());
            assert(after_first_line(text) =~= Seq::<char>::empty());
        } else {
            assert(after_first_line(text) =~= text_of_lines(others, final_newline));
        }
        assert(picture(seq![line])[0] =~= picture(lines)[0]);
        assert forall|r: int| 0 <= r < others.len() implies picture(others)[r] == picture(
            lines,
        )[r + 1] by {
            assert(others[r] == lines[r + 1]);
            assert(picture(others)[r] =~= picture(lines)[r + 1]);
        }
        assert(picture(lines) =~= seq![picture(lines)[0]] + picture(others));
    }
}

/// A well-formed text is read as the grid that it shows: where there is at
/// least one line, the lines are equally long and not empty, and they hold
/// the two cell symbols alone, the rows have no defect and mirror the text
/// position by position, `#` as 1 and `_` as 0.
pub proof fn lemma_parse_well_formed_text(
    lines: Seq<Seq<char>>,
    width: nat,
    final_newline: bool,
)
    requires
        lines.len() >= 1,
        width >= 1,
        forall|r: int| 0 <= r < lines.len() ==> (#[trigger] lines[r]).len() == width,
        forall|r: int| 0 <= r < lines.len() ==> only_symbols(#[trigger] lines[r]),
    ensures
        parsed_rows(text_of_lines(lines, final_newline)) == picture(lines),
        defect(picture(lines)) is None,
        picture(lines).len() == lines.len(),
        forall|r: int| 0 <= r < lines.len() ==> (#[trigger] picture(lines)[r]).len() == width,
        forall|r: int, c: int|
            0 <= r < lines.len() && 0 <= c < width ==> (#[trigger] picture(lines)[r][c]) == (if lines[r][c]
                == '#' {
                1u8
            } else {
                0u8
            }),
{
    lemma_parse_lines_of_symbols(lines, final_newline);
    assert(lines[0].len() == width);
}

/// Nothing after the first empty line is read: where `before` is made of
/// whole lines (it is empty or ends in a line feed) and an empty line
/// follows it, ended by a line feed alone or by a carriage return and a line
/// feed, the rows are those of `before`, whatever stands in `after`.
pub proof fn lemma_parse_stops_at_empty_line(
    before: Seq<char>,
    carriage_return: bool,
    after: Seq<char>,
)
    requires
        before.len() == 0 || before.last() == '\n',
    ensures
        parsed_rows(
            before + (if carriage_return {
                seq!['\r', '\n']
            } else {
                seq!['\n']
            }) + after,
        ) == parsed_rows(before),
    decreases before.len(),
{
    let blank = if carriage_return {
        seq!['\r', '\n']
    } else {
        seq!['\n']
    };
    let text = before + blank + after;
    if before.len() == 0 {
        if carriage_return {
            assert(text[0] == '\r' && text[1] == '\n');
            lemma_line_end_found(text, 1);
        } else {
            assert(text[0] == '\n');
            lemma_line_end_found(text, 0);
        }
        assert(first_line(text).len() == 0);
    } else {
        lemma_line_end_bounds(before);
        let end = line_end(before) as int;
        assert(end < before.len()) by {
            if end == before.len() {
                assert(before[before.len() - 1] != '\n');
            }
        }
        assert(forall|i: int| 0 <= i < before.len() ==> text[i] == before[i]);
        lemma_line_end_found(text, end);
        assert(first_line(text) =~= first_line(before));
        let rest = after_first_line(before);
        assert(rest =~= before.skip(end + 1));
        assert(after_first_line(text) =~= rest + blank + after);
        if rest.len() > 0 {
            assert(rest.last() == before.last());
        }
        lemma_parse_stops_at_empty_line(rest, carriage_return, after);
    }
}

/// Reads a pattern from its characters. The result is the grid of the rows
/// that the text stands for, or the first defect of those rows: no rows,
/// rows of different lengths, or rows without a cell.
pub fn parse_chars(text: &[char]) -> (result: Result<Grid, MalformedInputError>)
    ensures
        match result {
            Ok(grid) => defect(parsed_rows(text@)) is None && grid@ == parsed_rows(text@)
                && grid.wf(),
            Err(e) => defect(parsed_rows(text@)) == Some(e),
        },
        result != Err::<Grid, MalformedInputError>(MalformedInputError::InvalidCell),
{
    let len = text.len();
    let mut rows: Vec<Vec<u8>> = Vec::new();
    let mut from: usize = 0;
    let mut done = false;
    assert(text@.skip(0) =~= text@);
    assert(table_of(rows@) + parsed_rows(text@) =~= parsed_rows(text@));
    while !done
        invariant
            len == text@.len(),
            from <= len,
            done ==> parsed_rows(text@) == table_of(rows@),
            !done ==> parsed_rows(text@) == table_of(rows@) + parsed_rows(text@.skip(from as int)),
        decreases len - from + if done { 0int } else { 1int },
    {
        let ghost rest = text@.skip(from as int);
        let mut end = from;
        while end < len && text[end] != '\n'
            invariant
                len == text@.len(),
                from <= end <= len,
                forall|i: int| from <= i < end ==> text@[i] != '\n',
            decreases len - end,
        {
            end += 1;
        }
        proof {
            lemma_line_end_found(rest, end - from);
        }
        let stop = if end < len && from < end && text[end - 1] == '\r' {
            end - 1
        } else {
            end
        };
        assert(first_line(rest) =~= text@.subrange(from as int, stop as int));
        if stop == from {
            done = true;
        } else {
            let mut row: Vec<u8> = Vec::new();
            let mut i = from;
            while i < stop
                invariant
                    len == text@.len(),
                    from <= i <= stop <= len,
                    row@ == cells_of(text@.subrange(from as int, i as int)),
                decreases stop - i,
            {
                let ghost before = text@.subrange(from as int, i as int);
                let ghost with_next = text@.subrange(from as int, i + 1);
                assert(with_next.drop_last() =~= before);
                assert(with_next.last() == text@[i as int]);
                if text[i] == '#' {
                    row.push(1);
                } else if text[i] == '_' {
                    row.push(0);
                }
                i += 1;
            }
            let ghost old_rows = rows@;
            rows.push(row);
            assert(table_of(rows@) =~= table_of(old_rows) + seq![cells_of(first_line(rest))]);
            if end < len {
                assert(after_first_line(rest) =~= text@.skip(end + 1));
                from = end + 1;
            } else {
                assert(after_first_line(rest) =~= text@.skip(len as int));
                from = len;
                done = true;
            }
            assert(parsed_rows(rest) == seq![cells_of(first_line(rest))] + parsed_rows(
                after_first_line(rest),
            ));
            assert(parsed_rows(text@) =~= table_of(rows@) + parsed_rows(after_first_line(rest)));
        }
    }
    proof {
        lemma_parsed_rows_binary(text@);
    }
    Grid::from_rows(rows)
}

/// The characters of a text, in their order.
pub fn chars_of(text: &str) -> (chars: Vec<char>)
    ensures
        chars@ == text@,
{
    broadcast use vstd::string::group_string_axioms;

    let mut chars: Vec<char> = Vec::new();
    let mut rest = text.chars();
    loop
        invariant
            rest.obeys_prophetic_iter_laws(),
            rest.decrease() is Some,
            chars@ + rest.remaining() == text@,
        ensures
            chars@ == text@,
        decreases rest.decrease()->0,
    {
        match rest.next() {
            Some(c) => {
                chars.push(c);
                assert(chars@ + rest.remaining() =~= text@);
            },
            None => {
                assert(chars@ + rest.remaining() =~= chars@);
                break ;
            },
        }
    }
    chars
}

/// Reads a pattern from a text. The result is the grid of the rows that the
/// text stands for, or the first defect of those rows: no rows, rows of
/// different lengths, or rows without a cell. Rows of different lengths are
/// rejected, not kept: a skipped character may have shortened one of them.
pub fn parse(text: &str) -> (result: Result<Grid, MalformedInputError>)
    ensures
        match result {
            Ok(grid) => defect(parsed_rows(text@)) is None && grid@ == parsed_rows(text@)
                && grid.wf(),
            Err(e) => defect(parsed_rows(text@)) == Some(e),
        },
        result != Err::<Grid, MalformedInputError>(MalformedInputError::InvalidCell),
{
    let chars = chars_of(text);
    parse_chars(chars.as_slice())
}

} // verus!
