//! The heap as a table of text, one row for each chunk, with the columns
//! chunk id, address, size in bytes and usage status, and a chunk as a line
//! of text. The text is made as lines of characters; showing them is left to
//! the caller.

use vstd::prelude::*;
use crate::chunk::{Chunk, ChunkView};
use crate::lemmas::{lemma_chunk_end, lemma_len_bound};
use crate::Heap;

verus! {

/// The number of columns.
pub const COLUMNS: usize = 4;

/// The room that a column has beyond its longest text.
pub const MARGIN: usize = 2;

/// One row of the table.
#[derive(Debug, Clone, Copy, PartialEq, Eq, Structural)]
pub struct Row {
    /// The chunk's place in the chain, counted from 1.
    pub id: usize,
    pub addr: usize,
    pub size: usize,
    pub in_use: bool,
}

/// The row of chunk `index` of a chain.
pub open spec fn row_of(c: ChunkView, index: int) -> Row {
    Row { id: (index + 1) as usize, addr: c.addr as usize, size: c.size() as usize, in_use: c.in_use }
}

/// The rows of a chain.
pub open spec fn rows_of(s: Seq<ChunkView>) -> Seq<Row> {
    Seq::new(s.len(), |i: int| row_of(s[i], i))
}

/// The character of a decimal digit.
pub open spec fn digit(d: nat) -> char {
    if d == 0 {
        '0'
    } else if d == 1 {
        '1'
    } else if d == 2 {
        '2'
    } else if d == 3 {
        '3'
    } else if d == 4 {
        '4'
    } else if d == 5 {
        '5'
    } else if d == 6 {
        '6'
    } else if d == 7 {
        '7'
    } else if d == 8 {
        '8'
    } else {
        '9'
    }
}

/// A number in decimal digits, without leading zeros.
pub open spec fn decimal_text(n: nat) -> Seq<char>
    decreases n,
{
    if n < 10 {
        seq![digit(n)]
    } else {
        decimal_text(n / 10).push(digit(n % 10))
    }
}

/// The header of a column.
pub open spec fn header_text(column: int) -> Seq<char> {
    if column == 0 {
        "Chunk ID"@
    } else if column == 1 {
        "Address"@
    } else if column == 2 {
        "Size (bytes)"@
    } else {
        "Usage Status"@
    }
}

/// The text that shows whether a chunk is in use.
pub open spec fn status_text(in_use: bool) -> Seq<char> {
    if in_use {
        "IN USE"@
    } else {
        "FREE"@
    }
}

/// The text in a cell of a row.
pub open spec fn cell_text(row: Row, column: int) -> Seq<char> {
    if column == 0 {
        decimal_text(row.id as nat)
    } else if column == 1 {
        decimal_text(row.addr as nat)
    } else if column == 2 {
        decimal_text(row.size as nat)
    } else {
        status_text(row.in_use)
    }
}

/// A column's width once it has seen a text of `len` characters: a text
/// that is longer than the column widens it to the text and the margin.
pub open spec fn widened(width: nat, len: nat) -> nat {
    if len > width {
        len + MARGIN as nat
    } else {
        width
    }
}

/// The width of a column: that of its header and the margin, widened by
/// the text of each row in turn.
pub open spec fn column_width(rows: Seq<Row>, column: int) -> nat
    decreases rows.len(),
{
    if rows.len() == 0 {
        header_text(column).len() + MARGIN as nat
    } else {
        widened(column_width(rows.drop_last(), column), cell_text(rows.last(), column).len())
    }
}

/// The blanks before and behind a text of `len` characters that is centred
/// in `width`: the odd blank goes behind. A text that is too long gets none.
pub open spec fn padding_of(width: nat, len: nat) -> (nat, nat) {
    if len > width {
        (0, 0)
    } else {
        (((width - len) / 2) as nat, ((width - len) - (width - len) / 2) as nat)
    }
}

/// The character `c`, `n` times.
pub open spec fn repeated(c: char, n: nat) -> Seq<char> {
    Seq::new(n, |i: int| c)
}

/// A text centred in `width` characters.
pub open spec fn centred(text: Seq<char>, width: nat) -> Seq<char> {
    repeated(' ', padding_of(width, text.len()).0) + text + repeated(
        ' ',
        padding_of(width, text.len()).1,
    )
}

/// The first `columns` columns of the line that rules off the rows of the
/// table: a `+` at each column's edge, and dashes between.
pub open spec fn rule(rows: Seq<Row>, columns: int) -> Seq<char>
    decreases columns,
{
    if columns <= 0 {
        seq!['+']
    } else {
        rule(rows, columns - 1) + repeated('-', column_width(rows, columns - 1)) + seq!['+']
    }
}

/// The text of a cell of the header line, or of the line of a row.
pub open spec fn line_text(row: Option<Row>, column: int) -> Seq<char> {
    match row {
        Some(r) => cell_text(r, column),
        None => header_text(column),
    }
}

/// The first `columns` columns of the header line, or of the line of a row:
/// a `|` at each column's edge, and the centred texts between.
pub open spec fn text_line(rows: Seq<Row>, row: Option<Row>, columns: int) -> Seq<char>
    decreases columns,
{
    if columns <= 0 {
        seq!['|']
    } else {
        text_line(rows, row, columns - 1) + centred(
            line_text(row, columns - 1),
            column_width(rows, columns - 1),
        ) + seq!['|']
    }
}

/// Line `i` of the table: a rule, the header line, a rule, and then for
/// each row its line and a rule.
pub open spec fn table_line(rows: Seq<Row>, i: int) -> Seq<char> {
    if i % 2 == 0 {
        rule(rows, COLUMNS as int)
    } else if i == 1 {
        text_line(rows, None, COLUMNS as int)
    } else {
        text_line(rows, Some(rows[(i - 3) / 2]), COLUMNS as int)
    }
}

/// The lines of the table.
pub open spec fn table(rows: Seq<Row>) -> Seq<Seq<char>> {
    Seq::new(3 + 2 * rows.len(), |i: int| table_line(rows, i))
}

/// A chunk in one line: where it starts and how many bytes it holds.
pub open spec fn chunk_text(c: ChunkView) -> Seq<char> {
    "Chunk [Address: "@ + decimal_text(c.addr) + "] ==> "@ + decimal_text(c.size()) + " bytes"@
}

/// A number has at least one digit, and at most one more than a tenth of
/// its value.
pub proof fn lemma_decimal_len(n: nat)
    ensures
        1 <= decimal_text(n).len() <= n / 10 + 1,
    decreases n,
{
    if n >= 10 {
        lemma_decimal_len(n / 10);
    }
}

/// A column starts as wide as its header with the margin, and no row makes
/// it narrower.
proof fn lemma_column_grows(rows: Seq<Row>, column: int)
    ensures
        header_text(column).len() + MARGIN <= column_width(rows, column),
        rows.len() > 0 ==> column_width(rows.drop_last(), column) <= column_width(rows, column),
    decreases rows.len(),
{
    if rows.len() > 0 {
        lemma_column_grows(rows.drop_last(), column);
    }
}

/// No text is longer than its column is wide, and no column is narrower
/// than its header with the margin.
pub proof fn lemma_column_holds(rows: Seq<Row>, column: int, i: int)
    requires
        0 <= i < rows.len(),
    ensures
        cell_text(rows[i], column).len() <= column_width(rows, column),
        header_text(column).len() + MARGIN <= column_width(rows, column),
    decreases rows.len(),
{
    lemma_column_grows(rows, column);
    if i < rows.len() - 1 {
        lemma_column_holds(rows.drop_last(), column, i);
    }
}

/// The header of a column.
pub fn header(column: usize) -> (text: &'static str)
    ensures
        text@ == header_text(column as int),
{
    if column == 0 {
        "Chunk ID"
    } else if column == 1 {
        "Address"
    } else if column == 2 {
        "Size (bytes)"
    } else {
        "Usage Status"
    }
}

/// The text that shows whether a chunk is in use.
pub fn status(in_use: bool) -> (text: &'static str)
    ensures
        text@ == status_text(in_use),
{
    if in_use {
        "IN USE"
    } else {
        "FREE"
    }
}

/// The characters of a text.
fn chars_of(text: &str) -> (chars: Vec<char>)
    ensures
        chars@ == text@,
{
    let len = text.unicode_len();
    let mut chars: Vec<char> = Vec::new();
    let mut i: usize = 0;
    while i < len
        invariant
            i <= len,
            len == text@.len(),
            chars@ == text@.subrange(0, i as int),
        decreases len - i,
    {
        chars.push(text.get_char(i));
        assert(chars@ =~= text@.subrange(0, i + 1));
        i += 1;
    }
    assert(chars@ =~= text@);
    chars
}

/// The character of the decimal digit `d`.
fn digit_char(d: usize) -> (c: char)
    requires
        d < 10,
    ensures
        c == digit(d as nat),
{
    if d == 0 {
        '0'
    } else if d == 1 {
        '1'
    } else if d == 2 {
        '2'
    } else if d == 3 {
        '3'
    } else if d == 4 {
        '4'
    } else if d == 5 {
        '5'
    } else if d == 6 {
        '6'
    } else if d == 7 {
        '7'
    } else if d == 8 {
        '8'
    } else {
        '9'
    }
}

/// A number in decimal digits.
pub fn decimal(n: usize) -> (text: Vec<char>)
    ensures
        text@ == decimal_text(n as nat),
{
    // the digits from the last to the first
    let mut reversed: Vec<char> = Vec::new();
    let mut rest = n;
    while rest >= 10
        invariant
            decimal_text(n as nat) == decimal_text(rest as nat) + reversed@.reverse(),
        decreases rest,
    {
        let ghost before = reversed@;
        reversed.push(digit_char(rest % 10));
        assert(decimal_text(rest as nat) + before.reverse() =~= decimal_text((rest / 10) as nat)
            + reversed@.reverse());
        rest = rest / 10;
    }
    let mut text: Vec<char> = Vec::new();
    text.push(digit_char(rest));
    while reversed.len() > 0
        invariant
            text@ + reversed@.reverse() == decimal_text(n as nat),
        decreases reversed@.len(),
    {
        let ghost before = reversed@;
        let ghost front = text@;
        let c = reversed.pop().unwrap();
        text.push(c);
        assert(front + before.reverse() =~= text@ + reversed@.reverse());
    }
    assert(text@ + reversed@.reverse() =~= text@);
    text
}

/// The text in a cell of a row.
pub fn cell(row: &Row, column: usize) -> (text: Vec<char>)
    ensures
        text@ == cell_text(*row, column as int),
{
    if column == 0 {
        decimal(row.id)
    } else if column == 1 {
        decimal(row.addr)
    } else if column == 2 {
        decimal(row.size)
    } else {
        chars_of(status(row.in_use))
    }
}

/// The width of a column of the table that holds `rows`.
pub fn width_of_column(rows: &Vec<Row>, column: usize) -> (width: usize)
    ensures
        width == column_width(rows@, column as int),
{
    proof {
        reveal_strlit("Chunk ID");
        reveal_strlit("Address");
        reveal_strlit("Size (bytes)");
        reveal_strlit("Usage Status");
        reveal_strlit("IN USE");
        reveal_strlit("FREE");
    }
    let mut width: usize = header(column).unicode_len() + MARGIN;
    let mut i: usize = 0;
    assert(rows@.subrange(0, 0) =~= Seq::<Row>::empty());
    while i < rows.len()
        invariant
            i <= rows@.len(),
            width == column_width(rows@.subrange(0, i as int), column as int),
            "IN USE"@.len() == 6,
            "FREE"@.len() == 4,
        decreases rows@.len() - i,
    {
        let len = cell(&rows[i], column).len();
        proof {
            assert(rows@.subrange(0, i + 1).drop_last() =~= rows@.subrange(0, i as int));
            lemma_decimal_len(rows@[i as int].id as nat);
            lemma_decimal_len(rows@[i as int].addr as nat);
            lemma_decimal_len(rows@[i as int].size as nat);
        }
        if len > width {
            width = len + MARGIN;
        }
        i += 1;
    }
    assert(rows@.subrange(0, i as int) =~= rows@);
    width
}

/// The blanks before and behind a text of `len` characters that is centred
/// in a column of `width` characters.
pub fn padding(width: usize, len: usize) -> (blanks: (usize, usize))
    ensures
        blanks.0 == padding_of(width as nat, len as nat).0,
        blanks.1 == padding_of(width as nat, len as nat).1,
        len <= width ==> blanks.0 + len + blanks.1 == width && blanks.0 <= blanks.1 <= blanks.0
            + 1,
{
    if len > width {
        (0, 0)
    } else {
        let room = width - len;
        (room / 2, room - room / 2)
    }
}

/// Puts the character `c` at the end of a line, `n` times.
fn push_repeated(line: &mut Vec<char>, c: char, n: usize)
    ensures
        final(line)@ == old(line)@ + repeated(c, n as nat),
{
    let mut i: usize = 0;
    assert(line@ =~= old(line)@ + repeated(c, 0));
    while i < n
        invariant
            i <= n,
            line@ == old(line)@ + repeated(c, i as nat),
        decreases n - i,
    {
        line.push(c);
        assert(line@ =~= old(line)@ + repeated(c, (i + 1) as nat));
        i += 1;
    }
}

/// Puts a text at the end of a line.
fn push_text(line: &mut Vec<char>, text: &Vec<char>)
    ensures
        final(line)@ == old(line)@ + text@,
{
    let mut i: usize = 0;
    assert(line@ =~= old(line)@ + text@.subrange(0, 0));
    while i < text.len()
        invariant
            i <= text@.len(),
            line@ == old(line)@ + text@.subrange(0, i as int),
        decreases text@.len() - i,
    {
        line.push(text[i]);
        assert(line@ =~= old(line)@ + text@.subrange(0, i + 1));
        i += 1;
    }
    assert(text@.subrange(0, i as int) =~= text@);
}

/// Puts a text at the end of a line, centred in `width` characters.
fn push_centred(line: &mut Vec<char>, text: &Vec<char>, width: usize)
    ensures
        final(line)@ == old(line)@ + centred(text@, width as nat),
{
    let blanks = padding(width, text.len());
    push_repeated(line, ' ', blanks.0);
    push_text(line, text);
    push_repeated(line, ' ', blanks.1);
    assert(line@ =~= old(line)@ + centred(text@, width as nat));
}

/// The line that rules off the rows of the table.
fn rule_line(rows: &Vec<Row>, widths: &Vec<usize>) -> (line: Vec<char>)
    requires
        widths@.len() == COLUMNS,
        forall|c: int| 0 <= c < COLUMNS ==> widths@[c] == column_width(rows@, c),
    ensures
        line@ == rule(rows@, COLUMNS as int),
{
    let mut line: Vec<char> = Vec::new();
    line.push('+');
    let mut c: usize = 0;
    assert(line@ =~= rule(rows@, 0));
    while c < COLUMNS
        invariant
            c <= COLUMNS,
            widths@.len() == COLUMNS,
            forall|k: int| 0 <= k < COLUMNS ==> widths@[k] == column_width(rows@, k),
            line@ == rule(rows@, c as int),
        decreases COLUMNS - c,
    {
        push_repeated(&mut line, '-', widths[c]);
        line.push('+');
        assert(line@ =~= rule(rows@, c + 1));
        c += 1;
    }
    line
}

/// The header line, or the line of a row.
fn line_of(rows: &Vec<Row>, widths: &Vec<usize>, row: Option<Row>) -> (line: Vec<char>)
    requires
        widths@.len() == COLUMNS,
        forall|c: int| 0 <= c < COLUMNS ==> widths@[c] == column_width(rows@, c),
    ensures
        line@ == text_line(rows@, row, COLUMNS as int),
{
    let mut line: Vec<char> = Vec::new();
    line.push('|');
    let mut c: usize = 0;
    assert(line@ =~= text_line(rows@, row, 0));
    while c < COLUMNS
        invariant
            c <= COLUMNS,
            widths@.len() == COLUMNS,
            forall|k: int| 0 <= k < COLUMNS ==> widths@[k] == column_width(rows@, k),
            line@ == text_line(rows@, row, c as int),
        decreases COLUMNS - c,
    {
        let text = match row {
            Some(r) => cell(&r, c),
            None => chars_of(header(c)),
        };
        push_centred(&mut line, &text, widths[c]);
        line.push('|');
        assert(line@ =~= text_line(rows@, row, c + 1));
        c += 1;
    }
    line
}

/// The table that holds `rows`, line by line.
pub fn render(rows: &Vec<Row>) -> (lines: Vec<Vec<char>>)
    ensures
        lines@.len() == table(rows@).len(),
        forall|i: int| 0 <= i < lines@.len() ==> (#[trigger] lines@[i])@ == table(rows@)[i],
{
    let mut widths: Vec<usize> = Vec::new();
    let mut c: usize = 0;
    while c < COLUMNS
        invariant
            c <= COLUMNS,
            widths@.len() == c,
            forall|k: int| 0 <= k < c ==> widths@[k] == column_width(rows@, k),
        decreases COLUMNS - c,
    {
        widths.push(width_of_column(rows, c));
        c += 1;
    }
    let mut lines: Vec<Vec<char>> = Vec::new();
    lines.push(rule_line(rows, &widths));
    lines.push(line_of(rows, &widths, None));
    lines.push(rule_line(rows, &widths));
    let mut i: usize = 0;
    while i < rows.len()
        invariant
            i <= rows@.len(),
            widths@.len() == COLUMNS,
            forall|k: int| 0 <= k < COLUMNS ==> widths@[k] == column_width(rows@, k),
            lines@.len() == 3 + 2 * i,
            forall|k: int|
                0 <= k < lines@.len() ==> (#[trigger] lines@[k])@ == table_line(rows@, k),
        decreases rows@.len() - i,
    {
        lines.push(line_of(rows, &widths, Some(rows[i])));
        lines.push(rule_line(rows, &widths));
        i += 1;
    }
    lines
}

/// A chunk in one line.
pub fn chunk_line(c: &Chunk) -> (line: Vec<char>)
    ensures
        line@ == chunk_text(c@),
{
    let mut line = chars_of("Chunk [Address: ");
    push_text(&mut line, &decimal(c.addr()));
    push_text(&mut line, &chars_of("] ==> "));
    push_text(&mut line, &decimal(c.size()));
    push_text(&mut line, &chars_of(" bytes"));
    line
}

impl Heap {
    /// The table's rows: for each chunk, in address order, its id, its
    /// address, its size and whether it is in use.
    pub fn rows(&self) -> (rows: Vec<Row>)
        requires
            self.wf(),
        ensures
            rows@ == rows_of(self@),
    {
        let mut rows: Vec<Row> = Vec::new();
        let mut i: usize = 0;
        proof {
            lemma_len_bound(self@);
        }
        loop
            invariant
                self.wf(),
                self@.len() <= isize::MAX,
                i <= self@.len(),
                rows@ == rows_of(self@).subrange(0, i as int),
            decreases self@.len() - i,
        {
            match self.chunk(i) {
                None => {
                    assert(rows_of(self@).subrange(0, i as int) =~= rows_of(self@));
                    return rows;
                },
                Some(c) => {
                    proof {
                        lemma_chunk_end(self@, i as int);
                    }
                    rows.push(Row { id: i + 1, addr: c.addr(), size: c.size(), in_use: c.in_use() });
                    assert(rows@ =~= rows_of(self@).subrange(0, i + 1));
                    i += 1;
                },
            }
        }
    }
}

} // verus!
