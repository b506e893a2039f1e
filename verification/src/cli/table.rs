//! CSV documents.

use crate::cli::CliResult;
use crate::text::texts;
use vstd::prelude::*;

verus! {

/// Whether a character makes a field need quotes.
pub open spec fn is_special(c: char) -> bool {
    c == ',' || c == '"' || c == '\r' || c == '\n'
}

/// A text with every quote doubled.
pub open spec fn quotes_doubled(text: Seq<char>) -> Seq<char>
    decreases text.len(),
{
    if text.len() == 0 {
        Seq::empty()
    } else if text.last() == '"' {
        quotes_doubled(text.drop_last()) + seq!['"', '"']
    } else {
        quotes_doubled(text.drop_last()).push(text.last())
    }
}

/// A field as it stands in a line: in quotes if it holds a comma, a quote or a line
/// break, else as it is.
pub open spec fn csv_field(text: Seq<char>) -> Seq<char> {
    if exists|i: int| 0 <= i < text.len() && is_special(#[trigger] text[i]) {
        seq!['"'] + quotes_doubled(text) + seq!['"']
    } else {
        text
    }
}

/// Fields with commas between them.
pub open spec fn csv_fields(fields: Seq<Seq<char>>) -> Seq<char>
    decreases fields.len(),
{
    if fields.len() == 0 {
        Seq::empty()
    } else if fields.len() == 1 {
        csv_field(fields[0])
    } else {
        csv_fields(fields.drop_last()).push(',') + csv_field(fields.last())
    }
}

/// The line of a record, with its line break. A record that would leave the line empty
/// is written as a pair of quotes.
pub open spec fn csv_line(fields: Seq<Seq<char>>) -> Seq<char> {
    if csv_fields(fields).len() == 0 {
        seq!['"', '"', '\n']
    } else {
        csv_fields(fields).push('\n')
    }
}

/// Calls `csv::Writer::write_record` on a writer of its own with the default
/// configuration and takes what was written.
///
/// The default configuration separates fields by commas and ends the record with a line
/// feed. A field that holds a comma, a quote, a carriage return or a line feed stands in
/// quotes with its own quotes doubled; every other field stands as it is. If nothing was
/// written for the record, a pair of quotes stands for it. Writing succeeds: the record
/// is the first of its writer, so no other record fixes its length, the bytes go to a
/// vector, and fields that are text make a line that is text.
#[verifier::external_body]
fn write_line(fields: &Vec<String>) -> (line: Option<String>)
    ensures
        line is Some,
        line->0@ == csv_line(texts(fields@)),
{
    let mut writer = csv::Writer::from_writer(Vec::new());
    writer.write_record(fields).ok()?;
    String::from_utf8(writer.into_inner().ok()?).ok()
}

/// Texts of rows.
pub open spec fn row_texts(rows: Seq<Vec<String>>) -> Seq<Seq<Seq<char>>> {
    rows.map_values(|row: Vec<String>| texts(row@))
}

/// Lines of the first `count` rows.
pub open spec fn lines_first(rows: Seq<Seq<Seq<char>>>, count: int) -> Seq<char>
    decreases count,
{
    if count <= 0 {
        Seq::empty()
    } else {
        lines_first(rows, count - 1) + csv_line(rows[count - 1])
    }
}

/// A document: the header and the rows, or nothing if there are no rows.
pub open spec fn csv_document(header: Seq<Seq<char>>, rows: Seq<Seq<Seq<char>>>) -> Seq<char> {
    if rows.len() == 0 {
        Seq::empty()
    } else {
        csv_line(header) + lines_first(rows, rows.len() as int)
    }
}

/// Writes a CSV document. Every row has a field for each column.
pub fn csv_string(header: &Vec<String>, rows: &Vec<Vec<String>>) -> (result: CliResult<String>)
    requires
        forall|i: int| 0 <= i < rows@.len() ==> (#[trigger] rows@[i])@.len() == header@.len(),
    ensures
        result matches Ok(document) && document@ == csv_document(
            texts(header@),
            row_texts(rows@),
        ),
{
    if rows.len() == 0 {
        return Ok(String::new());
    }
    let head = match write_line(header) {
        Some(line) => line,
        None => return Err(String::from_str("failed to write CSV header")),
    };
    let mut body = String::new();
    let mut i: usize = 0;
    assert(body@ =~= Seq::<char>::empty());
    while i < rows.len()
        invariant
            i <= rows@.len(),
            body@ == lines_first(row_texts(rows@), i as int),
        decreases rows@.len() - i,
    {
        match write_line(&rows[i]) {
            Some(line) => body.append(line.as_str()),
            None => return Err(String::from_str("failed to write CSV record")),
        }
        i += 1;
    }
    let mut document = head;
    document.append(body.as_str());
    Ok(document)
}

/// Doubling quotes goes character by character: a quote becomes two, anything else stays,
/// and what is doubled in two parts is doubled as a whole.
pub proof fn law_quotes_are_doubled(a: Seq<char>, b: Seq<char>, c: char)
    ensures
        quotes_doubled(Seq::empty()) == Seq::<char>::empty(),
        quotes_doubled(seq![c]) == if c == '"' {
            seq!['"', '"']
        } else {
            seq![c]
        },
        quotes_doubled(a + b) == quotes_doubled(a) + quotes_doubled(b),
    decreases b.len(),
{
    assert(seq![c].drop_last() =~= Seq::<char>::empty());
    assert(seq![c].last() == c);
    assert(quotes_doubled(Seq::<char>::empty()) =~= Seq::<char>::empty());
    assert(Seq::<char>::empty() + seq!['"', '"'] =~= seq!['"', '"']);
    assert(Seq::<char>::empty().push(c) =~= seq![c]);
    if b.len() == 0 {
        assert(a + b =~= a);
        assert(quotes_doubled(b) =~= Seq::<char>::empty());
        assert(quotes_doubled(a) + Seq::<char>::empty() =~= quotes_doubled(a));
    } else {
        law_quotes_are_doubled(a, b.drop_last(), c);
        assert((a + b).drop_last() =~= a + b.drop_last());
        assert((a + b).last() == b.last());
        let whole = quotes_doubled(a) + quotes_doubled(b.drop_last());
        assert(whole + seq!['"', '"'] =~= quotes_doubled(a) + (quotes_doubled(b.drop_last())
            + seq!['"', '"']));
        assert(whole.push(b.last()) =~= quotes_doubled(a) + quotes_doubled(b.drop_last()).push(
            b.last(),
        ));
    }
}

/// A field is put in quotes exactly when it holds a comma, a quote, or a line break; the
/// quotes inside are doubled. Other fields are written as they are.
pub proof fn law_fields_are_quoted_where_needed(text: Seq<char>)
    ensures
        if text.contains(',') || text.contains('"') || text.contains('\r') || text.contains('\n') {
            csv_field(text) == seq!['"'] + quotes_doubled(text) + seq!['"']
        } else {
            csv_field(text) == text
        },
{
    if exists|i: int| 0 <= i < text.len() && is_special(#[trigger] text[i]) {
        let i = choose|i: int| 0 <= i < text.len() && is_special(#[trigger] text[i]);
        assert(text.contains(text[i]));
    } else {
        assert forall|i: int| 0 <= i < text.len() implies #[trigger] text[i] != ',' && text[i]
            != '"' && text[i] != '\r' && text[i] != '\n' by {
            assert(!is_special(text[i]));
        }
    }
}

/// A line holds its fields in order with a comma before each but the first, and ends with
/// a line feed. A line that would be empty is a pair of quotes.
pub proof fn law_lines_hold_their_fields(fields: Seq<Seq<char>>, field: Seq<char>)
    ensures
        csv_fields(seq![field]) == csv_field(field),
        fields.len() > 0 ==> csv_fields(fields.push(field)) == csv_fields(fields) + seq![',']
            + csv_field(field),
        csv_fields(fields).len() > 0 ==> csv_line(fields) == csv_fields(fields) + seq!['\n'],
        csv_fields(fields).len() == 0 ==> csv_line(fields) == seq!['"', '"', '\n'],
{
    assert(seq![field][0] == field);
    assert(fields.push(field).drop_last() =~= fields);
    assert(fields.push(field).last() == field);
    assert(csv_fields(fields).push(',') =~= csv_fields(fields) + seq![',']);
    assert(csv_fields(fields).push('\n') =~= csv_fields(fields) + seq!['\n']);
}

/// A document is its header and its rows, line by line; without rows it is empty.
pub proof fn law_documents_grow_by_lines(
    header: Seq<Seq<char>>,
    rows: Seq<Seq<Seq<char>>>,
    row: Seq<Seq<char>>,
)
    ensures
        csv_document(header, Seq::empty()) == Seq::<char>::empty(),
        csv_document(header, seq![row]) == csv_line(header) + csv_line(row),
        rows.len() > 0 ==> csv_document(header, rows.push(row)) == csv_document(header, rows)
            + csv_line(row),
{
    assert(lines_first(seq![row], 0) =~= Seq::<char>::empty());
    assert(lines_first(seq![row], 1) =~= csv_line(seq![row][0]));
    assert(seq![row][0] == row);
    lemma_same_lines(rows.push(row), rows, rows.len() as int);
    assert(csv_line(header) + (lines_first(rows, rows.len() as int) + csv_line(row)) =~= csv_line(
        header,
    ) + lines_first(rows, rows.len() as int) + csv_line(row));
}

proof fn lemma_same_lines(a: Seq<Seq<Seq<char>>>, b: Seq<Seq<Seq<char>>>, count: int)
    requires
        count <= a.len(),
        count <= b.len(),
        forall|i: int| 0 <= i < count ==> #[trigger] a[i] == b[i],
    ensures
        lines_first(a, count) == lines_first(b, count),
    decreases count,
{
    if count > 0 {
        lemma_same_lines(a, b, count - 1);
        assert(a[count - 1] == b[count - 1]);
    }
}

/// Rows are read field by field.
pub proof fn law_rows_are_read_field_by_field(rows: Seq<Vec<String>>, r: int, c: int)
    requires
        0 <= r < rows.len(),
        0 <= c < rows[r]@.len(),
    ensures
        row_texts(rows).len() == rows.len(),
        row_texts(rows)[r].len() == rows[r]@.len(),
        row_texts(rows)[r][c] == rows[r]@[c]@,
{
}

} // verus!
