//! Office conversions: XLSX to CSV (first worksheet only).
//!
//! The workbook is read by the caller; here its cells are written as CSV.
use vstd::prelude::*;

use crate::chars::{decimal, from_chars, map_chars, lemma_map_chars_step, push_all, push_decimal, to_chars};

verus! {

broadcast use vstd::string::group_string_axioms;

/// One worksheet cell. Cells whose text the spreadsheet library renders
/// (numbers with a fraction, dates, errors) arrive as `Text`.
#[derive(Debug)]
pub enum Cell {
    Empty,
    Text(String),
    Int(i64),
    Bool(bool),
}

/// The decimal representation of a signed integer.
pub open spec fn int_decimal(i: int) -> Seq<char> {
    if i < 0 {
        seq!['-'] + decimal((-i) as nat)
    } else {
        decimal(i as nat)
    }
}

/// The text of a cell before quoting.
pub open spec fn cell_text(c: Cell) -> Seq<char> {
    match c {
        Cell::Empty => Seq::empty(),
        Cell::Text(s) => s@,
        Cell::Int(i) => int_decimal(i as int),
        Cell::Bool(b) => if b {
            seq!['t', 'r', 'u', 'e']
        } else {
            seq!['f', 'a', 'l', 's', 'e']
        },
    }
}

/// A field must be quoted when it holds a separator, a quote or a line
/// break.
pub open spec fn must_quote(s: Seq<char>) -> bool {
    s.contains(',') || s.contains('"') || s.contains('\n') || s.contains('\r')
}

pub open spec fn double_quote(c: char) -> Seq<char> {
    if c == '"' {
        seq!['"', '"']
    } else {
        seq![c]
    }
}

/// A cell's text as a CSV field: as it is, or in quotes with its quotes
/// doubled.
pub open spec fn csv_field(s: Seq<char>) -> Seq<char> {
    if must_quote(s) {
        seq!['"'] + map_chars(s, |c: char| double_quote(c)) + seq!['"']
    } else {
        s
    }
}

/// The fields of a row separated by commas.
pub open spec fn csv_fields(cells: Seq<Cell>) -> Seq<char>
    decreases cells.len(),
{
    if cells.len() == 0 {
        Seq::empty()
    } else if cells.len() == 1 {
        csv_field(cell_text(cells[0]))
    } else {
        csv_fields(cells.drop_last()) + seq![','] + csv_field(cell_text(cells.last()))
    }
}

/// The CSV text of a sheet: each row's fields followed by a newline.
pub open spec fn csv_text(rows: Seq<Vec<Cell>>) -> Seq<char>
    decreases rows.len(),
{
    if rows.len() == 0 {
        Seq::empty()
    } else {
        csv_text(rows.drop_last()) + csv_fields(rows.last()@) + seq!['\n']
    }
}

/// Whether a cell's text must be quoted.
pub fn needs_quoting(s: &str) -> (r: bool)
    ensures
        r == must_quote(s@),
{
    let v = to_chars(s);
    let mut i: usize = 0;
    while i < v.len()
        invariant
            i <= v@.len(),
            v@ == s@,
            forall|j: int| 0 <= j < i ==> v@[j] != ',' && v@[j] != '"' && v@[j] != '\n' && v@[j]
                != '\r',
        decreases v.len() - i,
    {
        let c = v[i];
        if c == ',' || c == '"' || c == '\n' || c == '\r' {
            assert(s@[i as int] == c);
            return true;
        }
        i = i + 1;
    }
    false
}

fn push_cell_text(out: &mut Vec<char>, cell: &Cell)
    ensures
        final(out)@ == old(out)@ + cell_text(*cell),
{
    match cell {
        Cell::Empty => {
            assert(old(out)@ + Seq::<char>::empty() == old(out)@);
        },
        Cell::Text(s) => {
            let v = to_chars(s.as_str());
            push_all(out, &v);
        },
        Cell::Int(i) => {
            if *i < 0 {
                out.push('-');
                let m: u64 = (0i128 - *i as i128) as u64;
                push_decimal(out, m);
            } else {
                push_decimal(out, *i as u64);
            }
        },
        Cell::Bool(b) => {
            if *b {
                out.push('t');
                out.push('r');
                out.push('u');
                out.push('e');
            } else {
                out.push('f');
                out.push('a');
                out.push('l');
                out.push('s');
                out.push('e');
            }
        },
    }
}

/// Append one cell as a CSV field.
fn push_field(out: &mut Vec<char>, cell: &Cell)
    ensures
        final(out)@ == old(out)@ + csv_field(cell_text(*cell)),
{
    let mut raw: Vec<char> = Vec::new();
    push_cell_text(&mut raw, cell);
    assert(raw@ == cell_text(*cell));
    let s = from_chars(&raw);
    if needs_quoting(s.as_str()) {
        out.push('"');
        let mut i: usize = 0;
        let ghost start = out@;
        while i < raw.len()
            invariant
                i <= raw@.len(),
                out@ == start + map_chars(raw@.take(i as int), |c: char| double_quote(c)),
            decreases raw.len() - i,
        {
            proof {
                lemma_map_chars_step(raw@, |c: char| double_quote(c), i as int);
            }
            if raw[i] == '"' {
                out.push('"');
                out.push('"');
            } else {
                out.push(raw[i]);
            }
            i = i + 1;
        }
        assert(raw@.take(raw@.len() as int) == raw@);
        out.push('"');
    } else {
        push_all(out, &raw);
    }
}

/// The CSV text of the rows of a worksheet.
pub fn xlsx_to_csv(rows: &Vec<Vec<Cell>>) -> (r: String)
    ensures
        r@ == csv_text(rows@),
{
    let mut out: Vec<char> = Vec::new();
    let mut i: usize = 0;
    while i < rows.len()
        invariant
            i <= rows@.len(),
            out@ == csv_text(rows@.take(i as int)),
        decreases rows.len() - i,
    {
        let row = &rows[i];
        let mut j: usize = 0;
        let ghost start = out@;
        while j < row.len()
            invariant
                j <= row@.len(),
                out@ == start + csv_fields(row@.take(j as int)),
            decreases row.len() - j,
        {
            if j > 0 {
                out.push(',');
            }
            push_field(&mut out, &row[j]);
            assert(row@.take(j + 1).drop_last() == row@.take(j as int));
            j = j + 1;
        }
        assert(row@.take(row@.len() as int) == row@);
        out.push('\n');
        assert(rows@.take(i + 1).drop_last() == rows@.take(i as int));
        i = i + 1;
    }
    assert(rows@.take(rows@.len() as int) == rows@);
    from_chars(&out)
}

} // verus!
