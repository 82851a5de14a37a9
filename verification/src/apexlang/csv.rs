//! The CSV form of ApexLang values used by `serde.to_csv` and
//! `serde.from_csv`: rows on lines, cells split at commas, each cell read
//! as an integer, a float, a boolean or else text.

use vstd::prelude::*;
use crate::apexlang::ast::{value_text, value_v, Value, ValueV};
use crate::apexlang::xml::{float_literal, is_float_literal};
use crate::forge::math::{big_parse, bigint_text_value, radix_text};
use crate::text::{
    whitespace, chars_of, drop_whitespace, find_between, first_index_of, push_char, skip_whitespace,
    str_equal, string_of, trim_end_ws, trim_start_ws, trim_ws,
};

verus! {

/// How a cell is written before quoting.
pub open spec fn cell_rendered(v: ValueV) -> Seq<char> {
    match v {
        ValueV::Int(t) => t,
        ValueV::Number(t) => t,
        ValueV::Bool(b) => if b { "true"@ } else { "false"@ },
        ValueV::Str(t) => t,
        ValueV::Tuple(items) => joined_texts(items),
    }
}

/// The shown items of a tuple joined by `|`.
pub open spec fn joined_texts(items: Seq<ValueV>) -> Seq<char>
    decreases items.len(),
{
    if items.len() == 0 {
        Seq::empty()
    } else if items.len() == 1 {
        value_text(items[0])
    } else {
        joined_texts(items.drop_last()) + "|"@ + value_text(items.last())
    }
}

/// Text with each quote doubled.
pub open spec fn doubled_quotes(t: Seq<char>) -> Seq<char>
    decreases t.len(),
{
    if t.len() == 0 {
        Seq::empty()
    } else {
        doubled_quotes(t.drop_last()) + if t.last() == '"' { seq!['"', '"'] } else { seq![t.last()] }
    }
}

/// A cell as written: quoted, with quotes doubled, when it holds a comma,
/// a line break or a quote.
pub open spec fn cell_text(v: ValueV) -> Seq<char> {
    let r = cell_rendered(v);
    if needs_quotes(r) {
        seq!['"'] + doubled_quotes(r) + seq!['"']
    } else {
        r
    }
}

/// Whether a comma, a line break or a quote occurs in text.
pub open spec fn special_at(r: Seq<char>, i: int) -> bool {
    r[i] == ',' || r[i] == '\n' || r[i] == '"'
}

/// Whether text holds a comma, a line break or a quote.
pub open spec fn needs_quotes(r: Seq<char>) -> bool {
    exists|i: int| 0 <= i < r.len() && #[trigger] special_at(r, i)
}

/// The cells of a row joined by commas.
pub open spec fn row_text(cells: Seq<ValueV>) -> Seq<char>
    decreases cells.len(),
{
    if cells.len() == 0 {
        Seq::empty()
    } else if cells.len() == 1 {
        cell_text(cells[0])
    } else {
        row_text(cells.drop_last()) + ","@ + cell_text(cells.last())
    }
}

/// The cells of a row: a tuple's items, or the value alone.
pub open spec fn row_cells(v: ValueV) -> Seq<ValueV> {
    match v {
        ValueV::Tuple(items) => items,
        _ => seq![v],
    }
}

/// The rows joined by line breaks.
pub open spec fn rows_text(rows: Seq<ValueV>) -> Seq<char>
    decreases rows.len(),
{
    if rows.len() == 0 {
        Seq::empty()
    } else if rows.len() == 1 {
        row_text(row_cells(rows[0]))
    } else {
        rows_text(rows.drop_last()) + "\n"@ + row_text(row_cells(rows.last()))
    }
}

/// The CSV of a value: a tuple's items as rows, any other value as one
/// cell.
pub open spec fn csv_text(v: ValueV) -> Seq<char> {
    match v {
        ValueV::Tuple(rows) => rows_text(rows),
        _ => cell_text(v),
    }
}

fn append_cell(out: &mut String, v: &Value)
    ensures
        final(out)@ == old(out)@ + cell_text(value_v(*v)),
{
    let rendered: String = match v {
        Value::Int(t) => t.clone(),
        Value::Number(t) => t.clone(),
        Value::Bool(b) => String::from_str(if *b { "true" } else { "false" }),
        Value::String(t) => t.clone(),
        Value::Tuple(items) => {
            let ghost iv = match value_v(*v) {
                ValueV::Tuple(x) => x,
                _ => Seq::empty(),
            };
            let mut s = String::new();
            let mut i: usize = 0;
            assert(iv.take(0) =~= Seq::<ValueV>::empty());
            while i < items.len()
                invariant
                    i <= items@.len(),
                    *v == Value::Tuple(*items),
                    iv.len() == items@.len(),
                    forall|j: int| 0 <= j < items@.len() ==> iv[j] == value_v(#[trigger] items@[j]),
                    s@ == joined_texts(iv.take(i as int)),
                decreases items@.len() - i,
            {
                if i > 0 {
                    s.append("|");
                }
                let t = items[i].to_string();
                s.append(t.as_str());
                proof {
                    let w = iv.take(i + 1);
                    assert(w.drop_last() =~= iv.take(i as int));
                    assert(w.last() == value_v(items@[i as int]));
                    if i == 0 {
                        assert(w.len() == 1);
                        assert(w[0] == value_v(items@[0]));
                        assert(s@ =~= value_text(w[0]));
                    }
                }
                i = i + 1;
            }
            assert(iv.take(i as int) =~= iv);
            s
        },
    };
    let c = chars_of(rendered.as_str());
    let mut quoted = false;
    let mut k: usize = 0;
    while k < c.len()
        invariant
            k <= c@.len(),
            c@ == rendered@,
            quoted == exists|i: int| 0 <= i < k && #[trigger] special_at(c@, i),
        decreases c@.len() - k,
    {
        let ch = c[k];
        if ch == ',' || ch == '\n' || ch == '"' {
            assert(special_at(c@, k as int));
            quoted = true;
        }
        k = k + 1;
    }
    if quoted {
        push_char(out, '"');
        let mut m: usize = 0;
        let ghost base = out@;
        assert(c@.take(0) =~= Seq::<char>::empty());
        while m < c.len()
            invariant
                m <= c@.len(),
                c@ == rendered@,
                out@ == base + doubled_quotes(c@.take(m as int)),
            decreases c@.len() - m,
        {
            let ch = c[m];
            if ch == '"' {
                push_char(out, '"');
                push_char(out, '"');
            } else {
                push_char(out, ch);
            }
            proof {
                assert(c@.take(m + 1).drop_last() =~= c@.take(m as int));
                assert(c@.take(m + 1).last() == ch);
            }
            m = m + 1;
        }
        assert(c@.take(m as int) =~= c@);
        push_char(out, '"');
    } else {
        out.append(rendered.as_str());
    }
}

fn append_row(out: &mut String, row: &Value)
    ensures
        final(out)@ == old(out)@ + row_text(row_cells(value_v(*row))),
{
    match row {
        Value::Tuple(cols) => {
            let ghost iv = match value_v(*row) {
                ValueV::Tuple(x) => x,
                _ => Seq::empty(),
            };
            let ghost base = out@;
            let mut i: usize = 0;
            assert(iv.take(0) =~= Seq::<ValueV>::empty());
            while i < cols.len()
                invariant
                    i <= cols@.len(),
                    *row == Value::Tuple(*cols),
                    iv.len() == cols@.len(),
                    forall|j: int| 0 <= j < cols@.len() ==> iv[j] == value_v(#[trigger] cols@[j]),
                    out@ == base + row_text(iv.take(i as int)),
                decreases cols@.len() - i,
            {
                if i > 0 {
                    out.append(",");
                }
                append_cell(out, &cols[i]);
                proof {
                    let w = iv.take(i + 1);
                    assert(w.drop_last() =~= iv.take(i as int));
                    assert(w.last() == value_v(cols@[i as int]));
                    if i == 0 {
                        assert(w.len() == 1);
                        assert(w[0] == value_v(cols@[0]));
                        assert(out@ =~= base + cell_text(w[0]));
                    }
                }
                i = i + 1;
            }
            assert(iv.take(i as int) =~= iv);
        },
        _ => {
            append_cell(out, row);
            assert(row_cells(value_v(*row)) =~= seq![value_v(*row)]);
        },
    }
}

/// The CSV text of a value: a tuple's items as rows, a tuple row's items
/// as cells
pub fn to_csv(rows: &Value) -> (s: String)
    ensures
        s@ == csv_text(value_v(*rows)),
{
    let mut csv = String::new();
    match rows {
        Value::Tuple(items) => {
            let ghost iv = match value_v(*rows) {
                ValueV::Tuple(x) => x,
                _ => Seq::empty(),
            };
            let mut i: usize = 0;
            assert(iv.take(0) =~= Seq::<ValueV>::empty());
            while i < items.len()
                invariant
                    i <= items@.len(),
                    *rows == Value::Tuple(*items),
                    iv.len() == items@.len(),
                    forall|j: int| 0 <= j < items@.len() ==> iv[j] == value_v(#[trigger] items@[j]),
                    csv@ == rows_text(iv.take(i as int)),
                decreases items@.len() - i,
            {
                if i > 0 {
                    csv.append("\n");
                }
                append_row(&mut csv, &items[i]);
                proof {
                    let w = iv.take(i + 1);
                    assert(w.drop_last() =~= iv.take(i as int));
                    assert(w.last() == value_v(items@[i as int]));
                    if i == 0 {
                        assert(w.len() == 1);
                        assert(w[0] == value_v(items@[0]));
                        assert(csv@ =~= row_text(row_cells(w[0])));
                    }
                }
                i = i + 1;
            }
            assert(iv.take(i as int) =~= iv);
        },
        _ => {
            append_cell(&mut csv, rows);
            assert(csv@ =~= cell_text(value_v(*rows)));
        },
    }
    csv
}

/// Text with its leading and trailing quotes taken off.
pub open spec fn trim_quotes(t: Seq<char>) -> Seq<char>
    decreases t.len(),
{
    if t.len() > 0 && t[0] == '"' {
        trim_quotes(t.drop_first())
    } else if t.len() > 0 && t.last() == '"' {
        trim_quotes(t.drop_last())
    } else {
        t
    }
}

/// The value a cell is read as: an integer, a float, a boolean, or else
/// its text without surrounding quotes.
pub open spec fn cell_value(cell: Seq<char>) -> ValueV {
    let t = trim_ws(cell);
    match bigint_text_value(t) {
        Ok(v) => ValueV::Int(radix_text(v, 10)),
        Err(_) => if float_literal(t) {
            ValueV::Number(t)
        } else if t == "true"@ {
            ValueV::Bool(true)
        } else if t == "false"@ {
            ValueV::Bool(false)
        } else {
            ValueV::Str(trim_quotes(t))
        },
    }
}

/// The cells of a line, split at every comma.
pub open spec fn line_cells(line: Seq<char>) -> Seq<ValueV>
    decreases line.len(),
{
    let i = first_index_of(line, ',');
    if i < 0 || i >= line.len() {
        seq![cell_value(line)]
    } else {
        seq![cell_value(line.subrange(0, i))] + line_cells(line.subrange(i + 1, line.len() as int))
    }
}

/// The rows of a text: its lines that are not blank, split into cells.
pub open spec fn csv_rows(text: Seq<char>) -> Seq<ValueV>
    decreases text.len(),
{
    let i = first_index_of(text, '\n');
    let line = if i < 0 || i >= text.len() { text } else { text.subrange(0, i) };
    let row = if trim_ws(line).len() == 0 { Seq::empty() } else { seq![ValueV::Tuple(line_cells(line))] };
    if i < 0 || i >= text.len() {
        row
    } else {
        row + csv_rows(text.subrange(i + 1, text.len() as int))
    }
}

/// Text is blank exactly when its leading whitespace is all of it.
proof fn lemma_trim_blank(s: Seq<char>)
    ensures
        (trim_ws(s).len() == 0) == (trim_start_ws(s).len() == 0),
{
    crate::apexlang::assembly::lemma_trim_start_first(s);
    let t = trim_start_ws(s);
    if t.len() > 0 {
        lemma_trim_end_keeps_first(t);
    } else {
        assert(trim_end_ws(t) == t);
    }
}

/// Trailing whitespace stops before a first character that is none.
proof fn lemma_trim_end_keeps_first(t: Seq<char>)
    requires
        t.len() > 0,
        !whitespace(t[0]),
    ensures
        trim_end_ws(t).len() > 0,
    decreases t.len(),
{
    if whitespace(t.last()) {
        if t.len() > 1 {
            assert(t.drop_last()[0] == t[0]);
            lemma_trim_end_keeps_first(t.drop_last());
        }
    }
}

/// The text with surrounding quotes taken off
fn strip_quotes(c: &Vec<char>, from: usize, to: usize) -> (s: String)
    requires
        from <= to <= c@.len(),
    ensures
        s@ == trim_quotes(c@.subrange(from as int, to as int)),
{
    let mut a = from;
    let mut b = to;
    while a < b && (c[a] == '"' || c[b - 1] == '"')
        invariant
            from <= a <= b <= to <= c@.len(),
            trim_quotes(c@.subrange(from as int, to as int)) == trim_quotes(c@.subrange(a as int, b as int)),
        decreases b - a,
    {
        if c[a] == '"' {
            proof {
                assert(c@.subrange(a as int, b as int).drop_first() =~= c@.subrange(a + 1, b as int));
            }
            a = a + 1;
        } else {
            proof {
                assert(c@.subrange(a as int, b as int).drop_last() =~= c@.subrange(a as int, b - 1));
            }
            b = b - 1;
        }
    }
    string_of(c, a, b)
}

/// The value of the cell in `c[from..to]`
fn read_cell(c: &Vec<char>, from: usize, to: usize) -> (v: Value)
    requires
        from <= to <= c@.len(),
    ensures
        value_v(v) == cell_value(c@.subrange(from as int, to as int)),
{
    let a = skip_whitespace(c, from, to);
    let b = drop_whitespace(c, a, to);
    proof {
        assert(c@.subrange(a as int, b as int) == trim_ws(c@.subrange(from as int, to as int)));
    }
    let t = string_of(c, a, b);
    match big_parse(t.as_str()) {
        Ok(n) => Value::Int(n.to_string()),
        Err(_) => {
            if is_float_literal(t.as_str()) {
                Value::Number(t)
            } else if str_equal(t.as_str(), "true") {
                Value::Bool(true)
            } else if str_equal(t.as_str(), "false") {
                Value::Bool(false)
            } else {
                Value::String(strip_quotes(c, a, b))
            }
        },
    }
}

/// The values of the cells of `c[from..to]`
fn read_line(c: &Vec<char>, from: usize, to: usize) -> (cols: Vec<Value>)
    requires
        from <= to <= c@.len(),
    ensures
        cols@.map_values(|x: Value| value_v(x)) == line_cells(c@.subrange(from as int, to as int)),
{
    let mut cols: Vec<Value> = Vec::new();
    let mut start = from;
    assert(cols@.map_values(|x: Value| value_v(x)) =~= Seq::<ValueV>::empty());
    loop
        invariant
            from <= start <= to <= c@.len(),
            line_cells(c@.subrange(from as int, to as int)) == cols@.map_values(|x: Value| value_v(x))
                + line_cells(c@.subrange(start as int, to as int)),
        decreases to - start,
    {
        let ghost before = cols@.map_values(|x: Value| value_v(x));
        match find_between(c, start, to, ',') {
            None => {
                let v = read_cell(c, start, to);
                cols.push(v);
                proof {
                    assert(cols@.map_values(|x: Value| value_v(x)) =~= before.push(value_v(v)));
                    assert(line_cells(c@.subrange(start as int, to as int)) =~= seq![value_v(v)]);
                }
                return cols;
            },
            Some(k) => {
                proof {
                    let t = c@.subrange(start as int, to as int);
                    assert(t.subrange(0, k - start) =~= c@.subrange(start as int, k as int));
                    assert(t.subrange(k - start + 1, t.len() as int) =~= c@.subrange(k + 1, to as int));
                }
                let v = read_cell(c, start, k);
                cols.push(v);
                proof {
                    assert(cols@.map_values(|x: Value| value_v(x)) =~= before.push(value_v(v)));
                    let tail = line_cells(c@.subrange(k + 1, to as int));
                    assert(before + (seq![value_v(v)] + tail) =~= before.push(value_v(v)) + tail);
                }
                start = k + 1;
            },
        }
    }
}

/// The rows of a CSV text: each line that is not blank, its cells read as
/// integers, floats, booleans or text
pub fn from_csv(text: &str) -> (v: Value)
    ensures
        value_v(v) == ValueV::Tuple(csv_rows(text@)),
{
    let c = chars_of(text);
    let n = c.len();
    let mut rows: Vec<Value> = Vec::new();
    let mut start: usize = 0;
    assert(c@.subrange(0, n as int) =~= text@);
    assert(rows@.map_values(|x: Value| value_v(x)) =~= Seq::<ValueV>::empty());
    loop
        invariant
            start <= n == c@.len(),
            c@ == text@,
            csv_rows(text@) == rows@.map_values(|x: Value| value_v(x)) + csv_rows(c@.subrange(start as int, n as int)),
        decreases n - start,
    {
        let ghost before = rows@.map_values(|x: Value| value_v(x));
        let ghost t = c@.subrange(start as int, n as int);
        let (end, last) = match find_between(&c, start, n, '\n') {
            Some(i) => (i, false),
            None => (n, true),
        };
        proof {
            if !last {
                assert(t.subrange(0, end - start) =~= c@.subrange(start as int, end as int));
                assert(t.subrange(end - start + 1, t.len() as int) =~= c@.subrange(end + 1, n as int));
            }
        }
        let a = skip_whitespace(&c, start, end);
        let blank = a == end;
        proof {
            lemma_trim_blank(c@.subrange(start as int, end as int));
            assert(c@.subrange(a as int, end as int).len() == end - a);
        }
        if !blank {
            let cols = read_line(&c, start, end);
            let ghost cv = cols@.map_values(|x: Value| value_v(x));
            let row = Value::Tuple(cols);
            proof {
                let ys = match value_v(row) {
                    ValueV::Tuple(ys) => ys,
                    _ => Seq::empty(),
                };
                assert(value_v(row) is Tuple);
                assert forall|k: int| 0 <= k < ys.len() implies ys[k] == cv[k] by {}
                assert(ys =~= cv);
            }
            rows.push(row);
            proof {
                assert(rows@.map_values(|x: Value| value_v(x)) =~= before.push(value_v(row)));
            }
        }
        if last {
            proof {
                let row_part = if blank { Seq::<ValueV>::empty() } else { seq![value_v(rows@.last())] };
                assert(rows@.map_values(|x: Value| value_v(x)) =~= before + row_part);
            }
            let result = Value::Tuple(rows);
            proof {
                let ys = match value_v(result) {
                    ValueV::Tuple(ys) => ys,
                    _ => Seq::empty(),
                };
                assert(value_v(result) is Tuple);
                assert(ys =~= rows@.map_values(|x: Value| value_v(x)));
            }
            return result;
        }
        proof {
            let row_part = if blank { Seq::<ValueV>::empty() } else { seq![value_v(rows@.last())] };
            assert(rows@.map_values(|x: Value| value_v(x)) =~= before + row_part);
            assert(before + (row_part + csv_rows(c@.subrange(end + 1, n as int))) =~= (before + row_part) + csv_rows(
                c@.subrange(end + 1, n as int),
            ));
        }
        start = end + 1;
    }
}

} // verus!
