use vstd::prelude::*;
use crate::schema::{ColumnDefV, ColumnType};

verus! {

/// One typed cell of a decoded row: a value of the column's logical type, or
/// null for an optional column that the record did not supply.
#[derive(Debug, PartialEq)]
pub enum CellValue {
    Null,
    Text(String),
    Int32(i32),
    Int64(i64),
    Boolean(bool),
}

/// Model of a cell: text as a character sequence, the rest as plain values.
pub enum CellV {
    Null,
    Text(Seq<char>),
    Int32(i32),
    Int64(i64),
    Boolean(bool),
}

impl View for CellValue {
    type V = CellV;

    open spec fn view(&self) -> CellV {
        match self {
            CellValue::Null => CellV::Null,
            CellValue::Text(s) => CellV::Text(s@),
            CellValue::Int32(x) => CellV::Int32(*x),
            CellValue::Int64(x) => CellV::Int64(*x),
            CellValue::Boolean(b) => CellV::Boolean(*b),
        }
    }
}

impl Clone for CellValue {
    fn clone(&self) -> (r: Self)
        ensures
            r@ == self@,
    {
        match self {
            CellValue::Null => CellValue::Null,
            CellValue::Text(s) => CellValue::Text(s.clone()),
            CellValue::Int32(x) => CellValue::Int32(*x),
            CellValue::Int64(x) => CellValue::Int64(*x),
            CellValue::Boolean(b) => CellValue::Boolean(*b),
        }
    }
}

/// Whether a cell is admissible for a column: a non-null cell must carry the
/// column's logical type, and a null cell is admissible only when the column
/// is optional.
pub open spec fn cell_fits_column(c: CellV, col: ColumnDefV) -> bool {
    match c {
        CellV::Null => !col.required,
        CellV::Text(_) => col.column_type == ColumnType::Text,
        CellV::Int32(_) => col.column_type == ColumnType::Int32,
        CellV::Int64(_) => col.column_type == ColumnType::Int64,
        CellV::Boolean(_) => col.column_type == ColumnType::Boolean,
    }
}

/// One decoded record, with exactly one cell per schema column, in schema
/// order.
#[derive(Debug, PartialEq)]
pub struct Row {
    pub cells: Vec<CellValue>,
}

/// The models of a sequence of cells.
pub open spec fn cells_view(cs: Seq<CellValue>) -> Seq<CellV> {
    cs.map_values(|c: CellValue| c@)
}

impl View for Row {
    type V = Seq<CellV>;

    open spec fn view(&self) -> Seq<CellV> {
        cells_view(self.cells@)
    }
}

impl Clone for Row {
    fn clone(&self) -> (r: Self)
        ensures
            r@ == self@,
    {
        let mut cells: Vec<CellValue> = Vec::new();
        for k in 0..self.cells.len()
            invariant
                cells@.len() == k,
                forall|i: int| 0 <= i < k ==> #[trigger] cells@[i]@ == self.cells@[i]@,
        {
            cells.push(self.cells[k].clone());
        }
        let r = Row { cells };
        proof {
            assert(r@ =~= self@);
        }
        r
    }
}

/// The models of a sequence of rows.
pub open spec fn rows_view(rows: Seq<Row>) -> Seq<Seq<CellV>> {
    rows.map_values(|row: Row| row@)
}

/// A row is admissible for a schema when it has one admissible cell per
/// column, in schema order.
pub open spec fn row_fits_schema(row: Seq<CellV>, schema: Seq<ColumnDefV>) -> bool {
    &&& row.len() == schema.len()
    &&& forall|j: int| 0 <= j < row.len() ==> cell_fits_column(#[trigger] row[j], schema[j])
}

/// All rows of a batch are admissible for the schema.
pub open spec fn rows_fit_schema(rows: Seq<Seq<CellV>>, schema: Seq<ColumnDefV>) -> bool {
    forall|i: int| 0 <= i < rows.len() ==> row_fits_schema(#[trigger] rows[i], schema)
}

/// Lexicographic order on character sequences, by code point.
pub open spec fn text_le(a: Seq<char>, b: Seq<char>) -> bool
    decreases a.len(),
{
    if a.len() == 0 {
        true
    } else if b.len() == 0 {
        false
    } else if (a[0] as u32) < (b[0] as u32) {
        true
    } else if a[0] == b[0] {
        text_le(a.skip(1), b.skip(1))
    } else {
        false
    }
}

/// Order on two non-null cells of the same logical type, used for the
/// per-column minimum and maximum statistics: integers and booleans by value,
/// text lexicographically by code point.
pub open spec fn cell_le(a: CellV, b: CellV) -> bool {
    match (a, b) {
        (CellV::Text(x), CellV::Text(y)) => text_le(x, y),
        (CellV::Int32(x), CellV::Int32(y)) => x <= y,
        (CellV::Int64(x), CellV::Int64(y)) => x <= y,
        (CellV::Boolean(x), CellV::Boolean(y)) => !x || y,
        _ => false,
    }
}

/// The lexicographic order is reflexive.
pub proof fn lemma_text_le_refl(a: Seq<char>)
    ensures
        text_le(a, a),
    decreases a.len(),
{
    if a.len() > 0 {
        lemma_text_le_refl(a.skip(1));
    }
}

/// The lexicographic order is total.
pub proof fn lemma_text_le_total(a: Seq<char>, b: Seq<char>)
    ensures
        text_le(a, b) || text_le(b, a),
    decreases a.len(),
{
    if a.len() > 0 && b.len() > 0 {
        if a[0] == b[0] {
            lemma_text_le_total(a.skip(1), b.skip(1));
        } else {
            vstd::utf8::char_u32_cast(a[0], a[0] as u32);
            vstd::utf8::char_u32_cast(b[0], b[0] as u32);
            assert(a[0] as u32 != b[0] as u32);
        }
    }
}

/// The lexicographic order is transitive.
pub proof fn lemma_text_le_trans(a: Seq<char>, b: Seq<char>, c: Seq<char>)
    requires
        text_le(a, b),
        text_le(b, c),
    ensures
        text_le(a, c),
    decreases a.len(),
{
    if a.len() > 0 {
        assert(b.len() > 0);
        assert(c.len() > 0);
        if a[0] == b[0] && b[0] == c[0] {
            lemma_text_le_trans(a.skip(1), b.skip(1), c.skip(1));
        }
    }
}

/// Two non-null cells that fit the same column are ordered one way or the
/// other, and the order is reflexive and transitive on them.
pub proof fn lemma_cell_le_total(a: CellV, b: CellV, col: ColumnDefV)
    requires
        cell_fits_column(a, col),
        cell_fits_column(b, col),
        !(a is Null),
        !(b is Null),
    ensures
        cell_le(a, b) || cell_le(b, a),
        cell_le(a, a),
        cell_le(b, b),
{
    match (a, b) {
        (CellV::Text(x), CellV::Text(y)) => {
            lemma_text_le_total(x, y);
            lemma_text_le_refl(x);
            lemma_text_le_refl(y);
        },
        _ => {},
    }
}

/// The cell order is transitive on non-null cells of one column.
pub proof fn lemma_cell_le_trans(a: CellV, b: CellV, c: CellV)
    requires
        cell_le(a, b),
        cell_le(b, c),
    ensures
        cell_le(a, c),
{
    match (a, b) {
        (CellV::Text(x), CellV::Text(y)) => {
            match c {
                CellV::Text(z) => {
                    lemma_text_le_trans(x, y, z);
                },
                _ => {},
            }
        },
        _ => {},
    }
}

/// Decides `text_le` on two strings.
pub fn text_le_exec(a: &str, b: &str) -> (r: bool)
    ensures
        r == text_le(a@, b@),
    decreases a@.len(),
{
    let na = a.unicode_len();
    let nb = b.unicode_len();
    let mut i: usize = 0;
    proof {
        assert(a@.skip(0) =~= a@);
        assert(b@.skip(0) =~= b@);
    }
    loop
        invariant
            na == a@.len(),
            nb == b@.len(),
            i <= na,
            i <= nb,
            text_le(a@, b@) == text_le(a@.skip(i as int), b@.skip(i as int)),
        decreases na - i,
    {
        if i == na {
            proof {
                assert(a@.skip(i as int).len() == 0);
            }
            return true;
        }
        if i == nb {
            proof {
                assert(b@.skip(i as int).len() == 0);
                assert(a@.skip(i as int).len() > 0);
            }
            return false;
        }
        let ca = a.get_char(i);
        let cb = b.get_char(i);
        proof {
            assert(a@.skip(i as int)[0] == a@[i as int]);
            assert(b@.skip(i as int)[0] == b@[i as int]);
            assert(a@.skip(i as int).skip(1) =~= a@.skip(i as int + 1));
            assert(b@.skip(i as int).skip(1) =~= b@.skip(i as int + 1));
        }
        if (ca as u32) < (cb as u32) {
            return true;
        }
        if ca != cb {
            return false;
        }
        i = i + 1;
    }
}

/// Decides `cell_le` on two cells.
pub fn cell_le_exec(a: &CellValue, b: &CellValue) -> (r: bool)
    ensures
        r == cell_le(a@, b@),
{
    match (a, b) {
        (CellValue::Text(x), CellValue::Text(y)) => text_le_exec(x.as_str(), y.as_str()),
        (CellValue::Int32(x), CellValue::Int32(y)) => *x <= *y,
        (CellValue::Int64(x), CellValue::Int64(y)) => *x <= *y,
        (CellValue::Boolean(x), CellValue::Boolean(y)) => !*x || *y,
        _ => false,
    }
}

} // verus!
