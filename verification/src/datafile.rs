use vstd::prelude::*;
use crate::codec::{enc_u64, enc_text, enc_cell, enc_cells, enc_opt_cell, dec_u8, dec_u64,
    dec_text, dec_cell, dec_cells, dec_opt_cell, cell_len_ok, cells_len_ok, lemma_dec_enc_u8,
    lemma_dec_enc_u64, lemma_dec_enc_text, lemma_dec_enc_cells, lemma_dec_enc_opt_cell, write_u8,
    write_u64, write_text, write_cell, write_opt_cell, read_u8, read_u64, read_text, read_cell,
    read_opt_cell};
use crate::schema::{ColumnDef, ColumnDefV, ColumnType, Schema};
use crate::value::{CellV, CellValue, Row, cell_fits_column, cell_le, cell_le_exec, cells_view,
    rows_view, row_fits_schema, rows_fit_schema};

verus! {

/// Version number of the columnar file layout.
pub const FORMAT_VERSION: u64 = 1;

/// Per-column statistics over one data file: how many cells are null, and
/// the smallest and largest non-null value (absent when every cell is null).
#[derive(Debug, PartialEq)]
pub struct ColumnStats {
    pub null_count: u64,
    pub min: Option<CellValue>,
    pub max: Option<CellValue>,
}

/// Model of per-column statistics.
pub struct StatsV {
    pub null_count: u64,
    pub min: Option<CellV>,
    pub max: Option<CellV>,
}

impl View for ColumnStats {
    type V = StatsV;

    open spec fn view(&self) -> StatsV {
        StatsV {
            null_count: self.null_count,
            min: match self.min {
                Some(ref c) => Some(c@),
                None => None,
            },
            max: match self.max {
                Some(ref c) => Some(c@),
                None => None,
            },
        }
    }
}

impl Clone for ColumnStats {
    fn clone(&self) -> (r: Self)
        ensures
            r@ == self@,
    {
        ColumnStats {
            null_count: self.null_count,
            min: match &self.min {
                Some(c) => Some(c.clone()),
                None => None,
            },
            max: match &self.max {
                Some(c) => Some(c.clone()),
                None => None,
            },
        }
    }
}

/// The models of a sequence of column statistics.
pub open spec fn stats_view(sts: Seq<ColumnStats>) -> Seq<StatsV> {
    sts.map_values(|st: ColumnStats| st@)
}

// ---------------------------------------------------------------------------
// Statistics as functions of the rows.
// ---------------------------------------------------------------------------
/// Column `j` of a batch of rows.
pub open spec fn column_of(rows: Seq<Seq<CellV>>, j: int) -> Seq<CellV> {
    Seq::new(rows.len(), |i: int| rows[i][j])
}

/// How many cells of a column are null.
pub open spec fn count_nulls(col: Seq<CellV>) -> nat
    decreases col.len(),
{
    if col.len() == 0 {
        0
    } else {
        (if col[0] is Null {
            1nat
        } else {
            0nat
        }) + count_nulls(col.skip(1))
    }
}

/// The smaller of two cells under the column order.
pub open spec fn min_cell(a: CellV, b: CellV) -> CellV {
    if cell_le(a, b) {
        a
    } else {
        b
    }
}

/// The larger of two cells under the column order.
pub open spec fn max_cell(a: CellV, b: CellV) -> CellV {
    if cell_le(a, b) {
        b
    } else {
        a
    }
}

/// The running minimum after folding a column's non-null cells into an
/// accumulator, front to back.
pub open spec fn fold_min(acc: Option<CellV>, col: Seq<CellV>) -> Option<CellV>
    decreases col.len(),
{
    if col.len() == 0 {
        acc
    } else {
        let acc2 = if col[0] is Null {
            acc
        } else {
            match acc {
                None => Some(col[0]),
                Some(m) => Some(min_cell(m, col[0])),
            }
        };
        fold_min(acc2, col.skip(1))
    }
}

/// The running maximum, folded the same way.
pub open spec fn fold_max(acc: Option<CellV>, col: Seq<CellV>) -> Option<CellV>
    decreases col.len(),
{
    if col.len() == 0 {
        acc
    } else {
        let acc2 = if col[0] is Null {
            acc
        } else {
            match acc {
                None => Some(col[0]),
                Some(m) => Some(max_cell(m, col[0])),
            }
        };
        fold_max(acc2, col.skip(1))
    }
}

/// The count clipped to a 64-bit field (executable counts never clip, since
/// a batch holds at most `usize::MAX` rows).
pub open spec fn nulls64(col: Seq<CellV>) -> u64 {
    crate::decode::sat64(count_nulls(col))
}

/// The statistics of column `j` over a batch of rows.
pub open spec fn stats_of(rows: Seq<Seq<CellV>>, j: int) -> StatsV {
    StatsV {
        null_count: nulls64(column_of(rows, j)),
        min: fold_min(None, column_of(rows, j)),
        max: fold_max(None, column_of(rows, j)),
    }
}

/// The statistics of every column of the file, in schema order.
pub open spec fn file_stats(rows: Seq<Seq<CellV>>, ncols: nat) -> Seq<StatsV> {
    Seq::new(ncols, |j: int| stats_of(rows, j))
}

/// Folding the minimum over a column of typed cells yields either nothing —
/// exactly when the accumulator is empty and every cell is null — or a
/// non-null value that came from the accumulator or the column and lies at
/// or below every non-null cell.
proof fn lemma_fold_min_props(acc: Option<CellV>, col: Seq<CellV>, colty: ColumnDefV)
    requires
        acc matches Some(m) ==> cell_fits_column(m, colty) && !(m is Null),
        forall|i: int| 0 <= i < col.len() ==> cell_fits_column(#[trigger] col[i], colty),
    ensures
        fold_min(acc, col) is None <==> (acc is None && (forall|i: int|
            0 <= i < col.len() ==> (#[trigger] col[i]) is Null)),
        fold_min(acc, col) matches Some(m2) ==> cell_fits_column(m2, colty) && !(m2 is Null) && (
        acc == Some(m2) || (exists|i: int| 0 <= i < col.len() && #[trigger] col[i] == m2)) && (
        forall|i: int|
            0 <= i < col.len() && !((#[trigger] col[i]) is Null) ==> cell_le(m2, col[i])) && (acc
            matches Some(m) ==> cell_le(m2, m)),
    decreases col.len(),
{
    if col.len() > 0 {
        let c0 = col[0];
        let acc2 = if c0 is Null {
            acc
        } else {
            match acc {
                None => Some(c0),
                Some(m) => Some(min_cell(m, c0)),
            }
        };
        match acc {
            Some(m) => {
                crate::value::lemma_cell_le_total(m, m, colty);
            },
            None => {},
        }
        if !(c0 is Null) {
            match acc {
                Some(m) => {
                    crate::value::lemma_cell_le_total(m, c0, colty);
                },
                None => {
                    crate::value::lemma_cell_le_total(c0, c0, colty);
                },
            }
        }
        lemma_fold_min_props(acc2, col.skip(1), colty);
        assert(forall|i: int| 0 <= i < col.skip(1).len() ==> #[trigger] col.skip(1)[i] == col[i
            + 1]);
        if fold_min(acc, col) is None {
            assert forall|i: int| 0 <= i < col.len() implies (#[trigger] col[i]) is Null by {
                if i > 0 {
                    assert(col.skip(1)[i - 1] == col[i]);
                }
            }
        }
        if acc is None && (forall|i: int| 0 <= i < col.len() ==> (#[trigger] col[i]) is Null) {
            assert forall|i: int|
                0 <= i < col.skip(1).len() implies (#[trigger] col.skip(1)[i]) is Null by {
                assert(col.skip(1)[i] == col[i + 1]);
            }
            assert(fold_min(acc, col) is None);
        }
        if fold_min(acc, col) is Some {
            let m2 = fold_min(acc, col)->Some_0;
            assert forall|i: int|
                0 <= i < col.len() && !((#[trigger] col[i]) is Null) implies cell_le(
                m2,
                col[i],
            ) by {
                if i == 0 {
                    match acc2 {
                        Some(a2) => {
                            assert(cell_le(a2, c0));
                            assert(cell_le(m2, a2));
                            crate::value::lemma_cell_le_trans(m2, a2, c0);
                        },
                        None => {},
                    }
                } else {
                    assert(col.skip(1)[i - 1] == col[i]);
                }
            }
            if acc2 == Some(m2) {
                if acc != Some(m2) {
                    assert(m2 == c0);
                    assert(col[0] == m2);
                }
            } else {
                let i0 = choose|i: int|
                    0 <= i < col.skip(1).len() && #[trigger] col.skip(1)[i] == m2;
                assert(col[i0 + 1] == m2);
            }
            if acc is Some {
                let m = acc->Some_0;
                match acc2 {
                    Some(a2) => {
                        assert(cell_le(a2, m));
                        assert(cell_le(m2, a2));
                        crate::value::lemma_cell_le_trans(m2, a2, m);
                    },
                    None => {},
                }
            }
        }
    } else {
        match acc {
            Some(m) => {
                crate::value::lemma_cell_le_total(m, m, colty);
            },
            None => {},
        }
    }
}

/// The mirror property for the maximum.
proof fn lemma_fold_max_props(acc: Option<CellV>, col: Seq<CellV>, colty: ColumnDefV)
    requires
        acc matches Some(m) ==> cell_fits_column(m, colty) && !(m is Null),
        forall|i: int| 0 <= i < col.len() ==> cell_fits_column(#[trigger] col[i], colty),
    ensures
        fold_max(acc, col) is None <==> (acc is None && (forall|i: int|
            0 <= i < col.len() ==> (#[trigger] col[i]) is Null)),
        fold_max(acc, col) matches Some(m2) ==> cell_fits_column(m2, colty) && !(m2 is Null) && (
        acc == Some(m2) || (exists|i: int| 0 <= i < col.len() && #[trigger] col[i] == m2)) && (
        forall|i: int|
            0 <= i < col.len() && !((#[trigger] col[i]) is Null) ==> cell_le(col[i], m2)) && (acc
            matches Some(m) ==> cell_le(m, m2)),
    decreases col.len(),
{
    if col.len() > 0 {
        let c0 = col[0];
        let acc2 = if c0 is Null {
            acc
        } else {
            match acc {
                None => Some(c0),
                Some(m) => Some(max_cell(m, c0)),
            }
        };
        match acc {
            Some(m) => {
                crate::value::lemma_cell_le_total(m, m, colty);
            },
            None => {},
        }
        if !(c0 is Null) {
            match acc {
                Some(m) => {
                    crate::value::lemma_cell_le_total(m, c0, colty);
                },
                None => {
                    crate::value::lemma_cell_le_total(c0, c0, colty);
                },
            }
        }
        lemma_fold_max_props(acc2, col.skip(1), colty);
        assert(forall|i: int| 0 <= i < col.skip(1).len() ==> #[trigger] col.skip(1)[i] == col[i
            + 1]);
        if fold_max(acc, col) is None {
            assert forall|i: int| 0 <= i < col.len() implies (#[trigger] col[i]) is Null by {
                if i > 0 {
                    assert(col.skip(1)[i - 1] == col[i]);
                }
            }
        }
        if acc is None && (forall|i: int| 0 <= i < col.len() ==> (#[trigger] col[i]) is Null) {
            assert forall|i: int|
                0 <= i < col.skip(1).len() implies (#[trigger] col.skip(1)[i]) is Null by {
                assert(col.skip(1)[i] == col[i + 1]);
            }
            assert(fold_max(acc, col) is None);
        }
        if fold_max(acc, col) is Some {
            let m2 = fold_max(acc, col)->Some_0;
            assert forall|i: int|
                0 <= i < col.len() && !((#[trigger] col[i]) is Null) implies cell_le(
                col[i],
                m2,
            ) by {
                if i == 0 {
                    match acc2 {
                        Some(a2) => {
                            assert(cell_le(c0, a2));
                            assert(cell_le(a2, m2));
                            crate::value::lemma_cell_le_trans(c0, a2, m2);
                        },
                        None => {},
                    }
                } else {
                    assert(col.skip(1)[i - 1] == col[i]);
                }
            }
            if acc2 == Some(m2) {
                if acc != Some(m2) {
                    assert(m2 == c0);
                    assert(col[0] == m2);
                }
            } else {
                let i0 = choose|i: int|
                    0 <= i < col.skip(1).len() && #[trigger] col.skip(1)[i] == m2;
                assert(col[i0 + 1] == m2);
            }
            if acc is Some {
                let m = acc->Some_0;
                match acc2 {
                    Some(a2) => {
                        assert(cell_le(m, a2));
                        assert(cell_le(a2, m2));
                        crate::value::lemma_cell_le_trans(m, a2, m2);
                    },
                    None => {},
                }
            }
        }
    } else {
        match acc {
            Some(m) => {
                crate::value::lemma_cell_le_total(m, m, colty);
            },
            None => {},
        }
    }
}

/// The per-column statistics are exact: over a batch that fits the schema,
/// a column's minimum and maximum are absent exactly when every cell of the
/// column is null, and otherwise each is one of the column's non-null cells
/// and bounds every non-null cell from below or above.
pub proof fn lemma_stats_exact_bounds(rows: Seq<Seq<CellV>>, schema: Seq<ColumnDefV>, j: int)
    requires
        rows_fit_schema(rows, schema),
        0 <= j < schema.len(),
    ensures
        stats_of(rows, j).min is None <==> (forall|i: int|
            0 <= i < rows.len() ==> (#[trigger] rows[i][j]) is Null),
        stats_of(rows, j).max is None <==> (forall|i: int|
            0 <= i < rows.len() ==> (#[trigger] rows[i][j]) is Null),
        stats_of(rows, j).min matches Some(m) ==> (exists|i: int|
            0 <= i < rows.len() && #[trigger] rows[i][j] == m) && (forall|i: int|
            0 <= i < rows.len() && !((#[trigger] rows[i][j]) is Null) ==> cell_le(m, rows[i][j])),
        stats_of(rows, j).max matches Some(m) ==> (exists|i: int|
            0 <= i < rows.len() && #[trigger] rows[i][j] == m) && (forall|i: int|
            0 <= i < rows.len() && !((#[trigger] rows[i][j]) is Null) ==> cell_le(rows[i][j], m)),
{
    let col = column_of(rows, j);
    assert forall|i: int| 0 <= i < col.len() implies cell_fits_column(
        #[trigger] col[i],
        schema[j],
    ) by {
        assert(row_fits_schema(rows[i], schema));
        assert(col[i] == rows[i][j]);
    }
    lemma_fold_min_props(None, col, schema[j]);
    lemma_fold_max_props(None, col, schema[j]);
    assert(forall|i: int| 0 <= i < rows.len() ==> #[trigger] col[i] == rows[i][j]);
    if stats_of(rows, j).min is None {
        assert forall|i: int| 0 <= i < rows.len() implies (#[trigger] rows[i][j]) is Null by {
            assert(col[i] == rows[i][j]);
            assert(col[i] is Null);
        }
    }
    if forall|i: int| 0 <= i < rows.len() ==> (#[trigger] rows[i][j]) is Null {
        assert forall|i: int| 0 <= i < col.len() implies (#[trigger] col[i]) is Null by {
            assert(col[i] == rows[i][j]);
        }
        assert(stats_of(rows, j).min is None);
        assert(stats_of(rows, j).max is None);
    }
    if stats_of(rows, j).max is None {
        assert forall|i: int| 0 <= i < rows.len() implies (#[trigger] rows[i][j]) is Null by {
            assert(col[i] == rows[i][j]);
            assert(col[i] is Null);
        }
    }
    if stats_of(rows, j).min is Some {
        let m = stats_of(rows, j).min->Some_0;
        let i0 = choose|i: int| 0 <= i < col.len() && #[trigger] col[i] == m;
        assert(rows[i0][j] == m);
        assert forall|i: int|
            0 <= i < rows.len() && !((#[trigger] rows[i][j]) is Null) implies cell_le(
            m,
            rows[i][j],
        ) by {
            assert(col[i] == rows[i][j]);
        }
    }
    if stats_of(rows, j).max is Some {
        let m = stats_of(rows, j).max->Some_0;
        let i0 = choose|i: int| 0 <= i < col.len() && #[trigger] col[i] == m;
        assert(rows[i0][j] == m);
        assert forall|i: int|
            0 <= i < rows.len() && !((#[trigger] rows[i][j]) is Null) implies cell_le(
            rows[i][j],
            m,
        ) by {
            assert(col[i] == rows[i][j]);
        }
    }
}

// ---------------------------------------------------------------------------
// File layout: version, column count, column definitions, row count,
// per-column statistics, then the cells column by column.
// ---------------------------------------------------------------------------
/// Tag byte of a column's logical type.
pub open spec fn type_tag(t: ColumnType) -> u8 {
    match t {
        ColumnType::Text => 0,
        ColumnType::Int32 => 1,
        ColumnType::Int64 => 2,
        ColumnType::Boolean => 3,
    }
}

/// The logical type with the given tag byte.
pub open spec fn type_of_tag(t: u8) -> Option<ColumnType> {
    if t == 0 {
        Some(ColumnType::Text)
    } else if t == 1 {
        Some(ColumnType::Int32)
    } else if t == 2 {
        Some(ColumnType::Int64)
    } else if t == 3 {
        Some(ColumnType::Boolean)
    } else {
        None
    }
}

/// One column definition: name, type tag, nullability byte.
pub open spec fn enc_coldef(c: ColumnDefV) -> Seq<u8> {
    enc_text(c.name) + seq![type_tag(c.column_type), (if c.required { 1u8 } else { 0u8 })]
}

/// Column definitions one after the other.
pub open spec fn enc_schema(s: Seq<ColumnDefV>) -> Seq<u8>
    decreases s.len(),
{
    if s.len() == 0 {
        Seq::empty()
    } else {
        enc_coldef(s[0]) + enc_schema(s.skip(1))
    }
}

/// One column's statistics: null count, then the optional minimum and
/// maximum.
pub open spec fn enc_stats1(st: StatsV) -> Seq<u8> {
    enc_u64(st.null_count) + enc_opt_cell(st.min) + enc_opt_cell(st.max)
}

/// Statistics one column after the other.
pub open spec fn enc_stats(sts: Seq<StatsV>) -> Seq<u8>
    decreases sts.len(),
{
    if sts.len() == 0 {
        Seq::empty()
    } else {
        enc_stats1(sts[0]) + enc_stats(sts.skip(1))
    }
}

/// The cells of columns `j` onward, column by column.
pub open spec fn enc_columns_from(rows: Seq<Seq<CellV>>, ncols: int, j: int) -> Seq<u8>
    decreases ncols - j,
{
    if j >= ncols {
        Seq::empty()
    } else {
        enc_cells(column_of(rows, j)) + enc_columns_from(rows, ncols, j + 1)
    }
}

/// The complete byte image of one columnar data file.
pub open spec fn enc_file(schema: Seq<ColumnDefV>, sts: Seq<StatsV>, rows: Seq<Seq<CellV>>) -> Seq<
    u8,
> {
    enc_u64(FORMAT_VERSION) + enc_u64(schema.len() as u64) + enc_schema(schema) + enc_u64(
        rows.len() as u64,
    ) + enc_stats(sts) + enc_columns_from(rows, schema.len() as int, 0)
}

/// Model of a decoded file.
pub struct FileV {
    pub schema: Seq<ColumnDefV>,
    pub stats: Seq<StatsV>,
    pub rows: Seq<Seq<CellV>>,
}

/// Reads one column definition.
pub open spec fn dec_coldef(b: Seq<u8>) -> Option<(ColumnDefV, Seq<u8>)> {
    match dec_text(b) {
        None => None,
        Some((name, r)) => match dec_u8(r) {
            None => None,
            Some((t, r2)) => match type_of_tag(t) {
                None => None,
                Some(ct) => match dec_u8(r2) {
                    None => None,
                    Some((q, r3)) => if q == 1 {
                        Some((ColumnDefV { name, column_type: ct, required: true }, r3))
                    } else if q == 0 {
                        Some((ColumnDefV { name, column_type: ct, required: false }, r3))
                    } else {
                        None
                    },
                },
            },
        },
    }
}

/// Reads `n` column definitions.
pub open spec fn dec_coldefs(b: Seq<u8>, n: nat) -> Option<(Seq<ColumnDefV>, Seq<u8>)>
    decreases n,
{
    if n == 0 {
        Some((Seq::empty(), b))
    } else {
        match dec_coldef(b) {
            None => None,
            Some((c, rest)) => match dec_coldefs(rest, (n - 1) as nat) {
                None => None,
                Some((cs, rest2)) => Some((seq![c] + cs, rest2)),
            },
        }
    }
}

/// Reads one column's statistics.
pub open spec fn dec_stats1(b: Seq<u8>) -> Option<(StatsV, Seq<u8>)> {
    match dec_u64(b) {
        None => None,
        Some((nc, r)) => match dec_opt_cell(r) {
            None => None,
            Some((mn, r2)) => match dec_opt_cell(r2) {
                None => None,
                Some((mx, r3)) => Some((StatsV { null_count: nc, min: mn, max: mx }, r3)),
            },
        },
    }
}

/// Reads `n` columns' statistics.
pub open spec fn dec_stats(b: Seq<u8>, n: nat) -> Option<(Seq<StatsV>, Seq<u8>)>
    decreases n,
{
    if n == 0 {
        Some((Seq::empty(), b))
    } else {
        match dec_stats1(b) {
            None => None,
            Some((st, rest)) => match dec_stats(rest, (n - 1) as nat) {
                None => None,
                Some((sts, rest2)) => Some((seq![st] + sts, rest2)),
            },
        }
    }
}

/// Reads `n` columns of `nrows` cells each.
pub open spec fn dec_columns(b: Seq<u8>, n: nat, nrows: nat) -> Option<(Seq<Seq<CellV>>, Seq<u8>)>
    decreases n,
{
    if n == 0 {
        Some((Seq::empty(), b))
    } else {
        match dec_cells(b, nrows) {
            None => None,
            Some((col, rest)) => match dec_columns(rest, (n - 1) as nat, nrows) {
                None => None,
                Some((cols, rest2)) => Some((seq![col] + cols, rest2)),
            },
        }
    }
}

/// The rows reassembled from a column-major image.
pub open spec fn rows_of_columns(cols: Seq<Seq<CellV>>, nrows: nat) -> Seq<Seq<CellV>> {
    Seq::new(nrows, |i: int| Seq::new(cols.len(), |j: int| cols[j][i]))
}

/// Reads one complete data file.  The whole buffer must be consumed, the
/// version must match, and the file must have at least one column.
pub open spec fn dec_file(b: Seq<u8>) -> Option<FileV> {
    match dec_u64(b) {
        None => None,
        Some((v, r)) => if v != FORMAT_VERSION {
            None
        } else {
            match dec_u64(r) {
                None => None,
                Some((ncols, r2)) => if ncols == 0 {
                    None
                } else {
                    match dec_coldefs(r2, ncols as nat) {
                        None => None,
                        Some((schema, r3)) => match dec_u64(r3) {
                            None => None,
                            Some((nrows, r4)) => match dec_stats(r4, ncols as nat) {
                                None => None,
                                Some((sts, r5)) => match dec_columns(
                                    r5,
                                    ncols as nat,
                                    nrows as nat,
                                ) {
                                    None => None,
                                    Some((cols, r6)) => if r6.len() == 0 {
                                        Some(
                                            FileV {
                                                schema,
                                                stats: sts,
                                                rows: rows_of_columns(cols, nrows as nat),
                                            },
                                        )
                                    } else {
                                        None
                                    },
                                },
                            },
                        },
                    }
                },
            }
        },
    }
}

// ---------------------------------------------------------------------------
// Round-trip lemmas for the file sections.
// ---------------------------------------------------------------------------
/// A column definition whose name fits the length field.
pub open spec fn coldef_len_ok(c: ColumnDefV) -> bool {
    c.name.len() <= u64::MAX
}

/// All column names fit the length field.
pub open spec fn schema_len_ok(s: Seq<ColumnDefV>) -> bool {
    forall|i: int| 0 <= i < s.len() ==> coldef_len_ok(#[trigger] s[i])
}

/// All statistics cells have encodable lengths.
pub open spec fn stats_len_ok(sts: Seq<StatsV>) -> bool {
    forall|i: int|
        0 <= i < sts.len() ==> ((#[trigger] sts[i].min matches Some(c) ==> cell_len_ok(c)) && (
        sts[i].max matches Some(c) ==> cell_len_ok(c)))
}

/// All cells of all rows have encodable lengths.
pub open spec fn rows_len_ok(rows: Seq<Seq<CellV>>) -> bool {
    forall|i: int| 0 <= i < rows.len() ==> cells_len_ok(#[trigger] rows[i])
}

proof fn lemma_dec_enc_coldef(c: ColumnDefV, rest: Seq<u8>)
    requires
        coldef_len_ok(c),
    ensures
        dec_coldef(enc_coldef(c) + rest) == Some((c, rest)),
{
    let q = if c.required {
        1u8
    } else {
        0u8
    };
    assert(enc_coldef(c) + rest =~= enc_text(c.name) + (seq![type_tag(c.column_type)] + (seq![q]
        + rest)));
    lemma_dec_enc_text(c.name, seq![type_tag(c.column_type)] + (seq![q] + rest));
    lemma_dec_enc_u8(type_tag(c.column_type), seq![q] + rest);
    lemma_dec_enc_u8(q, rest);
}

proof fn lemma_dec_enc_coldefs(s: Seq<ColumnDefV>, rest: Seq<u8>)
    requires
        schema_len_ok(s),
    ensures
        dec_coldefs(enc_schema(s) + rest, s.len()) == Some((s, rest)),
    decreases s.len(),
{
    if s.len() == 0 {
        assert(enc_schema(s) + rest =~= rest);
    } else {
        let tail = s.skip(1);
        assert(enc_schema(s) + rest =~= enc_coldef(s[0]) + (enc_schema(tail) + rest));
        lemma_dec_enc_coldef(s[0], enc_schema(tail) + rest);
        assert(schema_len_ok(tail)) by {
            assert(forall|i: int| 0 <= i < tail.len() ==> tail[i] == s[i + 1]);
        }
        lemma_dec_enc_coldefs(tail, rest);
        assert(seq![s[0]] + tail =~= s);
    }
}

proof fn lemma_dec_enc_stats1(st: StatsV, rest: Seq<u8>)
    requires
        st.min matches Some(c) ==> cell_len_ok(c),
        st.max matches Some(c) ==> cell_len_ok(c),
    ensures
        dec_stats1(enc_stats1(st) + rest) == Some((st, rest)),
{
    assert(enc_stats1(st) + rest =~= enc_u64(st.null_count) + (enc_opt_cell(st.min) + (
    enc_opt_cell(st.max) + rest)));
    lemma_dec_enc_u64(st.null_count, enc_opt_cell(st.min) + (enc_opt_cell(st.max) + rest));
    lemma_dec_enc_opt_cell(st.min, enc_opt_cell(st.max) + rest);
    lemma_dec_enc_opt_cell(st.max, rest);
}

#[verifier::rlimit(30)]
proof fn lemma_dec_enc_stats(sts: Seq<StatsV>, rest: Seq<u8>)
    requires
        stats_len_ok(sts),
    ensures
        dec_stats(enc_stats(sts) + rest, sts.len()) == Some((sts, rest)),
    decreases sts.len(),
{
    if sts.len() == 0 {
        assert(enc_stats(sts) + rest =~= rest);
    } else {
        let tail = sts.skip(1);
        assert(enc_stats(sts) + rest =~= enc_stats1(sts[0]) + (enc_stats(tail) + rest));
        lemma_dec_enc_stats1(sts[0], enc_stats(tail) + rest);
        assert(stats_len_ok(tail)) by {
            assert(forall|i: int| 0 <= i < tail.len() ==> tail[i] == sts[i + 1]);
        }
        lemma_dec_enc_stats(tail, rest);
        assert(seq![sts[0]] + tail =~= sts);
    }
}

proof fn lemma_dec_enc_columns(rows: Seq<Seq<CellV>>, ncols: int, j: int, rest: Seq<u8>)
    requires
        0 <= j <= ncols,
        rows_len_ok(rows),
        forall|i: int| 0 <= i < rows.len() ==> (#[trigger] rows[i]).len() == ncols,
    ensures
        dec_columns(enc_columns_from(rows, ncols, j) + rest, (ncols - j) as nat, rows.len())
            matches Some(v) && v.0 == Seq::new((ncols - j) as nat, |k: int| column_of(rows, j + k)) && v.1
            == rest,
    decreases ncols - j,
{
    if j == ncols {
        assert(enc_columns_from(rows, ncols, j) + rest =~= rest);
        assert(Seq::new(0nat, |k: int| column_of(rows, j + k)) =~= Seq::empty());
    } else {
        let col = column_of(rows, j);
        assert(col.len() == rows.len());
        assert(cells_len_ok(col)) by {
            assert forall|i: int| 0 <= i < col.len() implies cell_len_ok(#[trigger] col[i]) by {
                assert(col[i] == rows[i][j]);
                assert(cells_len_ok(rows[i]));
            }
        }
        assert(enc_columns_from(rows, ncols, j) + rest =~= enc_cells(col) + (enc_columns_from(
            rows,
            ncols,
            j + 1,
        ) + rest));
        lemma_dec_enc_cells(col, enc_columns_from(rows, ncols, j + 1) + rest);
        lemma_dec_enc_columns(rows, ncols, j + 1, rest);
        let tail_cols = Seq::new((ncols - j - 1) as nat, |k: int| column_of(rows, j + 1 + k));
        assert(seq![col] + tail_cols =~= Seq::new((ncols - j) as nat, |k: int| column_of(rows, j + k)))
            by {
            let lhs = seq![col] + tail_cols;
            let rhs = Seq::new((ncols - j) as nat, |k: int| column_of(rows, j + k));
            assert(lhs.len() == rhs.len());
            assert forall|k: int| 0 <= k < rhs.len() implies lhs[k] == rhs[k] by {
                if k > 0 {
                    assert(lhs[k] == tail_cols[k - 1]);
                }
            }
        }
    }
}

/// Decoding an encoded file yields the schema, the statistics and the rows
/// unchanged: the round trip over the columnar byte image.
pub proof fn lemma_file_round_trip(schema: Seq<ColumnDefV>, sts: Seq<StatsV>, rows: Seq<Seq<CellV>>)
    requires
        1 <= schema.len() <= u64::MAX,
        rows.len() <= u64::MAX,
        sts.len() == schema.len(),
        schema_len_ok(schema),
        stats_len_ok(sts),
        rows_len_ok(rows),
        forall|i: int| 0 <= i < rows.len() ==> (#[trigger] rows[i]).len() == schema.len(),
    ensures
        dec_file(enc_file(schema, sts, rows)) matches Some(f) && f.schema == schema && f.stats
            == sts && f.rows == rows,
{
    let ncols = schema.len() as int;
    let nrows = rows.len();
    let b5 = enc_columns_from(rows, ncols, 0);
    let b4 = enc_stats(sts) + b5;
    let b3 = enc_u64(nrows as u64) + b4;
    let b2 = enc_schema(schema) + b3;
    let b1 = enc_u64(schema.len() as u64) + b2;
    let b = enc_u64(FORMAT_VERSION) + b1;
    assert(enc_file(schema, sts, rows) =~= b);
    lemma_dec_enc_u64(FORMAT_VERSION, b1);
    lemma_dec_enc_u64(schema.len() as u64, b2);
    lemma_dec_enc_coldefs(schema, b3);
    lemma_dec_enc_u64(nrows as u64, b4);
    lemma_dec_enc_stats(sts, b5);
    lemma_dec_enc_columns(rows, ncols, 0, Seq::empty());
    assert(b5 + Seq::<u8>::empty() =~= b5);
    let cols = Seq::new(ncols as nat, |k: int| column_of(rows, 0 + k));
    assert(rows_of_columns(cols, nrows) =~= rows) by {
        let back = rows_of_columns(cols, nrows);
        assert(back.len() == rows.len());
        assert forall|i: int| 0 <= i < nrows implies back[i] == rows[i] by {
            let bi = Seq::new(cols.len(), |j: int| cols[j][i]);
            assert(back[i] == bi);
            assert(bi.len() == rows[i].len());
            assert forall|j: int| 0 <= j < bi.len() implies bi[j] == rows[i][j] by {
                assert(cols[j] == column_of(rows, 0 + j));
                assert(column_of(rows, j)[i] == rows[i][j]);
            }
            assert(bi =~= rows[i]);
        }
    }
}

// ---------------------------------------------------------------------------
// Appending one item to an encoded list appends its bytes.
// ---------------------------------------------------------------------------
proof fn lemma_enc_schema_snoc(s: Seq<ColumnDefV>, c: ColumnDefV)
    ensures
        enc_schema(s.push(c)) == enc_schema(s) + enc_coldef(c),
    decreases s.len(),
{
    if s.len() == 0 {
        assert(s.push(c)[0] == c);
        assert(s.push(c).skip(1) =~= Seq::<ColumnDefV>::empty());
        assert(enc_schema(s.push(c).skip(1)) == Seq::<u8>::empty());
        assert(enc_schema(s.push(c)) == enc_coldef(s.push(c)[0]) + enc_schema(s.push(c).skip(1)));
        assert(enc_schema(s.push(c)) =~= enc_coldef(c));
        assert(enc_schema(s) + enc_coldef(c) =~= enc_coldef(c));
    } else {
        assert(s.push(c)[0] == s[0]);
        assert(s.push(c).skip(1) =~= s.skip(1).push(c));
        lemma_enc_schema_snoc(s.skip(1), c);
        assert(enc_schema(s.push(c)) =~= enc_coldef(s[0]) + (enc_schema(s.skip(1)) + enc_coldef(
            c,
        )));
        assert(enc_schema(s) + enc_coldef(c) =~= enc_coldef(s[0]) + (enc_schema(s.skip(1))
            + enc_coldef(c)));
    }
}

proof fn lemma_enc_stats_snoc(sts: Seq<StatsV>, st: StatsV)
    ensures
        enc_stats(sts.push(st)) == enc_stats(sts) + enc_stats1(st),
    decreases sts.len(),
{
    if sts.len() == 0 {
        assert(sts.push(st)[0] == st);
        assert(sts.push(st).skip(1) =~= Seq::<StatsV>::empty());
        assert(enc_stats(sts.push(st).skip(1)) == Seq::<u8>::empty());
        assert(enc_stats(sts.push(st)) == enc_stats1(sts.push(st)[0]) + enc_stats(
            sts.push(st).skip(1),
        ));
        assert(enc_stats(sts.push(st)) =~= enc_stats1(st));
        assert(enc_stats(sts) + enc_stats1(st) =~= enc_stats1(st));
    } else {
        assert(sts.push(st)[0] == sts[0]);
        assert(sts.push(st).skip(1) =~= sts.skip(1).push(st));
        lemma_enc_stats_snoc(sts.skip(1), st);
        assert(enc_stats(sts.push(st)) =~= enc_stats1(sts[0]) + (enc_stats(sts.skip(1))
            + enc_stats1(st)));
        assert(enc_stats(sts) + enc_stats1(st) =~= enc_stats1(sts[0]) + (enc_stats(sts.skip(1))
            + enc_stats1(st)));
    }
}

proof fn lemma_enc_cells_snoc(cs: Seq<CellV>, c: CellV)
    ensures
        enc_cells(cs.push(c)) == enc_cells(cs) + enc_cell(c),
    decreases cs.len(),
{
    if cs.len() == 0 {
        assert(cs.push(c)[0] == c);
        assert(cs.push(c).skip(1) =~= Seq::<CellV>::empty());
        assert(enc_cells(cs.push(c).skip(1)) == Seq::<u8>::empty());
        assert(enc_cells(cs.push(c)) == enc_cell(cs.push(c)[0]) + enc_cells(cs.push(c).skip(1)));
        assert(enc_cells(cs.push(c)) =~= enc_cell(c));
        assert(enc_cells(cs) + enc_cell(c) =~= enc_cell(c));
    } else {
        assert(cs.push(c)[0] == cs[0]);
        assert(cs.push(c).skip(1) =~= cs.skip(1).push(c));
        lemma_enc_cells_snoc(cs.skip(1), c);
        assert(enc_cells(cs.push(c)) =~= enc_cell(cs[0]) + (enc_cells(cs.skip(1)) + enc_cell(c)));
        assert(enc_cells(cs) + enc_cell(c) =~= enc_cell(cs[0]) + (enc_cells(cs.skip(1))
            + enc_cell(c)));
    }
}

// ---------------------------------------------------------------------------
// Statistics computation.
// ---------------------------------------------------------------------------
/// Computes the per-column statistics of a batch: null count and the
/// smallest and largest non-null value of each column, in schema order.
pub fn compute_stats(schema: &Schema, rows: &Vec<Row>) -> (stats: Vec<ColumnStats>)
    requires
        rows_fit_schema(rows_view(rows@), schema@),
    ensures
        stats_view(stats@) == file_stats(rows_view(rows@), schema@.len()),
        stats@.len() == schema@.len(),
{
    let ghost rv = rows_view(rows@);
    let ncols = schema.columns.len();
    let nrows = rows.len();
    let mut stats: Vec<ColumnStats> = Vec::new();
    for j in 0..ncols
        invariant
            rv == rows_view(rows@),
            rows_fit_schema(rv, schema@),
            ncols == schema@.len(),
            nrows == rows@.len(),
            stats@.len() == j,
            forall|jj: int| 0 <= jj < j ==> #[trigger] stats@[jj]@ == stats_of(rv, jj),
    {
        let ghost col = column_of(rv, j as int);
        let mut nulls: u64 = 0;
        let ghost counted: nat = 0nat;
        let mut min: Option<CellValue> = None;
        let mut max: Option<CellValue> = None;
        proof {
            assert(col.skip(0) =~= col);
        }
        for i in 0..nrows
            invariant
                rv == rows_view(rows@),
                rows_fit_schema(rv, schema@),
                ncols == schema@.len(),
                nrows == rows@.len(),
                j < ncols,
                col == column_of(rv, j as int),
                nulls == counted,
                counted <= i,
                counted + count_nulls(col.skip(i as int)) == count_nulls(col),
                fold_min(None, col) == fold_min(
                    match min {
                        Some(ref c) => Some(c@),
                        None => None::<CellV>,
                    },
                    col.skip(i as int),
                ),
                fold_max(None, col) == fold_max(
                    match max {
                        Some(ref c) => Some(c@),
                        None => None::<CellV>,
                    },
                    col.skip(i as int),
                ),
        {
            proof {
                assert(col.skip(i as int)[0] == col[i as int]);
                assert(col.skip(i as int).skip(1) =~= col.skip(i as int + 1));
                assert(rv[i as int] == rows@[i as int]@);
                assert(col[i as int] == rv[i as int][j as int]);
                assert(rv[i as int][j as int] == rows@[i as int].cells@[j as int]@);
            }
            let cell = &rows[i].cells[j];
            match cell {
                CellValue::Null => {
                    nulls = nulls + 1;
                    proof {
                        counted = counted + 1;
                    }
                },
                _ => {
                    min = match min {
                        None => Some(cell.clone()),
                        Some(m) => if cell_le_exec(&m, cell) {
                            Some(m)
                        } else {
                            Some(cell.clone())
                        },
                    };
                    max = match max {
                        None => Some(cell.clone()),
                        Some(m) => if cell_le_exec(&m, cell) {
                            Some(cell.clone())
                        } else {
                            Some(m)
                        },
                    };
                },
            }
        }
        proof {
            assert(col.skip(nrows as int) =~= Seq::<CellV>::empty());
        }
        stats.push(ColumnStats { null_count: nulls, min, max });
    }
    proof {
        assert(stats_view(stats@) =~= file_stats(rv, schema@.len()));
    }
    stats
}

// ---------------------------------------------------------------------------
// The data file and its byte image.
// ---------------------------------------------------------------------------
/// One immutable columnar file in the object store: its path, the layout
/// version, how many rows it holds, its size in bytes, and its per-column
/// statistics.  A data file is written once and never changed.
#[derive(Debug)]
pub struct DataFile {
    pub path: String,
    pub format_version: u64,
    pub row_count: u64,
    pub byte_size: u64,
    pub column_stats: Vec<ColumnStats>,
}

/// Model of a data file description.
pub struct DataFileV {
    pub path: Seq<char>,
    pub format_version: u64,
    pub row_count: u64,
    pub byte_size: u64,
    pub column_stats: Seq<StatsV>,
}

impl View for DataFile {
    type V = DataFileV;

    open spec fn view(&self) -> DataFileV {
        DataFileV {
            path: self.path@,
            format_version: self.format_version,
            row_count: self.row_count,
            byte_size: self.byte_size,
            column_stats: stats_view(self.column_stats@),
        }
    }
}

impl Clone for DataFile {
    fn clone(&self) -> (r: Self)
        ensures
            r@ == self@,
    {
        let mut column_stats: Vec<ColumnStats> = Vec::new();
        for k in 0..self.column_stats.len()
            invariant
                column_stats@.len() == k,
                forall|i: int|
                    0 <= i < k ==> #[trigger] column_stats@[i]@ == self.column_stats@[i]@,
        {
            column_stats.push(self.column_stats[k].clone());
        }
        let r = DataFile {
            path: self.path.clone(),
            format_version: self.format_version,
            row_count: self.row_count,
            byte_size: self.byte_size,
            column_stats,
        };
        proof {
            assert(stats_view(r.column_stats@) =~= stats_view(self.column_stats@));
        }
        r
    }
}

/// Encodes a batch of rows into one columnar file image and describes it as
/// a `DataFile` at the given path.  The image embeds the schema, the
/// per-column statistics and the cells column by column, and is finished
/// when this function returns: the described byte size is the image's exact
/// length, and decoding the image yields the rows back.
pub fn encode_data_file(schema: &Schema, rows: &Vec<Row>, path: String) -> (r: (DataFile, Vec<u8>))
    requires
        1 <= schema@.len(),
        rows_fit_schema(rows_view(rows@), schema@),
    ensures
        r.1@ == enc_file(schema@, stats_view(r.0.column_stats@), rows_view(rows@)),
        stats_view(r.0.column_stats@) == file_stats(rows_view(rows@), schema@.len()),
        r.0@.path == path@,
        r.0@.format_version == FORMAT_VERSION,
        r.0@.row_count == rows@.len(),
        r.0@.byte_size == r.1@.len(),
        schema_len_ok(schema@),
        stats_len_ok(stats_view(r.0.column_stats@)),
        rows_len_ok(rows_view(rows@)),
        schema@.len() <= u64::MAX,
        rows@.len() <= u64::MAX,
{
    let ghost rv = rows_view(rows@);
    let ncols = schema.columns.len();
    let nrows = rows.len();
    let stats = compute_stats(schema, rows);
    let mut out: Vec<u8> = Vec::new();
    write_u64(&mut out, FORMAT_VERSION);
    write_u64(&mut out, ncols as u64);
    let ghost base1 = enc_u64(FORMAT_VERSION) + enc_u64(schema@.len() as u64);
    proof {
        assert(out@ =~= base1 + enc_schema(schema@.take(0)));
    }
    for k in 0..ncols
        invariant
            ncols == schema@.len(),
            out@ == base1 + enc_schema(schema@.take(k as int)),
            forall|i: int| 0 <= i < k ==> coldef_len_ok(#[trigger] schema@[i]),
    {
        let col = &schema.columns[k];
        proof {
            assert(col@ == schema@[k as int]);
        }
        write_text(&mut out, col.name.as_str());
        let tag: u8 = match col.column_type {
            ColumnType::Text => 0,
            ColumnType::Int32 => 1,
            ColumnType::Int64 => 2,
            ColumnType::Boolean => 3,
        };
        write_u8(&mut out, tag);
        write_u8(&mut out, if col.required {
            1
        } else {
            0
        });
        proof {
            lemma_enc_schema_snoc(schema@.take(k as int), schema@[k as int]);
            assert(schema@.take(k as int).push(schema@[k as int]) =~= schema@.take(k as int + 1));
            assert(out@ =~= base1 + enc_schema(schema@.take(k as int + 1)));
        }
    }
    proof {
        assert(schema@.take(ncols as int) =~= schema@);
    }
    write_u64(&mut out, nrows as u64);
    let ghost base2 = base1 + enc_schema(schema@) + enc_u64(rows@.len() as u64);
    proof {
        assert(out@ =~= base2 + enc_stats(stats_view(stats@).take(0)));
    }
    for k in 0..ncols
        invariant
            ncols == schema@.len(),
            stats@.len() == ncols,
            out@ == base2 + enc_stats(stats_view(stats@).take(k as int)),
            forall|i: int|
                0 <= i < k ==> ((#[trigger] stats_view(stats@)[i].min matches Some(c)
                    ==> cell_len_ok(c)) && (stats_view(stats@)[i].max matches Some(c)
                    ==> cell_len_ok(c))),
    {
        let st = &stats[k];
        proof {
            assert(st@ == stats_view(stats@)[k as int]);
        }
        write_u64(&mut out, st.null_count);
        write_opt_cell(&mut out, &st.min);
        write_opt_cell(&mut out, &st.max);
        proof {
            lemma_enc_stats_snoc(stats_view(stats@).take(k as int), stats_view(stats@)[k as int]);
            assert(stats_view(stats@).take(k as int).push(stats_view(stats@)[k as int])
                =~= stats_view(stats@).take(k as int + 1));
            assert(out@ =~= base2 + enc_stats(stats_view(stats@).take(k as int + 1)));
        }
    }
    proof {
        assert(stats_view(stats@).take(ncols as int) =~= stats_view(stats@));
    }
    let ghost base3 = base2 + enc_stats(stats_view(stats@));
    proof {
        assert(out@ =~= base3 + enc_columns_from(rv, ncols as int, 0).take(0));
        assert(out@ + enc_columns_from(rv, ncols as int, 0) =~= base3 + enc_columns_from(
            rv,
            ncols as int,
            0,
        ));
    }
    for j in 0..ncols
        invariant
            rv == rows_view(rows@),
            rows_fit_schema(rv, schema@),
            ncols == schema@.len(),
            nrows == rows@.len(),
            out@ + enc_columns_from(rv, ncols as int, j as int) == base3 + enc_columns_from(
                rv,
                ncols as int,
                0,
            ),
            forall|ii: int, jj: int|
                0 <= jj < j && 0 <= ii < nrows ==> cell_len_ok(#[trigger] rv[ii][jj]),
    {
        let ghost col = column_of(rv, j as int);
        let ghost out_at_col = out@;
        proof {
            assert(out@ =~= out_at_col + enc_cells(col.take(0)));
        }
        for i in 0..nrows
            invariant
                rv == rows_view(rows@),
                rows_fit_schema(rv, schema@),
                ncols == schema@.len(),
                nrows == rows@.len(),
                j < ncols,
                col == column_of(rv, j as int),
                out@ == out_at_col + enc_cells(col.take(i as int)),
                forall|ii: int| 0 <= ii < i ==> cell_len_ok(#[trigger] rv[ii][j as int]),
        {
            proof {
                assert(rv[i as int] == rows@[i as int]@);
                assert(col[i as int] == rv[i as int][j as int]);
                assert(rv[i as int][j as int] == rows@[i as int].cells@[j as int]@);
            }
            write_cell(&mut out, &rows[i].cells[j]);
            proof {
                lemma_enc_cells_snoc(col.take(i as int), col[i as int]);
                assert(col.take(i as int).push(col[i as int]) =~= col.take(i as int + 1));
                assert(out@ =~= out_at_col + enc_cells(col.take(i as int + 1)));
            }
        }
        proof {
            assert(col.take(nrows as int) =~= col);
            assert(out@ + enc_columns_from(rv, ncols as int, j as int + 1) =~= out_at_col + (
            enc_cells(col) + enc_columns_from(rv, ncols as int, j as int + 1)));
        }
    }
    proof {
        assert(enc_columns_from(rv, ncols as int, ncols as int) =~= Seq::<u8>::empty());
        assert(out@ + Seq::<u8>::empty() =~= out@);
        assert(out@ =~= enc_file(schema@, stats_view(stats@), rv));
        assert(rows_len_ok(rv)) by {
            assert forall|ii: int| 0 <= ii < rv.len() implies cells_len_ok(#[trigger] rv[ii]) by {
                assert(rv[ii].len() == schema@.len());
                assert(forall|jj: int|
                    0 <= jj < rv[ii].len() ==> cell_len_ok(#[trigger] rv[ii][jj]));
            }
        }
    }
    let byte_size = out.len() as u64;
    let row_count = nrows as u64;
    let file = DataFile {
        path,
        format_version: FORMAT_VERSION,
        row_count,
        byte_size,
        column_stats: stats,
    };
    (file, out)
}

// ---------------------------------------------------------------------------
// Executable file decoding.
// ---------------------------------------------------------------------------
/// The models of a sequence of cell columns.
pub open spec fn cell_columns_view(cols: Seq<Vec<CellValue>>) -> Seq<Seq<CellV>> {
    cols.map_values(|col: Vec<CellValue>| cells_view(col@))
}

/// Reads `n` cells; decides `dec_cells`.
fn read_cells(b: &[u8], pos: usize, n: u64) -> (r: Option<(Vec<CellValue>, usize)>)
    requires
        pos <= b@.len(),
    ensures
        match r {
            Some(v) => pos <= v.1 <= b@.len() && v.0@.len() == n && dec_cells(
                b@.skip(pos as int),
                n as nat,
            ) == Some((cells_view(v.0@), b@.skip(v.1 as int))),
            None => dec_cells(b@.skip(pos as int), n as nat) is None,
        },
{
    let mut acc: Vec<CellValue> = Vec::new();
    let mut p = pos;
    let mut i: u64 = 0;
    while i < n
        invariant
            i <= n,
            pos <= p <= b@.len(),
            acc@.len() == i,
            dec_cells(b@.skip(pos as int), n as nat) == (match dec_cells(
                b@.skip(p as int),
                (n - i) as nat,
            ) {
                Some(v) => Some((cells_view(acc@) + v.0, v.1)),
                None => None::<(Seq<CellV>, Seq<u8>)>,
            }),
        decreases n - i,
    {
        match read_cell(b, p) {
            None => {
                return None;
            },
            Some((c, p2)) => {
                let ghost acc_old = acc@;
                acc.push(c);
                proof {
                    assert(cells_view(acc@) =~= cells_view(acc_old) + seq![c@]);
                    match dec_cells(b@.skip(p2 as int), (n - i - 1) as nat) {
                        Some(v) => {
                            assert(cells_view(acc_old) + (seq![c@] + v.0) =~= cells_view(acc@)
                                + v.0);
                        },
                        None => {},
                    }
                }
                p = p2;
                i = i + 1;
            },
        }
    }
    proof {
        assert(cells_view(acc@) + Seq::<CellV>::empty() =~= cells_view(acc@));
    }
    Some((acc, p))
}

/// Reads one column definition; decides `dec_coldef`.
fn read_coldef(b: &[u8], pos: usize) -> (r: Option<(ColumnDef, usize)>)
    requires
        pos <= b@.len(),
    ensures
        match r {
            Some(v) => pos <= v.1 <= b@.len() && dec_coldef(b@.skip(pos as int)) == Some(
                (v.0@, b@.skip(v.1 as int)),
            ),
            None => dec_coldef(b@.skip(pos as int)) is None,
        },
{
    let (name, p1) = match read_text(b, pos) {
        None => {
            return None;
        },
        Some(v) => v,
    };
    let (tag, p2) = match read_u8(b, p1) {
        None => {
            return None;
        },
        Some(v) => v,
    };
    let column_type = if tag == 0 {
        ColumnType::Text
    } else if tag == 1 {
        ColumnType::Int32
    } else if tag == 2 {
        ColumnType::Int64
    } else if tag == 3 {
        ColumnType::Boolean
    } else {
        return None;
    };
    let (q, p3) = match read_u8(b, p2) {
        None => {
            return None;
        },
        Some(v) => v,
    };
    if q == 1 {
        Some((ColumnDef { name, column_type, required: true }, p3))
    } else if q == 0 {
        Some((ColumnDef { name, column_type, required: false }, p3))
    } else {
        None
    }
}

/// Reads `n` column definitions; decides `dec_coldefs`.
fn read_coldefs(b: &[u8], pos: usize, n: u64) -> (r: Option<(Vec<ColumnDef>, usize)>)
    requires
        pos <= b@.len(),
    ensures
        match r {
            Some(v) => pos <= v.1 <= b@.len() && v.0@.len() == n && dec_coldefs(
                b@.skip(pos as int),
                n as nat,
            ) == Some((crate::schema::coldefs_view(v.0@), b@.skip(v.1 as int))),
            None => dec_coldefs(b@.skip(pos as int), n as nat) is None,
        },
{
    let mut acc: Vec<ColumnDef> = Vec::new();
    let mut p = pos;
    let mut i: u64 = 0;
    while i < n
        invariant
            i <= n,
            pos <= p <= b@.len(),
            acc@.len() == i,
            dec_coldefs(b@.skip(pos as int), n as nat) == (match dec_coldefs(
                b@.skip(p as int),
                (n - i) as nat,
            ) {
                Some(v) => Some((crate::schema::coldefs_view(acc@) + v.0, v.1)),
                None => None::<(Seq<ColumnDefV>, Seq<u8>)>,
            }),
        decreases n - i,
    {
        match read_coldef(b, p) {
            None => {
                return None;
            },
            Some((c, p2)) => {
                let ghost acc_old = acc@;
                acc.push(c);
                proof {
                    assert(crate::schema::coldefs_view(acc@) =~= crate::schema::coldefs_view(
                        acc_old,
                    ) + seq![c@]);
                    match dec_coldefs(b@.skip(p2 as int), (n - i - 1) as nat) {
                        Some(v) => {
                            assert(crate::schema::coldefs_view(acc_old) + (seq![c@] + v.0)
                                =~= crate::schema::coldefs_view(acc@) + v.0);
                        },
                        None => {},
                    }
                }
                p = p2;
                i = i + 1;
            },
        }
    }
    proof {
        assert(crate::schema::coldefs_view(acc@) + Seq::<ColumnDefV>::empty()
            =~= crate::schema::coldefs_view(acc@));
    }
    Some((acc, p))
}

/// Reads one column's statistics; decides `dec_stats1`.
fn read_stats1(b: &[u8], pos: usize) -> (r: Option<(ColumnStats, usize)>)
    requires
        pos <= b@.len(),
    ensures
        match r {
            Some(v) => pos <= v.1 <= b@.len() && dec_stats1(b@.skip(pos as int)) == Some(
                (v.0@, b@.skip(v.1 as int)),
            ),
            None => dec_stats1(b@.skip(pos as int)) is None,
        },
{
    let (null_count, p1) = match read_u64(b, pos) {
        None => {
            return None;
        },
        Some(v) => v,
    };
    let (min, p2) = match read_opt_cell(b, p1) {
        None => {
            return None;
        },
        Some(v) => v,
    };
    let (max, p3) = match read_opt_cell(b, p2) {
        None => {
            return None;
        },
        Some(v) => v,
    };
    Some((ColumnStats { null_count, min, max }, p3))
}

/// Reads `n` columns' statistics; decides `dec_stats`.
fn read_stats(b: &[u8], pos: usize, n: u64) -> (r: Option<(Vec<ColumnStats>, usize)>)
    requires
        pos <= b@.len(),
    ensures
        match r {
            Some(v) => pos <= v.1 <= b@.len() && v.0@.len() == n && dec_stats(
                b@.skip(pos as int),
                n as nat,
            ) == Some((stats_view(v.0@), b@.skip(v.1 as int))),
            None => dec_stats(b@.skip(pos as int), n as nat) is None,
        },
{
    let mut acc: Vec<ColumnStats> = Vec::new();
    let mut p = pos;
    let mut i: u64 = 0;
    while i < n
        invariant
            i <= n,
            pos <= p <= b@.len(),
            acc@.len() == i,
            dec_stats(b@.skip(pos as int), n as nat) == (match dec_stats(
                b@.skip(p as int),
                (n - i) as nat,
            ) {
                Some(v) => Some((stats_view(acc@) + v.0, v.1)),
                None => None::<(Seq<StatsV>, Seq<u8>)>,
            }),
        decreases n - i,
    {
        match read_stats1(b, p) {
            None => {
                return None;
            },
            Some((st, p2)) => {
                let ghost acc_old = acc@;
                acc.push(st);
                proof {
                    assert(stats_view(acc@) =~= stats_view(acc_old) + seq![st@]);
                    match dec_stats(b@.skip(p2 as int), (n - i - 1) as nat) {
                        Some(v) => {
                            assert(stats_view(acc_old) + (seq![st@] + v.0) =~= stats_view(acc@)
                                + v.0);
                        },
                        None => {},
                    }
                }
                p = p2;
                i = i + 1;
            },
        }
    }
    proof {
        assert(stats_view(acc@) + Seq::<StatsV>::empty() =~= stats_view(acc@));
    }
    Some((acc, p))
}

/// Reads `n` columns of `nrows` cells each; decides `dec_columns`.
fn read_columns(b: &[u8], pos: usize, n: u64, nrows: u64) -> (r: Option<(Vec<Vec<CellValue>>, usize)>)
    requires
        pos <= b@.len(),
    ensures
        match r {
            Some(v) => pos <= v.1 <= b@.len() && v.0@.len() == n && (forall|i: int|
                0 <= i < v.0@.len() ==> (#[trigger] v.0@[i])@.len() == nrows) && dec_columns(
                b@.skip(pos as int),
                n as nat,
                nrows as nat,
            ) == Some((cell_columns_view(v.0@), b@.skip(v.1 as int))),
            None => dec_columns(b@.skip(pos as int), n as nat, nrows as nat) is None,
        },
{
    let mut acc: Vec<Vec<CellValue>> = Vec::new();
    let mut p = pos;
    let mut i: u64 = 0;
    while i < n
        invariant
            i <= n,
            pos <= p <= b@.len(),
            acc@.len() == i,
            forall|k: int| 0 <= k < acc@.len() ==> (#[trigger] acc@[k])@.len() == nrows,
            dec_columns(b@.skip(pos as int), n as nat, nrows as nat) == (match dec_columns(
                b@.skip(p as int),
                (n - i) as nat,
                nrows as nat,
            ) {
                Some(v) => Some((cell_columns_view(acc@) + v.0, v.1)),
                None => None::<(Seq<Seq<CellV>>, Seq<u8>)>,
            }),
        decreases n - i,
    {
        match read_cells(b, p, nrows) {
            None => {
                return None;
            },
            Some((col, p2)) => {
                let ghost acc_old = acc@;
                let ghost colv = cells_view(col@);
                acc.push(col);
                proof {
                    assert(cell_columns_view(acc@) =~= cell_columns_view(acc_old) + seq![colv]);
                    match dec_columns(b@.skip(p2 as int), (n - i - 1) as nat, nrows as nat) {
                        Some(v) => {
                            assert(cell_columns_view(acc_old) + (seq![colv] + v.0)
                                =~= cell_columns_view(acc@) + v.0);
                        },
                        None => {},
                    }
                }
                p = p2;
                i = i + 1;
            },
        }
    }
    proof {
        assert(cell_columns_view(acc@) + Seq::<Seq<CellV>>::empty() =~= cell_columns_view(acc@));
    }
    Some((acc, p))
}

/// One decoded data file: the embedded schema and statistics, and the rows
/// reassembled from the column-major cells.
#[derive(Debug)]
pub struct DecodedFile {
    pub schema: Schema,
    pub stats: Vec<ColumnStats>,
    pub rows: Vec<Row>,
}

/// Decodes one columnar file image; decides `dec_file`.  Together with
/// `lemma_file_round_trip` this gives the executable round trip: decoding
/// the image written by `encode_data_file` yields equal schema, statistics
/// and rows.
pub fn decode_data_file(bytes: &Vec<u8>) -> (r: Option<DecodedFile>)
    ensures
        match r {
            Some(df) => dec_file(bytes@) matches Some(f) && f.schema == df.schema@ && f.stats
                == stats_view(df.stats@) && f.rows == rows_view(df.rows@),
            None => dec_file(bytes@) is None,
        },
{
    let b = bytes.as_slice();
    proof {
        assert(b@.skip(0) =~= b@);
    }
    let (v, p1) = match read_u64(b, 0) {
        None => {
            return None;
        },
        Some(x) => x,
    };
    if v != FORMAT_VERSION {
        return None;
    }
    let (ncols, p2) = match read_u64(b, p1) {
        None => {
            return None;
        },
        Some(x) => x,
    };
    if ncols == 0 {
        return None;
    }
    let (columns, p3) = match read_coldefs(b, p2, ncols) {
        None => {
            return None;
        },
        Some(x) => x,
    };
    let (nrows, p4) = match read_u64(b, p3) {
        None => {
            return None;
        },
        Some(x) => x,
    };
    let (stats, p5) = match read_stats(b, p4, ncols) {
        None => {
            return None;
        },
        Some(x) => x,
    };
    let (cols, p6) = match read_columns(b, p5, ncols, nrows) {
        None => {
            return None;
        },
        Some(x) => x,
    };
    if p6 != bytes.len() {
        proof {
            assert(b@.skip(p6 as int).len() != 0);
        }
        return None;
    }
    proof {
        assert(b@.skip(p6 as int).len() == 0);
    }
    let ghost cv = cell_columns_view(cols@);
    let nrows_usize = cols[0].len();
    proof {
        assert(cols@[0]@.len() == nrows);
        assert(cv[0] == cells_view(cols@[0]@));
        assert(cv[0].len() == nrows);
    }
    let ncols_usize = cols.len();
    let mut rows: Vec<Row> = Vec::new();
    for i in 0..nrows_usize
        invariant
            cv == cell_columns_view(cols@),
            ncols_usize == cols@.len(),
            nrows_usize == nrows,
            forall|k: int| 0 <= k < cols@.len() ==> (#[trigger] cols@[k])@.len() == nrows,
            rows@.len() == i,
            forall|ii: int|
                0 <= ii < i ==> #[trigger] rows@[ii]@ == Seq::new(
                    cv.len(),
                    |j: int| cv[j][ii],
                ),
    {
        let mut cells: Vec<CellValue> = Vec::new();
        for j in 0..ncols_usize
            invariant
                cv == cell_columns_view(cols@),
                ncols_usize == cols@.len(),
                nrows_usize == nrows,
                i < nrows,
                forall|k: int| 0 <= k < cols@.len() ==> (#[trigger] cols@[k])@.len() == nrows,
                cells@.len() == j,
                forall|jj: int|
                    0 <= jj < j ==> #[trigger] cells@[jj]@ == cv[jj][i as int],
        {
            proof {
                assert(cols@[j as int]@.len() == nrows);
                assert(cv[j as int] == cells_view(cols@[j as int]@));
            }
            cells.push(cols[j][i].clone());
        }
        rows.push(Row { cells });
        proof {
            assert(rows@[i as int]@ =~= Seq::new(cv.len(), |j: int| cv[j][i as int]));
        }
    }
    proof {
        assert(rows_view(rows@) =~= rows_of_columns(cv, nrows as nat));
    }
    Some((DecodedFile { schema: Schema { columns }, stats, rows }))
}

} // verus!
