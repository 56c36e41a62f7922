//! Batches of rows over the selected columns of a file.
//!
//! The cursor reads each selected column whole and keeps the window of rows
//! that belongs to the current batch. Columns are selected by index (all of
//! them at first) or by name. Turning a batch into Arrow arrays is left to the
//! caller; a batch here holds each column's name and its decoded values.

use vstd::prelude::*;
use crate::types::{ParquetError, ErrorModel, MetadataModel, ColumnModel, ParquetType};
use crate::reader::{ParquetReader, column_read_spec, reported_as};
use crate::decode::{ColumnData, ColumnDataModel, byte_vec_models};

verus! {

/// The rows of a column that fall in a batch starting at row `start` with
/// `rows` rows, cut off at the end of the column.
pub open spec fn window<T>(s: Seq<T>, start: int, rows: int) -> Seq<T> {
    let st = if start < s.len() {
        start
    } else {
        s.len() as int
    };
    let l = if rows < s.len() - st {
        rows
    } else {
        s.len() - st
    };
    s.subrange(st, st + l)
}

/// The window of a column's values, whatever their kind.
pub open spec fn data_window(c: ColumnDataModel, start: int, rows: int) -> ColumnDataModel {
    match c {
        ColumnDataModel::Boolean(s) => ColumnDataModel::Boolean(window(s, start, rows)),
        ColumnDataModel::Int32(s) => ColumnDataModel::Int32(window(s, start, rows)),
        ColumnDataModel::Int64(s) => ColumnDataModel::Int64(window(s, start, rows)),
        ColumnDataModel::Float(s) => ColumnDataModel::Float(window(s, start, rows)),
        ColumnDataModel::Double(s) => ColumnDataModel::Double(window(s, start, rows)),
        ColumnDataModel::ByteArray(s) => ColumnDataModel::ByteArray(window(s, start, rows)),
    }
}

/// One column of a batch: its name, its physical type and the values of the
/// batch's rows.
pub struct BatchColumn {
    pub name: String,
    pub physical_type: ParquetType,
    pub data: ColumnData,
}

/// What a column of a batch holds.
pub struct BatchColumnModel {
    pub name: Seq<char>,
    pub physical_type: ParquetType,
    pub data: ColumnDataModel,
}

impl View for BatchColumn {
    type V = BatchColumnModel;

    open spec fn view(&self) -> BatchColumnModel {
        BatchColumnModel { name: self.name@, physical_type: self.physical_type, data: self.data@ }
    }
}

/// A batch of rows: the selected columns, in the order of the selection, and
/// the number of rows the batch covers.
pub struct Batch {
    pub columns: Vec<BatchColumn>,
    pub num_rows: usize,
}

/// What a batch holds.
pub struct BatchModel {
    pub columns: Seq<BatchColumnModel>,
    pub num_rows: usize,
}

/// The models of a sequence of batch columns.
pub open spec fn batch_column_models(cols: Seq<BatchColumn>) -> Seq<BatchColumnModel> {
    cols.map_values(|c: BatchColumn| c@)
}

impl View for Batch {
    type V = BatchModel;

    open spec fn view(&self) -> BatchModel {
        BatchModel { columns: batch_column_models(self.columns@), num_rows: self.num_rows }
    }
}

/// Every column of a file, in order.
pub open spec fn all_columns(n: usize) -> Seq<usize> {
    Seq::new(n as nat, |i: int| i as usize)
}

/// The indices of the columns whose name is among `names`, in column order.
pub open spec fn names_selected(cols: Seq<ColumnModel>, names: Seq<Seq<char>>) -> Seq<usize>
    decreases cols.len(),
{
    if cols.len() == 0 {
        Seq::empty()
    } else {
        let prev = names_selected(cols.drop_last(), names);
        if names.contains(cols.last().name) {
            prev.push((cols.len() - 1) as usize)
        } else {
            prev
        }
    }
}

/// The text of each of a list of names.
pub open spec fn str_models(names: Seq<&str>) -> Seq<Seq<char>> {
    names.map_values(|s: &str| s@)
}

/// The column of a batch for the selected index `i`: none for an index at or
/// past the number of columns, else the column read whole and cut to the
/// batch's window.
#[verifier::opaque]
pub open spec fn batch_column(data: Seq<u8>, m: MetadataModel, i: usize, start: int, rows: int) -> Result<
    Option<BatchColumnModel>,
    ErrorModel,
> {
    if i >= m.num_columns {
        Ok(None)
    } else {
        match column_read_spec(data, m, i) {
            Err(e) => Err(e),
            Ok(c) => Ok(
                Some(
                    BatchColumnModel {
                        name: m.columns[i as int].name,
                        physical_type: m.columns[i as int].physical_type,
                        data: data_window(c, start, rows),
                    },
                ),
            ),
        }
    }
}

/// The columns of a batch for the selection `sel`, in order; the first column
/// that fails to read gives the error.
pub open spec fn batch_columns(data: Seq<u8>, m: MetadataModel, sel: Seq<usize>, start: int, rows: int) -> Result<
    Seq<BatchColumnModel>,
    ErrorModel,
>
    decreases sel.len(),
{
    if sel.len() == 0 {
        Ok(Seq::empty())
    } else {
        match batch_columns(data, m, sel.drop_last(), start, rows) {
            Err(e) => Err(e),
            Ok(prev) => match batch_column(data, m, sel.last(), start, rows) {
                Err(e) => Err(e),
                Ok(None) => Ok(prev),
                Ok(Some(c)) => Ok(prev.push(c)),
            },
        }
    }
}

/// A selection whose first columns fail to read fails with their error.
proof fn lemma_batch_prefix_error(data: Seq<u8>, m: MetadataModel, sel: Seq<usize>, k: int, start: int, rows: int)
    requires
        0 <= k <= sel.len(),
        batch_columns(data, m, sel.subrange(0, k), start, rows) is Err,
    ensures
        batch_columns(data, m, sel, start, rows) == batch_columns(data, m, sel.subrange(0, k), start, rows),
    decreases sel.len(),
{
    if k == sel.len() {
        assert(sel.subrange(0, k) =~= sel);
    } else {
        assert(sel.drop_last().subrange(0, k) =~= sel.subrange(0, k));
        lemma_batch_prefix_error(data, m, sel.drop_last(), k, start, rows);
    }
}

/// Where a batch that starts at `cur` ends: `batch_size` rows later, or at the
/// last row.
pub open spec fn batch_end(cur: usize, batch_size: usize, total: usize) -> int {
    if cur + batch_size < total {
        cur + batch_size
    } else {
        total as int
    }
}

/// The next batch of a cursor at row `cur`, and the row it leaves the cursor
/// at. There is none once every row has been passed, nor when no selected
/// column exists; the cursor stays where it is on an error.
pub open spec fn next_batch_spec(data: Seq<u8>, m: MetadataModel, sel: Seq<usize>, batch_size: usize, cur: usize) -> (
    Result<Option<BatchModel>, ErrorModel>,
    usize,
) {
    let total = m.num_rows as usize;
    if cur >= total {
        (Ok(None), cur)
    } else {
        let end = batch_end(cur, batch_size, total);
        let rows = end - cur;
        match batch_columns(data, m, sel, cur as int, rows) {
            Err(e) => (Err(e), cur),
            Ok(cols) => (
                if cols.len() == 0 {
                    Ok(None)
                } else {
                    Ok(Some(BatchModel { columns: cols, num_rows: rows as usize }))
                },
                end as usize,
            ),
        }
    }
}

/// The outcome of a batch read agrees with its specification.
pub open spec fn batch_agrees(r: Result<Option<Batch>, ParquetError>, s: Result<Option<BatchModel>, ErrorModel>) -> bool {
    match r {
        Ok(None) => s == Ok::<Option<BatchModel>, ErrorModel>(None),
        Ok(Some(b)) => s == Ok::<Option<BatchModel>, ErrorModel>(Some(b@)),
        Err(e) => s matches Err(se) && reported_as(e@, se),
    }
}

/// The number of values a column holds.
pub open spec fn data_len(c: ColumnDataModel) -> nat {
    match c {
        ColumnDataModel::Boolean(s) => s.len(),
        ColumnDataModel::Int32(s) => s.len(),
        ColumnDataModel::Int64(s) => s.len(),
        ColumnDataModel::Float(s) => s.len(),
        ColumnDataModel::Double(s) => s.len(),
        ColumnDataModel::ByteArray(s) => s.len(),
    }
}

/// Each column of a batch holds at most the batch's rows: the columns for a
/// selection hold at most `rows` values each, and are no more than the
/// selected indices.
pub proof fn lemma_batch_columns_fit(data: Seq<u8>, m: MetadataModel, sel: Seq<usize>, start: int, rows: int)
    requires
        start >= 0,
        rows >= 0,
    ensures
        batch_columns(data, m, sel, start, rows) matches Ok(cols) ==> {
            &&& cols.len() <= sel.len()
            &&& forall|j: int| 0 <= j < cols.len() ==> data_len(#[trigger] cols[j].data) <= rows
        },
    decreases sel.len(),
{
    if sel.len() > 0 {
        lemma_batch_columns_fit(data, m, sel.drop_last(), start, rows);
        reveal(batch_column);
        let i = sel.last();
        if i < m.num_columns {
            if let Ok(c) = column_read_spec(data, m, i) {
                lemma_window_len(c, start, rows);
            }
        }
    }
}

/// The selected indices that name a column, in the order of the selection.
pub open spec fn existing_columns(sel: Seq<usize>, n: usize) -> Seq<usize>
    decreases sel.len(),
{
    if sel.len() == 0 {
        Seq::empty()
    } else {
        let prev = existing_columns(sel.drop_last(), n);
        if sel.last() < n {
            prev.push(sel.last())
        } else {
            prev
        }
    }
}

/// A batch holds exactly the selected columns that exist, in the order of the
/// selection, each read whole and cut to the batch's window.
pub proof fn lemma_batch_projection(data: Seq<u8>, m: MetadataModel, sel: Seq<usize>, start: int, rows: int)
    ensures
        batch_columns(data, m, sel, start, rows) matches Ok(cols) ==> {
            let e = existing_columns(sel, m.num_columns);
            &&& cols.len() == e.len()
            &&& forall|j: int|
                0 <= j < cols.len() ==> {
                    &&& column_read_spec(data, m, e[j]) is Ok
                    &&& #[trigger] cols[j] == BatchColumnModel {
                        name: m.columns[e[j] as int].name,
                        physical_type: m.columns[e[j] as int].physical_type,
                        data: data_window(column_read_spec(data, m, e[j])->Ok_0, start, rows),
                    }
                }
        },
    decreases sel.len(),
{
    if sel.len() > 0 {
        lemma_batch_projection(data, m, sel.drop_last(), start, rows);
        reveal(batch_column);
    }
}

/// A column's window holds at most the window's rows.
proof fn lemma_window_len(c: ColumnDataModel, start: int, rows: int)
    requires
        start >= 0,
        rows >= 0,
    ensures
        data_len(data_window(c, start, rows)) <= rows,
{
}

/// A batch read moves the cursor forward by exactly the rows of the batch it
/// gives, never past the last row, and not at all on an error or once every
/// row has been passed; a batch has at most a full batch of rows, at least
/// one unless the batch size is zero, and each of its columns holds at most
/// its rows.
pub proof fn lemma_batch_advance(data: Seq<u8>, m: MetadataModel, sel: Seq<usize>, batch_size: usize, cur: usize)
    ensures
        ({
            let (s, p) = next_batch_spec(data, m, sel, batch_size, cur);
            let total = m.num_rows as usize;
            &&& cur <= p
            &&& cur < total ==> p <= total
            &&& cur >= total ==> p == cur && s == Ok::<Option<BatchModel>, ErrorModel>(None)
            &&& s is Err ==> p == cur
            &&& s matches Ok(Some(b)) ==> {
                &&& p == cur + b.num_rows
                &&& b.num_rows <= batch_size
                &&& batch_size > 0 ==> 0 < b.num_rows
                &&& forall|j: int| 0 <= j < b.columns.len() ==> data_len(#[trigger] b.columns[j].data) <= b.num_rows
            }
            &&& (cur < total && batch_size > 0 && s is Ok) ==> cur < p
        }),
{
    let total = m.num_rows as usize;
    if cur < total {
        let end = batch_end(cur, batch_size, total);
        lemma_batch_columns_fit(data, m, sel, cur as int, end - cur);
    }
}

/// Selecting by name picks, in increasing order, exactly the columns whose
/// name is in the list.
pub proof fn lemma_names_selected(cols: Seq<ColumnModel>, names: Seq<Seq<char>>)
    requires
        cols.len() <= usize::MAX,
    ensures
        ({
            let sel = names_selected(cols, names);
            &&& forall|k: int| 0 <= k < sel.len() ==> #[trigger] sel[k] < cols.len() && names.contains(cols[sel[k] as int].name)
            &&& forall|k1: int, k2: int| 0 <= k1 < k2 < sel.len() ==> sel[k1] < sel[k2]
            &&& forall|j: int| 0 <= j < cols.len() && names.contains(#[trigger] cols[j].name) ==> sel.contains(j as usize)
        }),
    decreases cols.len(),
{
    if cols.len() > 0 {
        let prev_cols = cols.drop_last();
        lemma_names_selected(prev_cols, names);
        let prev = names_selected(prev_cols, names);
        let sel = names_selected(cols, names);
        assert forall|k: int| 0 <= k < sel.len() implies #[trigger] sel[k] < cols.len() && names.contains(
            cols[sel[k] as int].name,
        ) by {
            if k < prev.len() {
                assert(sel[k] == prev[k]);
                assert(prev_cols[prev[k] as int] == cols[prev[k] as int]);
            }
        }
        assert forall|j: int| 0 <= j < cols.len() && names.contains(#[trigger] cols[j].name) implies sel.contains(
            j as usize,
        ) by {
            if j < cols.len() - 1 {
                assert(prev_cols[j] == cols[j]);
                assert(prev.contains(j as usize));
                let k = choose|k: int| 0 <= k < prev.len() && prev[k] == j as usize;
                assert(sel[k] == j as usize);
            } else {
                assert(sel[sel.len() - 1] == j as usize);
            }
        }
    }
}

/// The window of a vector.
fn take_window<T>(v: Vec<T>, start: usize, rows: usize) -> (r: Vec<T>)
    ensures
        r@ == window(v@, start as int, rows as int),
{
    let ghost whole = v@;
    let mut v = v;
    let st = if start < v.len() {
        start
    } else {
        v.len()
    };
    let mut tail = v.split_off(st);
    tail.truncate(rows);
    assert(tail@ =~= window(whole, start as int, rows as int));
    tail
}

/// The window of a column's values.
fn column_window(c: ColumnData, start: usize, rows: usize) -> (r: ColumnData)
    ensures
        r@ == data_window(c@, start as int, rows as int),
{
    match c {
        ColumnData::Boolean(v) => ColumnData::Boolean(take_window(v, start, rows)),
        ColumnData::Int32(v) => ColumnData::Int32(take_window(v, start, rows)),
        ColumnData::Int64(v) => ColumnData::Int64(take_window(v, start, rows)),
        ColumnData::Float(v) => ColumnData::Float(take_window(v, start, rows)),
        ColumnData::Double(v) => ColumnData::Double(take_window(v, start, rows)),
        ColumnData::ByteArray(v) => {
            let ghost whole = v@;
            let w = take_window(v, start, rows);
            assert(byte_vec_models(w@) =~= window(byte_vec_models(whole), start as int, rows as int));
            ColumnData::ByteArray(w)
        },
    }
}

/// Read the column of a batch for a selected index.
fn read_batch_column(reader: &ParquetReader, col_idx: usize, start: usize, rows: usize) -> (r: Result<
    Option<BatchColumn>,
    ParquetError,
>)
    ensures
        match r {
            Ok(None) => batch_column(reader.bytes(), reader.meta(), col_idx, start as int, rows as int) == Ok::<
                Option<BatchColumnModel>,
                ErrorModel,
            >(None),
            Ok(Some(c)) => batch_column(reader.bytes(), reader.meta(), col_idx, start as int, rows as int) == Ok::<
                Option<BatchColumnModel>,
                ErrorModel,
            >(Some(c@)),
            Err(e) => batch_column(reader.bytes(), reader.meta(), col_idx, start as int, rows as int) matches Err(se)
                && reported_as(e@, se),
        },
{
    proof {
        reveal(batch_column);
    }
    if col_idx >= reader.num_columns() {
        return Ok(None);
    }
    let col_data = match reader.read_column(col_idx) {
        Ok(c) => c,
        Err(e) => {
            return Err(e);
        },
    };
    let col_meta = &reader.metadata().columns[col_idx];
    let sliced = column_window(col_data, start, rows);
    Ok(Some(BatchColumn { name: col_meta.name.clone(), physical_type: col_meta.physical_type, data: sliced }))
}

/// Batch cursor with column projection pushdown.
///
/// Reads only the selected columns and yields batches of a configurable
/// number of rows.
pub struct SelectiveBatchIterator {
    reader: ParquetReader,
    batch_size: usize,
    current_row: usize,
    selected_columns: Vec<usize>,
}

impl SelectiveBatchIterator {
    /// The file the batches are read from.
    pub closed spec fn source(&self) -> ParquetReader {
        self.reader
    }

    /// The number of rows of a full batch.
    pub closed spec fn rows_per_batch(&self) -> usize {
        self.batch_size
    }

    /// The first row of the next batch.
    pub closed spec fn position(&self) -> usize {
        self.current_row
    }

    /// The indices of the selected columns, in the order the batches give them.
    pub closed spec fn selection(&self) -> Seq<usize> {
        self.selected_columns@
    }

    /// Create a new cursor that reads all columns.
    pub fn new(reader: ParquetReader, batch_size: usize) -> (r: Self)
        ensures
            r.source() == reader,
            r.rows_per_batch() == batch_size,
            r.position() == 0,
            r.selection() == all_columns(reader.meta().num_columns),
    {
        let num_cols = reader.num_columns();
        let mut selected_columns: Vec<usize> = Vec::new();
        let mut i: usize = 0;
        while i < num_cols
            invariant
                i <= num_cols,
                selected_columns@ =~= all_columns(num_cols).subrange(0, i as int),
            decreases num_cols - i,
        {
            selected_columns.push(i);
            i = i + 1;
        }
        SelectiveBatchIterator { reader, batch_size, current_row: 0, selected_columns }
    }

    /// Select specific columns by index (projection pushdown).
    pub fn with_columns(self, columns: Vec<usize>) -> (r: Self)
        ensures
            r.source() == self.source(),
            r.rows_per_batch() == self.rows_per_batch(),
            r.position() == self.position(),
            r.selection() == columns@,
    {
        let mut this = self;
        this.selected_columns = columns;
        this
    }

    /// Select the columns whose name is among `names`, in column order.
    pub fn with_column_names(self, names: Vec<&str>) -> (r: Self)
        ensures
            r.source() == self.source(),
            r.rows_per_batch() == self.rows_per_batch(),
            r.position() == self.position(),
            r.selection() == names_selected(self.source().meta().columns, str_models(names@)),
    {
        let mut this = self;
        let ghost wanted_names = str_models(names@);
        let mut wanted: Vec<String> = Vec::new();
        let mut k: usize = 0;
        while k < names.len()
            invariant
                k <= names@.len(),
                wanted_names == str_models(names@),
                wanted@.len() == k,
                forall|j: int| 0 <= j < k ==> wanted@[j]@ == wanted_names[j],
            decreases names@.len() - k,
        {
            wanted.push(String::from_str(names[k]));
            k = k + 1;
        }
        let col_names = this.reader.column_names();
        let ghost cols = this.reader.meta().columns;
        let mut selected: Vec<usize> = Vec::new();
        let mut i: usize = 0;
        while i < col_names.len()
            invariant
                i <= col_names@.len(),
                col_names@.len() == cols.len(),
                forall|j: int| 0 <= j < col_names@.len() ==> col_names@[j]@ == cols[j].name,
                wanted@.len() == wanted_names.len(),
                forall|j: int| 0 <= j < wanted@.len() ==> wanted@[j]@ == wanted_names[j],
                selected@ == names_selected(cols.subrange(0, i as int), wanted_names),
            decreases col_names@.len() - i,
        {
            let name = String::from_str(col_names[i]);
            let mut found = false;
            let mut k: usize = 0;
            while k < wanted.len()
                invariant
                    k <= wanted@.len(),
                    found <==> exists|j: int| 0 <= j < k && wanted@[j]@ == name@,
                decreases wanted@.len() - k,
            {
                if wanted[k] == name {
                    found = true;
                }
                k = k + 1;
            }
            proof {
                assert(cols.subrange(0, i + 1).drop_last() =~= cols.subrange(0, i as int));
                if found {
                    let j = choose|j: int| 0 <= j < wanted@.len() && wanted@[j]@ == name@;
                    assert(wanted_names[j] == cols[i as int].name);
                } else {
                    assert forall|j: int| 0 <= j < wanted_names.len() implies wanted_names[j] != cols[i as int].name by {
                        assert(wanted@[j]@ == wanted_names[j]);
                    }
                }
            }
            if found {
                selected.push(i);
            }
            i = i + 1;
        }
        proof {
            assert(cols.subrange(0, cols.len() as int) =~= cols);
        }
        this.selected_columns = selected;
        this
    }

    /// Read the next batch of rows: the window of each selected column that
    /// starts at the cursor's row and runs for up to a batch of rows.
    pub fn next_batch(&mut self) -> (r: Result<Option<Batch>, ParquetError>)
        ensures
            final(self).source() == old(self).source(),
            final(self).rows_per_batch() == old(self).rows_per_batch(),
            final(self).selection() == old(self).selection(),
            ({
                let (s, p) = next_batch_spec(
                    old(self).source().bytes(),
                    old(self).source().meta(),
                    old(self).selection(),
                    old(self).rows_per_batch(),
                    old(self).position(),
                );
                &&& batch_agrees(r, s)
                &&& final(self).position() == p
            }),
    {
        let total = #[verifier::truncate] (self.reader.num_rows() as usize);
        if self.current_row >= total {
            return Ok(None);
        }
        let end_row = if self.batch_size < total - self.current_row {
            self.current_row + self.batch_size
        } else {
            total
        };
        let batch_rows = end_row - self.current_row;
        let ghost data = self.reader.bytes();
        let ghost m = self.reader.meta();
        let ghost sel = self.selected_columns@;
        let mut columns: Vec<BatchColumn> = Vec::new();
        assert(batch_column_models(columns@) =~= Seq::<BatchColumnModel>::empty());
        assert(sel.subrange(0, 0) =~= Seq::<usize>::empty());
        let n = self.selected_columns.len();
        let mut k: usize = 0;
        while k < n
            invariant
                n == sel.len(),
                k <= n,
                sel == self.selected_columns@,
                data == self.reader.bytes(),
                m == self.reader.meta(),
                *self == *old(self),
                total == m.num_rows as usize,
                self.current_row < total,
                end_row == batch_end(self.current_row, self.batch_size, total),
                batch_rows == end_row - self.current_row,
                batch_columns(data, m, sel.subrange(0, k as int), self.current_row as int, batch_rows as int)
                    == Ok::<Seq<BatchColumnModel>, ErrorModel>(batch_column_models(columns@)),
            decreases n - k,
        {
            let col_idx = self.selected_columns[k];
            proof {
                assert(sel.subrange(0, k + 1).drop_last() =~= sel.subrange(0, k as int));
            }
            match read_batch_column(&self.reader, col_idx, self.current_row, batch_rows) {
                Ok(Some(c)) => {
                    let ghost before = batch_column_models(columns@);
                    let ghost cm = c@;
                    columns.push(c);
                    assert(batch_column_models(columns@) =~= before.push(cm));
                },
                Ok(None) => {},
                Err(e) => {
                    proof {
                        let pre = sel.subrange(0, k + 1);
                        assert(pre.last() == col_idx);
                        assert(pre.drop_last() =~= sel.subrange(0, k as int));
                        let se = batch_column(data, m, col_idx, self.current_row as int, batch_rows as int)->Err_0;
                        assert(batch_columns(data, m, pre, self.current_row as int, batch_rows as int) == Err::<
                            Seq<BatchColumnModel>,
                            ErrorModel,
                        >(se));
                        lemma_batch_prefix_error(data, m, sel, k + 1, self.current_row as int, batch_rows as int);
                        assert(batch_columns(data, m, sel, self.current_row as int, batch_rows as int) == Err::<
                            Seq<BatchColumnModel>,
                            ErrorModel,
                        >(se));
                        assert(reported_as(e@, se));
                    }
                    return Err(e);
                },
            }
            k = k + 1;
        }
        proof {
            assert(sel.subrange(0, n as int) =~= sel);
        }
        self.current_row = end_row;
        if columns.len() == 0 {
            return Ok(None);
        }
        Ok(Some(Batch { columns, num_rows: batch_rows }))
    }

    /// Reset the cursor to the first row.
    pub fn reset(&mut self)
        ensures
            final(self).source() == old(self).source(),
            final(self).rows_per_batch() == old(self).rows_per_batch(),
            final(self).selection() == old(self).selection(),
            final(self).position() == 0,
    {
        self.current_row = 0;
    }
}

} // verus!
