//! Result metadata and rows: the per-column descriptions a RESULT carries,
//! the rows decoded under them, and column lookup by name. The metadata of
//! one response is shared by all of its rows through a reference-counted
//! pointer; rows never outgrow or fall short of their metadata's column
//! count.

use std::rc::Rc;

use vstd::prelude::*;

use crate::bytes_be::{be32, read_u32};
use crate::descr::{descr_view, descrs_view, dec_descr, read_cql_col_type, CqlColDescr, DescrView};
use crate::primitives::{dec_string, read_cql_str};
use crate::types::Error;
use crate::value::{value_view, values_view, Value, ValueView};
use crate::value_read::{dec_tuple, dec_value, read_tuple_items};
use vstd::utf8::encode_utf8;

verus! {

broadcast use vstd::utf8::encode_utf8_decode_utf8;

/// What a RESULT says about one column: where it lives, its name, and its
/// type.
#[derive(Debug)]
pub struct CqlColMetadata {
    /// The column's keyspace; absent under a global table spec.
    pub keyspace: Option<String>,
    /// The column's table; absent under a global table spec.
    pub table: Option<String>,
    pub col_name: String,
    pub col_type: CqlColDescr,
}

/// The mathematical form of one column's metadata.
pub struct ColMetaView {
    pub keyspace: Option<Seq<char>>,
    pub table: Option<Seq<char>>,
    pub col_name: Seq<char>,
    pub col_type: DescrView,
}

/// The metadata of a Rows or Prepared result.
#[derive(Debug)]
pub struct Metadata {
    pub flags: u32,
    pub column_count: u32,
    /// The keyspace shared by every column, when the global bit is set.
    pub keyspace: Option<String>,
    /// The table shared by every column, when the global bit is set.
    pub table: Option<String>,
    pub row_metadata: Vec<CqlColMetadata>,
}

/// The mathematical form of result metadata.
pub struct MetadataView {
    pub flags: u32,
    pub column_count: u32,
    pub keyspace: Option<Seq<char>>,
    pub table: Option<Seq<char>>,
    pub row_metadata: Seq<ColMetaView>,
}

/// One decoded row, sharing its response's metadata.
#[derive(Debug)]
pub struct Row {
    pub cols: Vec<Value>,
    pub metadata: Rc<Metadata>,
}

/// The mathematical form of a row.
pub struct RowView {
    pub cols: Seq<ValueView>,
    pub metadata: MetadataView,
}

/// A Rows result: metadata and the rows decoded under it.
#[derive(Debug)]
pub struct Rows {
    pub metadata: Rc<Metadata>,
    pub rows: Vec<Row>,
}

/// The mathematical form of a Rows result.
pub struct RowsView {
    pub metadata: MetadataView,
    pub rows: Seq<RowView>,
}

/// The view of an optional string.
pub open spec fn opt_str_view(s: Option<String>) -> Option<Seq<char>> {
    match s {
        Some(x) => Some(x@),
        None => None,
    }
}

impl View for CqlColMetadata {
    type V = ColMetaView;

    open spec fn view(&self) -> ColMetaView {
        ColMetaView {
            keyspace: opt_str_view(self.keyspace),
            table: opt_str_view(self.table),
            col_name: self.col_name@,
            col_type: descr_view(self.col_type),
        }
    }
}

/// The views of a run of column metadata entries.
pub open spec fn col_metas_view(cs: Seq<CqlColMetadata>) -> Seq<ColMetaView> {
    Seq::new(cs.len(), |i: int| cs[i]@)
}

impl View for Metadata {
    type V = MetadataView;

    open spec fn view(&self) -> MetadataView {
        MetadataView {
            flags: self.flags,
            column_count: self.column_count,
            keyspace: opt_str_view(self.keyspace),
            table: opt_str_view(self.table),
            row_metadata: col_metas_view(self.row_metadata@),
        }
    }
}

impl View for Row {
    type V = RowView;

    open spec fn view(&self) -> RowView {
        RowView { cols: values_view(self.cols@), metadata: self.metadata@ }
    }
}

/// The views of a run of rows.
pub open spec fn rows_seq_view(rs: Seq<Row>) -> Seq<RowView> {
    Seq::new(rs.len(), |i: int| rs[i]@)
}

impl View for Rows {
    type V = RowsView;

    open spec fn view(&self) -> RowsView {
        RowsView { metadata: self.metadata@, rows: rows_seq_view(self.rows@) }
    }
}

/// The column type descriptors of a metadata view, in column order.
pub open spec fn meta_descrs(m: MetadataView) -> Seq<DescrView> {
    Seq::new(m.row_metadata.len(), |i: int| m.row_metadata[i].col_type)
}

/// Relies on Rc::clone: the returned pointer shares the same allocation, so
/// it carries the very same metadata value.
#[verifier::external_body]
fn rc_clone_metadata(rc: &Rc<Metadata>) -> (r: Rc<Metadata>)
    ensures
        r@ == rc@,
{
    Rc::clone(rc)
}

/// The decoding of one `[string]` that may be absent: under a global table
/// spec nothing is read.
pub open spec fn dec_opt_string(b: Seq<u8>, pos: int, present: bool) -> Result<
    (Option<Seq<char>>, int),
    Error,
> {
    if present {
        match dec_string(b, pos) {
            Ok((s, p)) => Ok((Some(s), p)),
            Err(e) => Err(e),
        }
    } else {
        Ok((None, pos))
    }
}

/// The decoding of one column's metadata: its own keyspace and table pair —
/// absent when the global bit is set — then its name and type descriptor.
pub open spec fn dec_col_metadata(b: Seq<u8>, pos: int, global: bool) -> Result<
    (ColMetaView, int),
    Error,
> {
    match dec_opt_string(b, pos, !global) {
        Ok((ks, p1)) => match dec_opt_string(b, p1, !global) {
            Ok((tb, p2)) => match dec_string(b, p2) {
                Ok((name, p3)) => match dec_descr(b, p3) {
                    Ok((ty, p4)) => Ok((
                        ColMetaView { keyspace: ks, table: tb, col_name: name, col_type: ty },
                        p4,
                    )),
                    Err(e) => Err(e),
                },
                Err(e) => Err(e),
            },
            Err(e) => Err(e),
        },
        Err(e) => Err(e),
    }
}

/// The decoding of `n` consecutive columns' metadata.
pub open spec fn dec_col_metas(b: Seq<u8>, pos: int, n: nat, global: bool) -> Result<
    (Seq<ColMetaView>, int),
    Error,
>
    decreases n,
{
    if n == 0 {
        Ok((Seq::empty(), pos))
    } else {
        match dec_col_metadata(b, pos, global) {
            Ok((c, p)) => match dec_col_metas(b, p, (n - 1) as nat, global) {
                Ok((rest, end)) => Ok((seq![c] + rest, end)),
                Err(e) => Err(e),
            },
            Err(e) => Err(e),
        }
    }
}

/// The decoding of result metadata: flags and column count, the global
/// keyspace and table pair when the global bit is set, then one entry per
/// column.
pub open spec fn dec_metadata(b: Seq<u8>, pos: int) -> Result<(MetadataView, int), Error> {
    if pos + 8 > b.len() {
        Err(Error::UnexpectedEOF)
    } else {
        let flags = be32(b.subrange(pos, pos + 4));
        let count = be32(b.subrange(pos + 4, pos + 8));
        let global = flags % 2 == 1;
        match dec_opt_string(b, pos + 8, global) {
            Ok((ks, p1)) => match dec_opt_string(b, p1, global) {
                Ok((tb, p2)) => match dec_col_metas(b, p2, count as nat, global) {
                    Ok((cols, end)) => Ok((
                        MetadataView {
                            flags: flags as u32,
                            column_count: count as u32,
                            keyspace: ks,
                            table: tb,
                            row_metadata: cols,
                        },
                        end,
                    )),
                    Err(e) => Err(e),
                },
                Err(e) => Err(e),
            },
            Err(e) => Err(e),
        }
    }
}

/// The decoding of `n` consecutive rows, each one cell per descriptor.
pub open spec fn dec_row_cells(descrs: Seq<DescrView>, b: Seq<u8>, pos: int, n: nat) -> Result<
    (Seq<Seq<ValueView>>, int),
    Error,
>
    decreases n,
{
    if n == 0 {
        Ok((Seq::empty(), pos))
    } else {
        match dec_tuple(descrs, b, pos) {
            Ok((cells, p)) => match dec_row_cells(descrs, b, p, (n - 1) as nat) {
                Ok((rest, end)) => Ok((seq![cells] + rest, end)),
                Err(e) => Err(e),
            },
            Err(e) => Err(e),
        }
    }
}

/// The decoding of a Rows result body: metadata, a 32-bit row count, then
/// that many rows of one cell per column.
pub open spec fn dec_rows(b: Seq<u8>, pos: int) -> Result<(RowsView, int), Error> {
    match dec_metadata(b, pos) {
        Ok((m, p1)) => {
            if p1 + 4 > b.len() {
                Err(Error::UnexpectedEOF)
            } else {
                let n = be32(b.subrange(p1, p1 + 4));
                match dec_row_cells(meta_descrs(m), b, p1 + 4, n as nat) {
                    Ok((rows, end)) => Ok((
                        RowsView {
                            metadata: m,
                            rows: Seq::new(rows.len(), |i: int| RowView { cols: rows[i], metadata: m }),
                        },
                        end,
                    )),
                    Err(e) => Err(e),
                }
            }
        },
        Err(e) => Err(e),
    }
}

/// Reads one optional `[string]`.
fn read_opt_string(buf: &[u8], pos: usize, present: bool) -> (r: Result<
    (Option<String>, usize),
    Error,
>)
    ensures
        (match r {
            Ok((s, p)) => dec_opt_string(buf@, pos as int, present) == Ok::<_, Error>((
                opt_str_view(s),
                p as int,
            )),
            Err(e) => dec_opt_string(buf@, pos as int, present) == Err::<
                (Option<Seq<char>>, int),
                _,
            >(e),
        }),
{
    if present {
        match read_cql_str(buf, pos) {
            Ok((s, p)) => Ok((Some(s), p)),
            Err(e) => Err(e),
        }
    } else {
        Ok((None, pos))
    }
}

/// Reads one column's metadata. The flags decide whether the column carries
/// its own keyspace and table pair.
pub fn read_cql_col_metadata(buf: &[u8], pos: usize, flags: u32) -> (r: Result<
    (CqlColMetadata, usize),
    Error,
>)
    ensures
        (match r {
            Ok((c, p)) => dec_col_metadata(buf@, pos as int, flags % 2 == 1) == Ok::<_, Error>((
                c@,
                p as int,
            )),
            Err(e) => dec_col_metadata(buf@, pos as int, flags % 2 == 1) == Err::<
                (ColMetaView, int),
                _,
            >(e),
        }),
{
    let global = flags % 2 == 1;
    let (keyspace, p1) = match read_opt_string(buf, pos, !global) {
        Ok(x) => x,
        Err(e) => {
            return Err(e);
        },
    };
    let (table, p2) = match read_opt_string(buf, p1, !global) {
        Ok(x) => x,
        Err(e) => {
            return Err(e);
        },
    };
    let (col_name, p3) = match read_cql_str(buf, p2) {
        Ok(x) => x,
        Err(e) => {
            return Err(e);
        },
    };
    let (col_type, p4) = match read_cql_col_type(buf, p3) {
        Ok(x) => x,
        Err(e) => {
            return Err(e);
        },
    };
    Ok((CqlColMetadata { keyspace, table, col_name, col_type }, p4))
}

/// Reads result metadata.
#[verifier::rlimit(60)]
pub fn read_cql_metadata(buf: &[u8], pos: usize) -> (r: Result<(Metadata, usize), Error>)
    ensures
        (match r {
            Ok((m, p)) => dec_metadata(buf@, pos as int) == Ok::<_, Error>((m@, p as int)) && m@
                .row_metadata.len() == m@.column_count,
            Err(e) => dec_metadata(buf@, pos as int) == Err::<(MetadataView, int), _>(e),
        }),
{
    let (flags, p0) = match read_u32(buf, pos) {
        Ok(x) => x,
        Err(e) => {
            return Err(e);
        },
    };
    let (column_count, p1) = match read_u32(buf, p0) {
        Ok(x) => x,
        Err(e) => {
            return Err(e);
        },
    };
    let global = flags % 2 == 1;
    let (keyspace, p2) = match read_opt_string(buf, p1, global) {
        Ok(x) => x,
        Err(e) => {
            return Err(e);
        },
    };
    let (table, p3) = match read_opt_string(buf, p2, global) {
        Ok(x) => x,
        Err(e) => {
            return Err(e);
        },
    };
    let mut row_metadata: Vec<CqlColMetadata> = Vec::new();
    let mut p = p3;
    let mut i: u32 = 0;
    while i < column_count
        invariant
            0 <= i <= column_count,
            row_metadata@.len() == i as int,
            col_metas_view(row_metadata@).len() == i as int,
            global == (flags % 2 == 1),
            (match dec_col_metas(buf@, p3 as int, column_count as nat, global) {
                Ok((cols, end)) => dec_metadata(buf@, pos as int) == Ok::<_, Error>((
                    MetadataView {
                        flags: flags,
                        column_count: column_count,
                        keyspace: opt_str_view(keyspace),
                        table: opt_str_view(table),
                        row_metadata: cols,
                    },
                    end,
                )),
                Err(e) => dec_metadata(buf@, pos as int) == Err::<(MetadataView, int), _>(e),
            }),
            (match dec_col_metas(buf@, p3 as int, column_count as nat, global) {
                Ok((all, end)) => dec_col_metas(buf@, p as int, (column_count - i) as nat, global)
                    matches Ok((rest, e2)) && all == col_metas_view(row_metadata@) + rest && end
                    == e2,
                Err(e) => dec_col_metas(buf@, p as int, (column_count - i) as nat, global) == Err::<
                    (Seq<ColMetaView>, int),
                    _,
                >(e),
            }),
        decreases column_count - i,
    {
        let (c, p2b) = match read_cql_col_metadata(buf, p, flags) {
            Ok(x) => x,
            Err(e) => {
                proof {
                    assert(dec_col_metas(buf@, p as int, (column_count - i) as nat, global)
                        == Err::<(Seq<ColMetaView>, int), _>(e));
                }
                return Err(e);
            },
        };
        let ghost old_metas = row_metadata@;
        row_metadata.push(c);
        proof {
            assert(col_metas_view(row_metadata@) =~= col_metas_view(old_metas) + seq![c@]);
            if dec_col_metas(buf@, p3 as int, column_count as nat, global) is Ok {
                let (rest, e2) = dec_col_metas(
                    buf@,
                    p as int,
                    (column_count - i) as nat,
                    global,
                )->Ok_0;
                assert(col_metas_view(old_metas) + rest =~= col_metas_view(row_metadata@)
                    + dec_col_metas(buf@, p2b as int, (column_count - i - 1) as nat, global)->Ok_0.0);
            }
        }
        p = p2b;
        i = i + 1;
    }
    proof {
        assert(dec_col_metas(buf@, p as int, 0nat, global) == Ok::<_, Error>((
            Seq::<ColMetaView>::empty(),
            p as int,
        )));
        assert(col_metas_view(row_metadata@) + Seq::<ColMetaView>::empty() =~= col_metas_view(
            row_metadata@,
        ));
    }
    Ok((Metadata { flags, column_count, keyspace, table, row_metadata }, p))
}

/// A decoded tuple body has one cell per descriptor.
pub proof fn lemma_dec_tuple_len(ts: Seq<DescrView>, b: Seq<u8>, pos: int)
    ensures
        dec_tuple(ts, b, pos) matches Ok((cells, p)) ==> cells.len() == ts.len(),
    decreases ts.len(),
{
    if ts.len() > 0 {
        match dec_value(ts[0], b, pos) {
            Ok((v, p)) => {
                lemma_dec_tuple_len(ts.drop_first(), b, p);
            },
            Err(_) => {},
        }
    }
}

/// Reads a Rows result body. Every decoded row has exactly one cell per
/// column of the shared metadata.
#[verifier::rlimit(60)]
pub fn read_cql_rows(buf: &[u8], pos: usize) -> (r: Result<(Rows, usize), Error>)
    ensures
        (match r {
            Ok((rows, p)) => dec_rows(buf@, pos as int) == Ok::<_, Error>((rows@, p as int)) && (
            forall|i: int|
                0 <= i < rows@.rows.len() ==> #[trigger] rows@.rows[i].cols.len() == rows@
                    .metadata.column_count),
            Err(e) => dec_rows(buf@, pos as int) == Err::<(RowsView, int), _>(e),
        }),
{
    let (metadata, p0) = match read_cql_metadata(buf, pos) {
        Ok(x) => x,
        Err(e) => {
            return Err(e);
        },
    };
    let (rows_count, p1) = match read_u32(buf, p0) {
        Ok(x) => x,
        Err(e) => {
            return Err(e);
        },
    };
    let mut descrs: Vec<CqlColDescr> = Vec::new();
    let mut k: usize = 0;
    let ncols = metadata.row_metadata.len();
    while k < ncols
        invariant
            0 <= k <= ncols,
            ncols == metadata.row_metadata@.len(),
            descrs@.len() == k as int,
            forall|j: int|
                0 <= j < k ==> descr_view(#[trigger] descrs@[j]) == descr_view(
                    metadata.row_metadata@[j].col_type,
                ),
        decreases ncols - k,
    {
        descrs.push(clone_descr(&metadata.row_metadata[k].col_type));
        k = k + 1;
    }
    proof {
        crate::descr::lemma_descrs_view_len(descrs@);
        assert forall|j: int| 0 <= j < descrs@.len() implies #[trigger] descrs_view(descrs@)[j]
            == meta_descrs(metadata@)[j] by {
            crate::value_read::lemma_descrs_view_index(descrs@, j);
        }
        assert(descrs_view(descrs@) =~= meta_descrs(metadata@));
    }
    let md = Rc::new(metadata);
    let ghost mview = md@;
    let mut rows: Vec<Row> = Vec::new();
    let mut p = p1;
    let mut i: u32 = 0;
    while i < rows_count
        invariant
            0 <= i <= rows_count,
            rows@.len() == i as int,
            descrs_view(descrs@) == meta_descrs(mview),
            mview == md@,
            mview.row_metadata.len() == mview.column_count,
            descrs@.len() == mview.row_metadata.len(),
            forall|j: int| 0 <= j < rows@.len() ==> (#[trigger] rows@[j])@.metadata == mview,
            forall|j: int|
                0 <= j < rows@.len() ==> (#[trigger] rows@[j])@.cols.len() == mview.column_count,
            (match dec_row_cells(meta_descrs(mview), buf@, p1 as int, rows_count as nat) {
                Ok((all, end)) => dec_rows(buf@, pos as int) == Ok::<_, Error>((
                    RowsView {
                        metadata: mview,
                        rows: Seq::new(
                            all.len(),
                            |j: int| RowView { cols: all[j], metadata: mview },
                        ),
                    },
                    end,
                )),
                Err(e) => dec_rows(buf@, pos as int) == Err::<(RowsView, int), _>(e),
            }),
            (match dec_row_cells(meta_descrs(mview), buf@, p1 as int, rows_count as nat) {
                Ok((all, end)) => dec_row_cells(
                    meta_descrs(mview),
                    buf@,
                    p as int,
                    (rows_count - i) as nat,
                ) matches Ok((rest, e2)) && all == Seq::new(
                    rows@.len(),
                    |j: int| rows@[j]@.cols,
                ) + rest && end == e2,
                Err(e) => dec_row_cells(
                    meta_descrs(mview),
                    buf@,
                    p as int,
                    (rows_count - i) as nat,
                ) == Err::<(Seq<Seq<ValueView>>, int), _>(e),
            }),
        decreases rows_count - i,
    {
        let (cells, p2) = match read_tuple_items(&descrs, buf, p) {
            Ok(x) => x,
            Err(e) => {
                proof {
                    assert(dec_row_cells(
                        meta_descrs(mview),
                        buf@,
                        p as int,
                        (rows_count - i) as nat,
                    ) == Err::<(Seq<Seq<ValueView>>, int), _>(e));
                }
                return Err(e);
            },
        };
        proof {
            crate::value::lemma_values_view_len(cells@);
            lemma_dec_tuple_len(descrs_view(descrs@), buf@, p as int);
        }
        let ghost old_rows = rows@;
        let row = Row { cols: cells, metadata: rc_clone_metadata(&md) };
        rows.push(row);
        proof {
            if dec_row_cells(meta_descrs(mview), buf@, p1 as int, rows_count as nat) is Ok {
                let (rest, e2) = dec_row_cells(
                    meta_descrs(mview),
                    buf@,
                    p as int,
                    (rows_count - i) as nat,
                )->Ok_0;
                assert(Seq::new(old_rows.len(), |j: int| old_rows[j]@.cols) + rest =~= Seq::new(
                    rows@.len(),
                    |j: int| rows@[j]@.cols,
                ) + dec_row_cells(
                    meta_descrs(mview),
                    buf@,
                    p2 as int,
                    (rows_count - i - 1) as nat,
                )->Ok_0.0);
            }
        }
        p = p2;
        i = i + 1;
    }
    proof {
        assert(dec_row_cells(meta_descrs(mview), buf@, p as int, 0nat) == Ok::<_, Error>((
            Seq::<Seq<ValueView>>::empty(),
            p as int,
        )));
        assert(Seq::new(rows@.len(), |j: int| rows@[j]@.cols) + Seq::<Seq<ValueView>>::empty()
            =~= Seq::new(rows@.len(), |j: int| rows@[j]@.cols));
    }
    let result = Rows { metadata: md, rows };
    proof {
        let rv = result@;
        match dec_rows(buf@, pos as int) {
            Ok((expect, end)) => {
                assert(rv.rows.len() == expect.rows.len());
                assert(rv.rows =~= expect.rows);
                assert(rv.metadata == expect.metadata);
            },
            Err(_) => {},
        }
    }
    Ok((result, p))
}

/// Makes a copy of a descriptor that describes the same type.
pub fn clone_descr(d: &CqlColDescr) -> (r: CqlColDescr)
    ensures
        descr_view(r) == descr_view(*d),
    decreases *d,
{
    match d {
        CqlColDescr::Custom(name) => CqlColDescr::Custom(name.clone()),
        CqlColDescr::Single(ty) => CqlColDescr::Single(*ty),
        CqlColDescr::List(inner) => CqlColDescr::List(Box::new(clone_descr(&**inner))),
        CqlColDescr::MapOf(k, w) => CqlColDescr::MapOf(
            Box::new(clone_descr(&**k)),
            Box::new(clone_descr(&**w)),
        ),
        CqlColDescr::SetOf(inner) => CqlColDescr::SetOf(Box::new(clone_descr(&**inner))),
        CqlColDescr::Tuple(ts) => {
            let mut out: Vec<CqlColDescr> = Vec::new();
            let mut i: usize = 0;
            while i < ts.len()
                invariant
                    (*d) is Tuple,
                    (*d)->Tuple_0 == *ts,
                    0 <= i <= ts@.len(),
                    out@.len() == i as int,
                    forall|j: int|
                        0 <= j < i ==> descr_view(#[trigger] out@[j]) == descr_view(ts@[j]),
                decreases ts@.len() - i,
            {
                proof {
                    assert(decreases_to!(*d => (*d)->Tuple_0));
                    assert((*d)->Tuple_0 == *ts);
                    assert(decreases_to!(*ts => ts@));
                    assert(decreases_to!(ts@ => ts@[i as int]));
                }
                out.push(clone_descr(&ts[i]));
                i = i + 1;
            }
            proof {
                assert forall|j: int| 0 <= j < ts@.len() implies #[trigger] descrs_view(out@)[j]
                    == descrs_view(ts@)[j] by {
                    crate::value_read::lemma_descrs_view_index(out@, j);
                    crate::value_read::lemma_descrs_view_index(ts@, j);
                }
                crate::descr::lemma_descrs_view_len(out@);
                crate::descr::lemma_descrs_view_len(ts@);
                assert(descrs_view(out@) =~= descrs_view(ts@));
            }
            CqlColDescr::Tuple(out)
        },
    }
}

/// Whether two strings hold the same characters, decided by comparing their
/// UTF-8 bytes; the encoding is injective, so byte equality is character
/// equality.
pub fn str_eq(a: &str, b: &str) -> (r: bool)
    ensures
        r == (a@ == b@),
{
    proof {
        vstd::utf8::encode_utf8_decode_utf8(a@);
        vstd::utf8::encode_utf8_decode_utf8(b@);
    }
    let ab = a.as_bytes_vec();
    let bb = b.as_bytes_vec();
    if ab.len() != bb.len() {
        return false;
    }
    let mut i: usize = 0;
    while i < ab.len()
        invariant
            0 <= i <= ab@.len(),
            ab@.len() == bb@.len(),
            ab@ == encode_utf8(a@),
            bb@ == encode_utf8(b@),
            forall|j: int| 0 <= j < i ==> ab@[j] == bb@[j],
        decreases ab@.len() - i,
    {
        if ab[i] != bb[i] {
            proof {
                vstd::utf8::encode_utf8_decode_utf8(a@);
                vstd::utf8::encode_utf8_decode_utf8(b@);
                assert(a@ == b@ ==> ab@ == bb@);
            }
            return false;
        }
        i = i + 1;
    }
    proof {
        assert(ab@ =~= bb@);
        vstd::utf8::encode_utf8_decode_utf8(a@);
        vstd::utf8::encode_utf8_decode_utf8(b@);
    }
    true
}

/// The index of the first column of the given name, if any column bears it.
pub open spec fn find_col(cols: Seq<ColMetaView>, name: Seq<char>) -> Option<int>
    decreases cols.len(),
{
    if cols.len() == 0 {
        None
    } else if cols[0].col_name == name {
        Some(0int)
    } else {
        match find_col(cols.drop_first(), name) {
            Some(i) => Some(i + 1),
            None => None,
        }
    }
}

/// A found column index lies within the columns and bears the name, and no
/// earlier column does; when nothing is found, no column bears the name.
pub proof fn lemma_find_col(cols: Seq<ColMetaView>, name: Seq<char>)
    ensures
        find_col(cols, name) matches Some(i) ==> 0 <= i < cols.len() && cols[i].col_name == name
            && (forall|j: int| 0 <= j < i ==> cols[j].col_name != name),
        find_col(cols, name) is None ==> (forall|j: int|
            0 <= j < cols.len() ==> cols[j].col_name != name),
    decreases cols.len(),
{
    if cols.len() > 0 {
        lemma_find_col(cols.drop_first(), name);
        assert(forall|j: int|
            0 < j < cols.len() ==> cols[j] == cols.drop_first()[j - 1] && 0 <= j - 1
                < cols.drop_first().len());
    }
}

impl Row {
    /// The value of the first column bearing `col_name`, or nothing when no
    /// column does, or when the row is shorter than its metadata says.
    pub fn get_column(&self, col_name: &str) -> (r: Option<Value>)
        ensures
            (match find_col(self@.metadata.row_metadata, col_name@) {
                Some(i) => {
                    if i < self@.cols.len() {
                        r matches Some(v) && value_view(v) == self@.cols[i]
                    } else {
                        r is None
                    }
                },
                None => r is None,
            }),
    {
        let cols_meta = &self.metadata.row_metadata;
        let n = cols_meta.len();
        let ghost mcols = self@.metadata.row_metadata;
        proof {
            assert(mcols.len() == cols_meta@.len());
        }
        let mut i: usize = 0;
        while i < n
            invariant
                0 <= i <= n,
                n == cols_meta@.len(),
                cols_meta@ == self.metadata.row_metadata@,
                mcols == self@.metadata.row_metadata,
                mcols.len() == n as int,
                forall|j: int| 0 <= j < i ==> mcols[j].col_name != col_name@,
                forall|j: int|
                    0 <= j < mcols.len() ==> #[trigger] mcols[j] == cols_meta@[j]@,
            decreases n - i,
        {
            if str_eq(cols_meta[i].col_name.as_str(), col_name) {
                proof {
                    lemma_find_col_from(mcols, col_name@, i as int);
                }
                if i < self.cols.len() {
                    proof {
                        crate::value::lemma_values_view_index(self.cols@, i as int);
                    }
                    return Some(clone_value(&self.cols[i]));
                } else {
                    proof {
                        crate::value::lemma_values_view_len(self.cols@);
                    }
                    return None;
                }
            }
            i = i + 1;
        }
        proof {
            lemma_find_col(mcols, col_name@);
        }
        None
    }
}

/// When no column before `i` bears the name and column `i` does, the first
/// match is at `i`.
proof fn lemma_find_col_from(cols: Seq<ColMetaView>, name: Seq<char>, i: int)
    requires
        0 <= i < cols.len(),
        cols[i].col_name == name,
        forall|j: int| 0 <= j < i ==> cols[j].col_name != name,
    ensures
        find_col(cols, name) == Some(i),
    decreases i,
{
    if i == 0 {
    } else {
        lemma_find_col_from(cols.drop_first(), name, i - 1);
    }
}

/// Makes a copy of a value that stands for the same cell.
pub fn clone_value(v: &Value) -> (r: Value)
    ensures
        value_view(r) == value_view(*v),
    decreases *v, 1nat,
{
    match v {
        Value::CqlNull => Value::CqlNull,
        Value::CqlCustom(name, data) => Value::CqlCustom(name.clone(), clone_bytes(data)),
        Value::CqlAscii(s) => Value::CqlAscii(s.clone()),
        Value::CqlBigint(x) => Value::CqlBigint(*x),
        Value::CqlBlob(data) => Value::CqlBlob(clone_bytes(data)),
        Value::CqlBoolean(b) => Value::CqlBoolean(*b),
        Value::CqlCounter(x) => Value::CqlCounter(*x),
        Value::CqlDecimal(scale, unscaled) => Value::CqlDecimal(*scale, *unscaled),
        Value::CqlDouble(bits) => Value::CqlDouble(*bits),
        Value::CqlFloat(bits) => Value::CqlFloat(*bits),
        Value::CqlInt(x) => Value::CqlInt(*x),
        Value::CqlText(s) => Value::CqlText(s.clone()),
        Value::CqlTimestamp(x) => Value::CqlTimestamp(*x),
        Value::CqlUUID(a) => Value::CqlUUID(*a),
        Value::CqlVarChar(s) => Value::CqlVarChar(s.clone()),
        Value::CqlVarInt(x) => Value::CqlVarInt(*x),
        Value::CqlTimeUUID(a) => Value::CqlTimeUUID(*a),
        Value::CqlInet(a) => Value::CqlInet(*a),
        Value::CqlList(items) => Value::CqlList(clone_values(items)),
        Value::CqlMap(ps) => {
            let mut out: Vec<(Value, Value)> = Vec::new();
            let mut i: usize = 0;
            while i < ps.len()
                invariant
                    (*v) is CqlMap,
                    (*v)->CqlMap_0 == *ps,
                    0 <= i <= ps@.len(),
                    out@.len() == i as int,
                    forall|j: int|
                        0 <= j < i ==> (value_view(#[trigger] out@[j].0) == value_view(ps@[j].0)
                            && value_view(out@[j].1) == value_view(ps@[j].1)),
                decreases ps@.len() - i,
            {
                proof {
                    assert(decreases_to!(*v => (*v)->CqlMap_0));
                    assert(decreases_to!(*ps => ps@));
                    assert(decreases_to!(ps@ => ps@[i as int]));
                    assert(decreases_to!(ps@[i as int] => ps@[i as int].0));
                    assert(decreases_to!(ps@[i as int] => ps@[i as int].1));
                }
                let pair = &ps[i];
                let k = clone_value(&pair.0);
                let w = clone_value(&pair.1);
                out.push((k, w));
                i = i + 1;
            }
            proof {
                assert forall|j: int| 0 <= j < ps@.len() implies #[trigger] crate::value::pairs_view(
                    out@,
                )[j] == crate::value::pairs_view(ps@)[j] by {
                    crate::value::lemma_pairs_view_index(out@, j);
                    crate::value::lemma_pairs_view_index(ps@, j);
                }
                crate::value::lemma_pairs_view_len(out@);
                crate::value::lemma_pairs_view_len(ps@);
                assert(crate::value::pairs_view(out@) =~= crate::value::pairs_view(ps@));
            }
            Value::CqlMap(out)
        },
        Value::CqlSet(items) => Value::CqlSet(clone_values(items)),
        Value::CqlUDT => Value::CqlUDT,
        Value::CqlTuple(items) => Value::CqlTuple(clone_values(items)),
        Value::CqlUnknown => Value::CqlUnknown,
    }
}

/// Makes a copy of a run of values, cell for cell.
fn clone_values(items: &Vec<Value>) -> (r: Vec<Value>)
    ensures
        values_view(r@) == values_view(items@),
    decreases *items, 0nat,
{
    let mut out: Vec<Value> = Vec::new();
    let mut i: usize = 0;
    while i < items.len()
        invariant
            0 <= i <= items@.len(),
            out@.len() == i as int,
            forall|j: int|
                0 <= j < i ==> value_view(#[trigger] out@[j]) == value_view(items@[j]),
        decreases items@.len() - i,
    {
        out.push(clone_value(&items[i]));
        i = i + 1;
    }
    proof {
        crate::value::lemma_values_view_len(out@);
        crate::value::lemma_values_view_len(items@);
        assert forall|j: int| 0 <= j < items@.len() implies #[trigger] values_view(out@)[j]
            == values_view(items@)[j] by {
            crate::value::lemma_values_view_index(out@, j);
            crate::value::lemma_values_view_index(items@, j);
        }
        assert(values_view(out@) =~= values_view(items@));
    }
    out
}

/// Makes a copy of a byte vector.
fn clone_bytes(data: &Vec<u8>) -> (r: Vec<u8>)
    ensures
        r@ == data@,
{
    vstd::slice::slice_to_vec(data.as_slice())
}

} // verus!
