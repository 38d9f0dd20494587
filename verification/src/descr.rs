//! Column type descriptors: the recursive description of a column's CQL
//! type, read from result metadata. A descriptor is one 16-bit type id,
//! followed — for `Custom`, `List`, `Map`, `Set` and `Tuple` ids — by the
//! structure the id announces.

use vstd::prelude::*;

use crate::bytes_be::{be16, read_u16};
use crate::primitives::{dec_string, read_cql_str};
use crate::types::{column_type, column_type_of, ColumnType, Error};

verus! {

/// The decoded form of a column type descriptor.
#[derive(Debug)]
pub enum CqlColDescr {
    /// A server-defined type, carrying its fully qualified class name.
    Custom(String),
    /// A leaf type, named by its id.
    Single(ColumnType),
    /// A list of elements of one nested type.
    List(Box<CqlColDescr>),
    /// A map from one nested key type to one nested value type.
    MapOf(Box<CqlColDescr>, Box<CqlColDescr>),
    /// A set of elements of one nested type.
    SetOf(Box<CqlColDescr>),
    /// A tuple of a fixed sequence of nested types.
    Tuple(Vec<CqlColDescr>),
}

/// The mathematical form of a descriptor: strings as character sequences,
/// vectors as sequences.
pub enum DescrView {
    Custom(Seq<char>),
    Single(ColumnType),
    List(Box<DescrView>),
    MapOf(Box<DescrView>, Box<DescrView>),
    SetOf(Box<DescrView>),
    Tuple(Seq<DescrView>),
}

/// The mathematical form of a descriptor.
pub open spec fn descr_view(d: CqlColDescr) -> DescrView
    decreases d,
{
    match d {
        CqlColDescr::Custom(name) => DescrView::Custom(name@),
        CqlColDescr::Single(ty) => DescrView::Single(ty),
        CqlColDescr::List(inner) => DescrView::List(Box::new(descr_view(*inner))),
        CqlColDescr::MapOf(key, val) => DescrView::MapOf(
            Box::new(descr_view(*key)),
            Box::new(descr_view(*val)),
        ),
        CqlColDescr::SetOf(inner) => DescrView::SetOf(Box::new(descr_view(*inner))),
        CqlColDescr::Tuple(inners) => DescrView::Tuple(descrs_view(inners@)),
    }
}

/// The mathematical form of a sequence of descriptors.
pub open spec fn descrs_view(ds: Seq<CqlColDescr>) -> Seq<DescrView>
    decreases ds,
{
    if ds.len() == 0 {
        Seq::empty()
    } else {
        seq![descr_view(ds[0])] + descrs_view(ds.drop_first())
    }
}

/// Views distribute over appending one descriptor at the back.
pub proof fn lemma_descrs_view_push(ds: Seq<CqlColDescr>, d: CqlColDescr)
    ensures
        descrs_view(ds.push(d)) == descrs_view(ds) + seq![descr_view(d)],
    decreases ds.len(),
{
    if ds.len() == 0 {
        assert(ds.push(d)[0] == d);
        assert(ds.push(d).drop_first() =~= Seq::<CqlColDescr>::empty());
        assert(descrs_view(ds.push(d).drop_first()) =~= Seq::<DescrView>::empty());
        assert(descrs_view(ds) =~= Seq::<DescrView>::empty());
        assert(descrs_view(ds.push(d)) =~= descrs_view(ds) + seq![descr_view(d)]);
    } else {
        lemma_descrs_view_push(ds.drop_first(), d);
        assert(ds.push(d).drop_first() =~= ds.drop_first().push(d));
        assert(ds.push(d)[0] == ds[0]);
        assert(descrs_view(ds.push(d)) =~= descrs_view(ds) + seq![descr_view(d)]);
    }
}

/// The length of a viewed sequence of descriptors.
pub proof fn lemma_descrs_view_len(ds: Seq<CqlColDescr>)
    ensures
        descrs_view(ds).len() == ds.len(),
    decreases ds.len(),
{
    if ds.len() > 0 {
        lemma_descrs_view_len(ds.drop_first());
    }
}

/// The decoding of one descriptor at `pos`: a 16-bit type id, then the
/// nested structure the id announces. The guard that a nested decoding must
/// end after the point where it began can never fail — every descriptor
/// occupies at least its two id bytes — and serves the termination measure.
pub open spec fn dec_descr(b: Seq<u8>, pos: int) -> Result<(DescrView, int), Error>
    decreases b.len() - pos, 0nat,
{
    if pos + 2 > b.len() {
        Err(Error::UnexpectedEOF)
    } else {
        let ty = column_type_of(be16(b.subrange(pos, pos + 2)) as u16);
        match ty {
            ColumnType::Custom => match dec_string(b, pos + 2) {
                Ok((name, p)) => Ok((DescrView::Custom(name), p)),
                Err(e) => Err(e),
            },
            ColumnType::List => match dec_descr(b, pos + 2) {
                Ok((inner, p)) => Ok((DescrView::List(Box::new(inner)), p)),
                Err(e) => Err(e),
            },
            ColumnType::SetType => match dec_descr(b, pos + 2) {
                Ok((inner, p)) => Ok((DescrView::SetOf(Box::new(inner)), p)),
                Err(e) => Err(e),
            },
            ColumnType::MapType => match dec_descrs(b, pos + 2, 2) {
                Ok((pair, p)) => Ok((DescrView::MapOf(Box::new(pair[0]), Box::new(pair[1])), p)),
                Err(e) => Err(e),
            },
            ColumnType::Tuple => {
                if pos + 4 > b.len() {
                    Err(Error::UnexpectedEOF)
                } else {
                    let n = be16(b.subrange(pos + 2, pos + 4));
                    match dec_descrs(b, pos + 4, n as nat) {
                        Ok((inners, p)) => Ok((DescrView::Tuple(inners), p)),
                        Err(e) => Err(e),
                    }
                }
            },
            _ => Ok((DescrView::Single(ty), pos + 2)),
        }
    }
}

/// The decoding of `n` consecutive descriptors starting at `pos`.
pub open spec fn dec_descrs(b: Seq<u8>, pos: int, n: nat) -> Result<(Seq<DescrView>, int), Error>
    decreases b.len() - pos, n,
{
    if n == 0 {
        Ok((Seq::empty(), pos))
    } else if pos < 0 {
        Err(Error::UnexpectedEOF)
    } else {
        match dec_descr(b, pos) {
            Ok((d, p)) => {
                if pos < p <= b.len() {
                    match dec_descrs(b, p, (n - 1) as nat) {
                        Ok((rest, end)) => Ok((seq![d] + rest, end)),
                        Err(e) => Err(e),
                    }
                } else {
                    Err(Error::Protocol)
                }
            },
            Err(e) => Err(e),
        }
    }
}

/// A decoded descriptor ends past its id bytes and within the buffer, so the
/// guard in `dec_descrs` never fails.
pub proof fn lemma_dec_descr_bounds(b: Seq<u8>, pos: int)
    ensures
        dec_descr(b, pos) matches Ok((d, p)) ==> pos + 2 <= p <= b.len(),
    decreases b.len() - pos, 0nat,
{
    if pos + 2 <= b.len() {
        let ty = column_type_of(be16(b.subrange(pos, pos + 2)) as u16);
        match ty {
            ColumnType::Custom => {},
            ColumnType::List => {
                lemma_dec_descr_bounds(b, pos + 2);
            },
            ColumnType::SetType => {
                lemma_dec_descr_bounds(b, pos + 2);
            },
            ColumnType::MapType => {
                lemma_dec_descrs_bounds(b, pos + 2, 2);
            },
            ColumnType::Tuple => {
                if pos + 4 <= b.len() {
                    let n = be16(b.subrange(pos + 2, pos + 4));
                    lemma_dec_descrs_bounds(b, pos + 4, n as nat);
                }
            },
            _ => {},
        }
    }
}

/// A decoded run of descriptors ends no earlier than it began and within the
/// buffer.
pub proof fn lemma_dec_descrs_bounds(b: Seq<u8>, pos: int, n: nat)
    ensures
        dec_descrs(b, pos, n) matches Ok((ds, p)) ==> pos <= p && ds.len() == n && (n == 0 ==> p
            == pos) && (n > 0 ==> p <= b.len()),
    decreases b.len() - pos, n,
{
    if n == 0 {
    } else if pos < 0 {
    } else {
        lemma_dec_descr_bounds(b, pos);
        match dec_descr(b, pos) {
            Ok((d, p)) => {
                if pos < p <= b.len() {
                    lemma_dec_descrs_bounds(b, p, (n - 1) as nat);
                    match dec_descrs(b, p, (n - 1) as nat) {
                        Ok((rest, end)) => {
                            assert(dec_descrs(b, pos, n) == Ok::<_, Error>((
                                seq![d] + rest,
                                end,
                            )));
                            assert((seq![d] + rest).len() == n);
                        },
                        Err(_) => {},
                    }
                }
            },
            Err(_) => {},
        }
    }
}

/// Reads one column type descriptor.
pub fn read_cql_col_type(buf: &[u8], pos: usize) -> (r: Result<(CqlColDescr, usize), Error>)
    ensures
        (match r {
            Ok((d, p)) => dec_descr(buf@, pos as int) == Ok::<_, Error>((descr_view(d), p as int)),
            Err(e) => dec_descr(buf@, pos as int) == Err::<(DescrView, int), _>(e),
        }),
    decreases buf@.len() - pos,
{
    let (id, p0) = match read_u16(buf, pos) {
        Ok(x) => x,
        Err(e) => {
            return Err(e);
        },
    };
    let ty = column_type(id);
    match ty {
        ColumnType::Custom => match read_cql_str(buf, p0) {
            Ok((name, p)) => Ok((CqlColDescr::Custom(name), p)),
            Err(e) => Err(e),
        },
        ColumnType::List => match read_cql_col_type(buf, p0) {
            Ok((inner, p)) => Ok((CqlColDescr::List(Box::new(inner)), p)),
            Err(e) => Err(e),
        },
        ColumnType::SetType => match read_cql_col_type(buf, p0) {
            Ok((inner, p)) => Ok((CqlColDescr::SetOf(Box::new(inner)), p)),
            Err(e) => Err(e),
        },
        ColumnType::MapType => {
            proof {
                lemma_dec_descr_bounds(buf@, p0 as int);
            }
            let (key, p1) = match read_cql_col_type(buf, p0) {
                Ok(x) => x,
                Err(e) => {
                    proof {
                        assert(dec_descrs(buf@, p0 as int, 2) == Err::<(Seq<DescrView>, int), _>(
                            e,
                        ));
                    }
                    return Err(e);
                },
            };
            proof {
                lemma_dec_descr_bounds(buf@, p1 as int);
            }
            let (val, p2) = match read_cql_col_type(buf, p1) {
                Ok(x) => x,
                Err(e) => {
                    proof {
                        assert(dec_descrs(buf@, p1 as int, 1) == Err::<(Seq<DescrView>, int), _>(
                            e,
                        ));
                        assert(dec_descrs(buf@, p0 as int, 2) == Err::<(Seq<DescrView>, int), _>(
                            e,
                        ));
                    }
                    return Err(e);
                },
            };
            proof {
                let pair = dec_descrs(buf@, p0 as int, 2)->Ok_0.0;
                assert(dec_descrs(buf@, p2 as int, 0) == Ok::<_, Error>((
                    Seq::<DescrView>::empty(),
                    p2 as int,
                )));
                assert(pair =~= seq![descr_view(key), descr_view(val)]);
            }
            Ok((CqlColDescr::MapOf(Box::new(key), Box::new(val)), p2))
        },
        ColumnType::Tuple => {
            let (n, start) = match read_u16(buf, p0) {
                Ok(x) => x,
                Err(e) => {
                    return Err(e);
                },
            };
            let mut inners: Vec<CqlColDescr> = Vec::new();
            let mut p = start;
            let mut i: u16 = 0;
            while i < n
                invariant
                    pos + 4 <= buf@.len(),
                    p0 == pos + 2,
                    start as int == pos + 4,
                    n as int == be16(buf@.subrange(pos + 2, pos + 4)),
                    column_type_of(be16(buf@.subrange(pos as int, pos + 2)) as u16)
                        == ColumnType::Tuple,
                    0 <= i <= n,
                    inners@.len() == i as int,
                    start <= p <= buf@.len(),
                    (match dec_descrs(buf@, start as int, n as nat) {
                        Ok((all, end)) => dec_descrs(buf@, p as int, (n - i) as nat) matches Ok(
                            (rest, e2),
                        ) && all == descrs_view(inners@) + rest && end == e2,
                        Err(e) => dec_descrs(buf@, p as int, (n - i) as nat) == Err::<
                            (Seq<DescrView>, int),
                            _,
                        >(e),
                    }),
                decreases n - i,
            {
                let (d, p2) = match read_cql_col_type(buf, p) {
                    Ok(x) => x,
                    Err(e) => {
                        proof {
                            assert(dec_descrs(buf@, p as int, (n - i) as nat) == Err::<
                                (Seq<DescrView>, int),
                                _,
                            >(e));
                        }
                        return Err(e);
                    },
                };
                proof {
                    lemma_dec_descr_bounds(buf@, p as int);
                }
                let ghost old_inners = inners@;
                inners.push(d);
                proof {
                    lemma_descrs_view_push(old_inners, d);
                    if dec_descrs(buf@, start as int, n as nat) is Ok {
                        let (rest, e2) = dec_descrs(buf@, p as int, (n - i) as nat)->Ok_0;
                        assert(descrs_view(old_inners) + rest =~= descrs_view(inners@)
                            + dec_descrs(buf@, p2 as int, (n - i - 1) as nat)->Ok_0.0);
                    }
                }
                p = p2;
                i = i + 1;
            }
            proof {
                assert(dec_descrs(buf@, p as int, 0nat) == Ok::<_, Error>((
                    Seq::<DescrView>::empty(),
                    p as int,
                )));
                assert(descrs_view(inners@) + Seq::<DescrView>::empty() =~= descrs_view(inners@));
            }
            Ok((CqlColDescr::Tuple(inners), p))
        },
        _ => {
            proof {
                assert(descr_view(CqlColDescr::Single(ty)) == DescrView::Single(ty));
            }
            Ok((CqlColDescr::Single(ty), p0))
        },
    }
}

} // verus!
