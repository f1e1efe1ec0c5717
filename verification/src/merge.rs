//! Merge programs: where the columns they compute go, among the columns of
//! the file, and what the expressions of a merge see of the two rows being
//! merged.
use vstd::prelude::*;

use crate::text::bytes_eq;

verus! {

/// Where a computed column goes: over an existing column, or after them.
#[derive(Debug, Clone, Copy, PartialEq, Eq, Structural)]
pub enum MergeColumn {
    Existing(usize),
    New(usize),
}

impl MergeColumn {
    /// The position of the column in the output.
    pub fn index(&self) -> (r: usize)
        ensures
            r == match *self {
                MergeColumn::Existing(i) => i,
                MergeColumn::New(i) => i,
            },
    {
        match self {
            MergeColumn::Existing(i) => *i,
            MergeColumn::New(i) => *i,
        }
    }
}

/// The columns of a merge: the headers that its expressions see (each
/// column of the current row with the `current_` prefix, then the new
/// columns, then each column of the merged row with the `new_` prefix),
/// the headers of its output, and where each computed column goes.
#[derive(Debug, Clone, PartialEq)]
pub struct MergeLayout {
    pub full_headers: Vec<Vec<u8>>,
    pub output_headers: Vec<Vec<u8>>,
    pub columns: Vec<MergeColumn>,
}

pub open spec fn current_prefix() -> Seq<u8> {
    seq![99u8, 117, 114, 114, 101, 110, 116, 95]
}

pub open spec fn new_prefix() -> Seq<u8> {
    seq![110u8, 101, 119, 95]
}

/// Where the first header equal to `name` stands.
pub open spec fn header_position(headers: Seq<Seq<u8>>, name: Seq<u8>) -> Option<int> {
    if exists|i: int| 0 <= i < headers.len() && headers[i] == name {
        Some(choose|i: int| 0 <= i < headers.len() && headers[i] == name && forall|j: int| 0 <= j < i ==> headers[j] != name)
    } else {
        None
    }
}

/// The names, among `names`, that no header has, in order.
pub open spec fn new_names(headers: Seq<Seq<u8>>, names: Seq<Seq<u8>>) -> Seq<Seq<u8>>
    decreases names.len(),
{
    if names.len() == 0 {
        Seq::empty()
    } else {
        let rest = new_names(headers, names.drop_last());
        if header_position(headers, names.last()) is Some {
            rest
        } else {
            rest.push(names.last())
        }
    }
}

/// Where each computed column goes: over the first header with its name,
/// or at the end of the output.
pub open spec fn merge_columns(headers: Seq<Seq<u8>>, names: Seq<Seq<u8>>) -> Seq<MergeColumn>
    decreases names.len(),
{
    if names.len() == 0 {
        Seq::empty()
    } else {
        let rest = merge_columns(headers, names.drop_last());
        match header_position(headers, names.last()) {
            Some(i) => rest.push(MergeColumn::Existing(i as usize)),
            None => rest.push(
                MergeColumn::New(
                    (headers.len() + new_names(headers, names.drop_last()).len()) as usize,
                ),
            ),
        }
    }
}

pub open spec fn prefixed(prefix: Seq<u8>, s: Seq<Seq<u8>>) -> Seq<Seq<u8>> {
    s.map_values(|h: Seq<u8>| prefix + h)
}

pub open spec fn bytes_view(v: Seq<Vec<u8>>) -> Seq<Seq<u8>> {
    v.map_values(|b: Vec<u8>| b@)
}

fn position_of(headers: &Vec<Vec<u8>>, name: &Vec<u8>) -> (r: Option<usize>)
    ensures
        match header_position(bytes_view(headers@), name@) {
            Some(i) => r == Some(i as usize) && i < headers@.len(),
            None => r is None,
        },
{
    let ghost hs = bytes_view(headers@);
    let mut i: usize = 0;
    while i < headers.len()
        invariant
            i <= headers@.len(),
            hs == bytes_view(headers@),
            forall|j: int| 0 <= j < i ==> hs[j] != name@,
        decreases headers@.len() - i,
    {
        if bytes_eq(headers[i].as_slice(), name.as_slice()) {
            proof {
                assert(hs[i as int] == name@);
                let c = choose|k: int|
                    0 <= k < hs.len() && hs[k] == name@ && forall|j: int| 0 <= j < k ==> hs[j]
                        != name@;
                if c < i {
                    assert(hs[c] != name@);
                } else if c > i {
                    assert(hs[i as int] != name@);
                }
            }
            return Some(i);
        }
        i += 1;
    }
    None
}

fn with_prefix(prefix: &[u8], h: &Vec<u8>) -> (r: Vec<u8>)
    ensures
        r@ == prefix@ + h@,
{
    let mut r: Vec<u8> = Vec::new();
    let mut i: usize = 0;
    while i < prefix.len()
        invariant
            i <= prefix@.len(),
            r@ == prefix@.take(i as int),
        decreases prefix@.len() - i,
    {
        r.push(prefix[i]);
        i += 1;
    }
    let mut j: usize = 0;
    while j < h.len()
        invariant
            j <= h@.len(),
            i == prefix@.len(),
            r@ == prefix@ + h@.take(j as int),
        decreases h@.len() - j,
    {
        r.push(h[j]);
        j += 1;
    }
    assert(prefix@.take(i as int) == prefix@);
    assert(h@.take(j as int) == h@);
    r
}

fn push_prefixed(out: &mut Vec<Vec<u8>>, prefix: &[u8], hs: &Vec<Vec<u8>>)
    ensures
        bytes_view(final(out)@) == bytes_view(old(out)@) + prefixed(prefix@, bytes_view(hs@)),
{
    let ghost start = bytes_view(out@);
    let mut i: usize = 0;
    while i < hs.len()
        invariant
            i <= hs@.len(),
            bytes_view(out@) == start + prefixed(prefix@, bytes_view(hs@.take(i as int))),
        decreases hs@.len() - i,
    {
        let ghost before = out@;
        out.push(with_prefix(prefix, &hs[i]));
        i += 1;
        proof {
            assert(bytes_view(out@) == bytes_view(before).push(prefix@ + hs@[i - 1]@));
            assert(prefixed(prefix@, bytes_view(hs@.take(i as int))) =~= prefixed(
                prefix@,
                bytes_view(hs@.take(i - 1)),
            ).push(prefix@ + hs@[i - 1]@));
        }
    }
    assert(hs@.take(i as int) == hs@);
}

/// Lays out the columns of a merge whose expressions are named `names`,
/// over a file whose headers are `headers`.
pub fn merge_layout(headers: &Vec<Vec<u8>>, names: &Vec<Vec<u8>>) -> (r: MergeLayout)
    ensures
        bytes_view(r.output_headers@) == bytes_view(headers@) + new_names(
            bytes_view(headers@),
            bytes_view(names@),
        ),
        bytes_view(r.full_headers@) == prefixed(current_prefix(), bytes_view(headers@))
            + prefixed(current_prefix(), new_names(bytes_view(headers@), bytes_view(names@)))
            + prefixed(new_prefix(), bytes_view(headers@)),
        r.columns@ == merge_columns(bytes_view(headers@), bytes_view(names@)),
{
    let current: Vec<u8> = vec![99u8, 117, 114, 114, 101, 110, 116, 95];
    let new: Vec<u8> = vec![110u8, 101, 119, 95];
    assert(current@ == current_prefix());
    assert(new@ == new_prefix());
    let ghost hs = bytes_view(headers@);
    let ghost ns = bytes_view(names@);
    let mut full_headers: Vec<Vec<u8>> = Vec::new();
    push_prefixed(&mut full_headers, current.as_slice(), headers);
    let mut output_headers: Vec<Vec<u8>> = Vec::new();
    let mut i: usize = 0;
    while i < headers.len()
        invariant
            i <= headers@.len(),
            bytes_view(output_headers@) == bytes_view(headers@.take(i as int)),
        decreases headers@.len() - i,
    {
        output_headers.push(headers[i].clone());
        i += 1;
        proof {
            assert(bytes_view(headers@.take(i as int)) =~= bytes_view(headers@.take(i - 1)).push(
                headers@[i - 1]@,
            ));
        }
    }
    assert(headers@.take(i as int) == headers@);
    let mut columns: Vec<MergeColumn> = Vec::new();
    let mut k: usize = 0;
    while k < names.len()
        invariant
            k <= names@.len(),
            hs == bytes_view(headers@),
            ns == bytes_view(names@),
            current@ == current_prefix(),
            bytes_view(output_headers@) == hs + new_names(hs, ns.take(k as int)),
            bytes_view(full_headers@) == prefixed(current_prefix(), hs) + prefixed(
                current_prefix(),
                new_names(hs, ns.take(k as int)),
            ),
            columns@ == merge_columns(hs, ns.take(k as int)),
        decreases names@.len() - k,
    {
        let ghost before_out = output_headers@;
        let ghost before_full = full_headers@;
        proof {
            assert(ns.take(k + 1).drop_last() == ns.take(k as int));
            assert(ns.take(k + 1).last() == names@[k as int]@);
        }
        match position_of(headers, &names[k]) {
            Some(index) => {
                columns.push(MergeColumn::Existing(index));
            },
            None => {
                full_headers.push(with_prefix(current.as_slice(), &names[k]));
                output_headers.push(names[k].clone());
                columns.push(MergeColumn::New(output_headers.len() - 1));
                proof {
                    assert(bytes_view(full_headers@) == bytes_view(before_full).push(
                        current_prefix() + names@[k as int]@,
                    ));
                    assert(bytes_view(output_headers@) == bytes_view(before_out).push(
                        names@[k as int]@,
                    ));
                }
            },
        }
        k += 1;
        proof {
            assert(prefixed(current_prefix(), new_names(hs, ns.take(k as int))) =~= if header_position(
                hs,
                names@[k - 1]@,
            ) is Some {
                prefixed(current_prefix(), new_names(hs, ns.take(k - 1)))
            } else {
                prefixed(current_prefix(), new_names(hs, ns.take(k - 1))).push(
                    current_prefix() + names@[k - 1]@,
                )
            });
        }
    }
    assert(ns.take(k as int) == ns);
    push_prefixed(&mut full_headers, new.as_slice(), headers);
    MergeLayout { full_headers, output_headers, columns }
}

/// The cells of the row that a merge writes into: those of the current row,
/// then an empty cell for each new column.
pub fn allocate(record: &Vec<Vec<u8>>, columns: &Vec<MergeColumn>) -> (r: Vec<Vec<u8>>)
    ensures
        r@.len() == record@.len() + columns@.filter(|c: MergeColumn| c is New).len(),
        forall|i: int| 0 <= i < record@.len() ==> (#[trigger] r@[i])@ == record@[i]@,
        forall|i: int| record@.len() <= i < r@.len() ==> (#[trigger] r@[i])@.len() == 0,
{
    let mut owned: Vec<Vec<u8>> = Vec::new();
    let mut i: usize = 0;
    while i < record.len()
        invariant
            i <= record@.len(),
            owned@.len() == i,
            forall|j: int| 0 <= j < i ==> (#[trigger] owned@[j])@ == record@[j]@,
        decreases record@.len() - i,
    {
        owned.push(record[i].clone());
        i += 1;
    }
    let mut k: usize = 0;
    while k < columns.len()
        invariant
            k <= columns@.len(),
            owned@.len() == record@.len() + columns@.take(k as int).filter(|c: MergeColumn| c is New).len(),
            forall|j: int| 0 <= j < record@.len() ==> (#[trigger] owned@[j])@ == record@[j]@,
            forall|j: int| record@.len() <= j < owned@.len() ==> (#[trigger] owned@[j])@.len() == 0,
        decreases columns@.len() - k,
    {
        proof {
            reveal(Seq::filter);
            assert(columns@.take(k + 1).drop_last() == columns@.take(k as int));
        }
        if matches!(columns[k], MergeColumn::New(_)) {
            owned.push(Vec::new());
        }
        k += 1;
    }
    assert(columns@.take(k as int) == columns@);
    owned
}


/// The headers that the expression of a choice sees: each column of the
/// current row with the `current_` prefix, then each column of the new row
/// with the `new_` prefix.
pub fn choose_headers(headers: &Vec<Vec<u8>>) -> (r: Vec<Vec<u8>>)
    ensures
        bytes_view(r@) == prefixed(current_prefix(), bytes_view(headers@)) + prefixed(
            new_prefix(),
            bytes_view(headers@),
        ),
{
    let current: Vec<u8> = vec![99u8, 117, 114, 114, 101, 110, 116, 95];
    let new: Vec<u8> = vec![110u8, 101, 119, 95];
    assert(current@ == current_prefix());
    assert(new@ == new_prefix());
    let mut full: Vec<Vec<u8>> = Vec::new();
    assert(bytes_view(full@) =~= Seq::<Seq<u8>>::empty());
    push_prefixed(&mut full, current.as_slice(), headers);
    push_prefixed(&mut full, new.as_slice(), headers);
    full
}


/// The position in the output that a merge column writes to.
pub open spec fn column_index(c: MergeColumn) -> int {
    match c {
        MergeColumn::Existing(i) => i as int,
        MergeColumn::New(i) => i as int,
    }
}

/// A row once each computed value is written at the place of its column,
/// in order, so that of two values for one place the later one stays.
pub open spec fn written(record: Seq<Seq<u8>>, columns: Seq<MergeColumn>, values: Seq<Seq<u8>>) -> Seq<Seq<u8>>
    decreases columns.len(),
{
    if columns.len() == 0 {
        record
    } else {
        written(record, columns.drop_last(), values).update(
            column_index(columns.last()),
            values[columns.len() - 1],
        )
    }
}

/// The row that the expressions of a merge read: the cells of the current
/// row, then those of the new one.
pub fn merge_working_record(current: &Vec<Vec<u8>>, new: &Vec<Vec<u8>>) -> (r: Vec<Vec<u8>>)
    ensures
        bytes_view(r@) == bytes_view(current@) + bytes_view(new@),
{
    let mut out: Vec<Vec<u8>> = Vec::new();
    let mut i: usize = 0;
    while i < current.len()
        invariant
            i <= current@.len(),
            bytes_view(out@) == bytes_view(current@.take(i as int)),
        decreases current@.len() - i,
    {
        out.push(current[i].clone());
        i += 1;
        assert(bytes_view(current@.take(i as int)) =~= bytes_view(current@.take(i - 1)).push(
            current@[i - 1]@,
        ));
    }
    assert(current@.take(i as int) == current@);
    let mut j: usize = 0;
    while j < new.len()
        invariant
            j <= new@.len(),
            bytes_view(out@) == bytes_view(current@) + bytes_view(new@.take(j as int)),
        decreases new@.len() - j,
    {
        let ghost before = out@;
        out.push(new[j].clone());
        j += 1;
        assert(bytes_view(new@.take(j as int)) =~= bytes_view(new@.take(j - 1)).push(
            new@[j - 1]@,
        ));
        assert(bytes_view(out@) =~= bytes_view(before).push(new@[j - 1]@));
    }
    assert(new@.take(j as int) == new@);
    out
}

/// Writes the values that the expressions of a merge computed into the
/// current row, each at the place of its column.
pub fn write_merged(record: &mut Vec<Vec<u8>>, columns: &Vec<MergeColumn>, values: Vec<Vec<u8>>)
    requires
        values@.len() == columns@.len(),
        forall|i: int| 0 <= i < columns@.len() ==> column_index(#[trigger] columns@[i]) < old(record)@.len(),
    ensures
        bytes_view(final(record)@) == written(bytes_view(old(record)@), columns@, bytes_view(values@)),
{
    let ghost start = bytes_view(record@);
    let ghost vs = bytes_view(values@);
    let mut k: usize = 0;
    while k < columns.len()
        invariant
            k <= columns@.len(),
            values@.len() == columns@.len(),
            vs == bytes_view(values@),
            record@.len() == start.len(),
            forall|i: int| 0 <= i < columns@.len() ==> column_index(#[trigger] columns@[i]) < start.len(),
            bytes_view(record@) == written(start, columns@.take(k as int), vs),
        decreases columns@.len() - k,
    {
        let idx = columns[k].index();
        proof {
            assert(column_index(columns@[k as int]) == idx);
            assert(columns@.take(k + 1).drop_last() == columns@.take(k as int));
            assert(columns@.take(k + 1).last() == columns@[k as int]);
        }
        record.set(idx, values[k].clone());
        k += 1;
        proof {
            assert(bytes_view(record@) =~= written(start, columns@.take(k as int), vs));
        }
    }
    assert(columns@.take(k as int) == columns@);
}

} // verus!
