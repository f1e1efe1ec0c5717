//! Selection programs: which columns the computed values overwrite, and
//! which come after the columns of the file.
use vstd::prelude::*;
use vstd::utf8::encode_utf8;

use crate::headers::{by_name, law_positions, HeadersIndex};

verus! {

/// The name of a selected expression: one column, or several for an
/// expression that gives a list.
#[derive(Debug, Clone, PartialEq)]
pub enum ExprName {
    Singular(String),
    Plural(Vec<String>),
}

/// Where the values of a selection go: for each column of the file, the
/// expression whose value overwrites it, if any; then the expressions whose
/// values come after the columns.
#[derive(Debug, Clone, PartialEq)]
pub struct SelectionLayout {
    pub mask: Vec<Option<usize>>,
    pub rest: Vec<usize>,
}

/// Where the values of the expressions named `names` go, among `headers`:
/// an expression with one name overwrites the first column of that name,
/// a later one of the same name taking the place of an earlier one; the
/// others come after the columns.
pub open spec fn layout_of(headers: Seq<Seq<u8>>, headless: bool, names: Seq<ExprName>) -> (
    Seq<Option<usize>>,
    Seq<usize>,
)
    decreases names.len(),
{
    if names.len() == 0 {
        (Seq::new(headers.len(), |i: int| None::<usize>), Seq::empty())
    } else {
        let (mask, rest) = layout_of(headers, headless, names.drop_last());
        let i = (names.len() - 1) as usize;
        match names.last() {
            ExprName::Singular(n) => match by_name(headers, headless, encode_utf8(n@), 0) {
                Some(p) => (mask.update(p, Some(i)), rest),
                None => (mask, rest.push(i)),
            },
            ExprName::Plural(_) => (mask, rest.push(i)),
        }
    }
}

proof fn lemma_layout_len(headers: Seq<Seq<u8>>, headless: bool, names: Seq<ExprName>)
    ensures
        layout_of(headers, headless, names).0.len() == headers.len(),
    decreases names.len(),
{
    if names.len() > 0 {
        lemma_layout_len(headers, headless, names.drop_last());
        match names.last() {
            ExprName::Singular(n) => {
                law_positions(headers, encode_utf8(n@));
            },
            _ => {},
        }
    }
}

/// Lays out where the values of the expressions named `names` go.
pub fn selection_layout(headers_index: &HeadersIndex, names: &Vec<ExprName>) -> (r: SelectionLayout)
    requires
        names@.len() <= usize::MAX,
    ensures
        (r.mask@, r.rest@) == layout_of(headers_index.names(), headers_index.spec_headless(), names@),
{
    let n = headers_index.len();
    let mut mask: Vec<Option<usize>> = Vec::new();
    let mut k: usize = 0;
    while k < n
        invariant
            k <= n,
            mask@ == Seq::new(k as nat, |i: int| None::<usize>),
        decreases n - k,
    {
        mask.push(None);
        k += 1;
        assert(mask@ =~= Seq::new(k as nat, |i: int| None::<usize>));
    }
    let mut rest: Vec<usize> = Vec::new();
    let mut i: usize = 0;
    assert(names@.take(0) == Seq::<ExprName>::empty());
    while i < names.len()
        invariant
            i <= names@.len(),
            n == headers_index.names().len(),
            (mask@, rest@) == layout_of(
                headers_index.names(),
                headers_index.spec_headless(),
                names@.take(i as int),
            ),
        decreases names@.len() - i,
    {
        proof {
            assert(names@.take(i + 1).drop_last() == names@.take(i as int));
            assert(names@.take(i + 1).last() == names@[i as int]);
            lemma_layout_len(headers_index.names(), headers_index.spec_headless(), names@.take(i as int));
        }
        match &names[i] {
            ExprName::Singular(name) => {
                let bytes = name.as_str().as_bytes();
                match headers_index.first_by_name(bytes) {
                    Some(p) => {
                        proof {
                            law_positions(headers_index.names(), encode_utf8(name@));
                        }
                        mask.set(p, Some(i));
                    },
                    None => {
                        rest.push(i);
                    },
                }
            },
            ExprName::Plural(_) => {
                rest.push(i);
            },
        }
        i += 1;
    }
    assert(names@.take(i as int) == names@);
    SelectionLayout { mask, rest }
}

/// The cells of a selected row: each column of the row, or the value of
/// the expression that overwrites it, then the values of the expressions
/// that come after the columns.
pub open spec fn overwritten(
    record: Seq<Seq<u8>>,
    mask: Seq<Option<usize>>,
    rest: Seq<usize>,
    values: Seq<Seq<u8>>,
) -> Seq<Seq<u8>> {
    Seq::new(
        if record.len() < mask.len() {
            record.len()
        } else {
            mask.len()
        },
        |i: int|
            match mask[i] {
                Some(e) => values[e as int],
                None => record[i],
            },
    ) + rest.map_values(|e: usize| values[e as int])
}

/// Builds a selected row out of a row and the values of the expressions,
/// `values[e]` being what the expression of index `e` gave, as bytes.
pub fn overwrite(
    layout: &SelectionLayout,
    record: &Vec<Vec<u8>>,
    values: &Vec<Vec<u8>>,
) -> (r: Vec<Vec<u8>>)
    requires
        forall|i: int|
            0 <= i < layout.mask@.len() ==> (#[trigger] layout.mask@[i] matches Some(e) ==> e
                < values@.len()),
        forall|j: int| 0 <= j < layout.rest@.len() ==> #[trigger] layout.rest@[j] < values@.len(),
    ensures
        r@.map_values(|c: Vec<u8>| c@) == overwritten(
            record@.map_values(|c: Vec<u8>| c@),
            layout.mask@,
            layout.rest@,
            values@.map_values(|c: Vec<u8>| c@),
        ),
{
    let ghost rv = record@.map_values(|c: Vec<u8>| c@);
    let ghost vv = values@.map_values(|c: Vec<u8>| c@);
    let ghost expected = overwritten(rv, layout.mask@, layout.rest@, vv);
    let m = if record.len() < layout.mask.len() {
        record.len()
    } else {
        layout.mask.len()
    };
    let mut out: Vec<Vec<u8>> = Vec::new();
    let mut i: usize = 0;
    while i < m
        invariant
            i <= m,
            m <= record@.len(),
            m <= layout.mask@.len(),
            m == (if record@.len() < layout.mask@.len() {
                record@.len()
            } else {
                layout.mask@.len()
            }),
            rv == record@.map_values(|c: Vec<u8>| c@),
            vv == values@.map_values(|c: Vec<u8>| c@),
            expected == overwritten(rv, layout.mask@, layout.rest@, vv),
            forall|q: int|
                0 <= q < layout.mask@.len() ==> (#[trigger] layout.mask@[q] matches Some(e) ==> e
                    < values@.len()),
            out@.len() == i,
            forall|q: int| 0 <= q < i ==> (#[trigger] out@[q])@ == expected[q],
        decreases m - i,
    {
        match layout.mask[i] {
            Some(e) => out.push(values[e].clone()),
            None => out.push(record[i].clone()),
        }
        i += 1;
    }
    let mut j: usize = 0;
    while j < layout.rest.len()
        invariant
            j <= layout.rest@.len(),
            m == (if record@.len() < layout.mask@.len() {
                record@.len()
            } else {
                layout.mask@.len()
            }),
            rv == record@.map_values(|c: Vec<u8>| c@),
            vv == values@.map_values(|c: Vec<u8>| c@),
            expected == overwritten(rv, layout.mask@, layout.rest@, vv),
            forall|q: int| 0 <= q < layout.rest@.len() ==> #[trigger] layout.rest@[q] < values@.len(),
            out@.len() == m + j,
            forall|q: int| 0 <= q < m + j ==> (#[trigger] out@[q])@ == expected[q],
        decreases layout.rest@.len() - j,
    {
        out.push(values[layout.rest[j]].clone());
        j += 1;
    }
    assert(out@.map_values(|c: Vec<u8>| c@) =~= expected);
    out
}

} // verus!
