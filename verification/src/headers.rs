//! Column headers of a CSV file and how an expression designates a column.
use vstd::prelude::*;

use crate::text::bytes_eq;

verus! {

/// How an expression designates a column: by name, by name and rank among
/// the columns of that name, or by position (negative from the end).
#[derive(Debug, PartialEq, Clone)]
pub enum ColumIndexationBy {
    Name(Vec<u8>),
    NameAndNth(Vec<u8>, isize),
    Pos(isize),
}

impl ColumIndexationBy {
    pub open spec fn spec_has_name(&self) -> bool {
        self is Name || self is NameAndNth
    }

    pub fn has_name(&self) -> (r: bool)
        ensures
            r == self.spec_has_name(),
    {
        match self {
            ColumIndexationBy::Name(_) | ColumIndexationBy::NameAndNth(_, _) => true,
            ColumIndexationBy::Pos(_) => false,
        }
    }
}

/// The positions, in increasing order, of the headers equal to `name`.
pub open spec fn positions(headers: Seq<Seq<u8>>, name: Seq<u8>) -> Seq<int>
    decreases headers.len(),
{
    if headers.len() == 0 {
        Seq::empty()
    } else {
        let rest = positions(headers.drop_last(), name);
        if headers.last() == name {
            rest.push(headers.len() - 1)
        } else {
            rest
        }
    }
}

/// The element of `s` designated by `pos`, counting from the end when
/// negative (`-1` is the last element).
pub open spec fn signed_nth(s: Seq<int>, pos: int) -> Option<int> {
    if pos < 0 {
        if -pos > s.len() {
            None
        } else {
            Some(s[s.len() + pos])
        }
    } else if pos >= s.len() {
        None
    } else {
        Some(s[pos])
    }
}

/// The column named `name` of rank `nth` (negative from the last one)
/// among `headers`. In a file without header no column is found by name.
pub open spec fn by_name(headers: Seq<Seq<u8>>, headless: bool, name: Seq<u8>, nth: int) -> Option<int> {
    if headless {
        None
    } else {
        signed_nth(positions(headers, name), nth)
    }
}

/// The column that `indexation` designates among `headers`.
pub open spec fn designated(headers: Seq<Seq<u8>>, headless: bool, indexation: ColumIndexationBy) -> Option<int> {
    match indexation {
        ColumIndexationBy::Pos(pos) => signed_nth(Seq::new(headers.len(), |i: int| i), pos as int),
        ColumIndexationBy::Name(name) => by_name(headers, headless, name@, 0),
        ColumIndexationBy::NameAndNth(name, nth) => by_name(headers, headless, name@, nth as int),
    }
}

/// The headers of a CSV file, indexed for lookup by name.
#[derive(Debug, Clone)]
pub struct HeadersIndex {
    headers: Vec<Vec<u8>>,
    headless: bool,
}

impl HeadersIndex {
    /// The headers, in order.
    pub closed spec fn names(&self) -> Seq<Seq<u8>> {
        self.headers@.map_values(|h: Vec<u8>| h@)
    }

    /// Whether the file has no header row (columns then have no name).
    pub closed spec fn spec_headless(&self) -> bool {
        self.headless
    }

    pub fn empty(headless: bool) -> (r: Self)
        ensures
            r.names() == Seq::<Seq<u8>>::empty(),
            r.spec_headless() == headless,
    {
        let r = Self { headers: Vec::new(), headless };
        assert(r.names() =~= Seq::<Seq<u8>>::empty());
        r
    }

    pub fn is_headless(&self) -> (r: bool)
        ensures
            r == self.spec_headless(),
    {
        self.headless
    }

    pub fn new(headers: Vec<Vec<u8>>, headless: bool) -> (r: Self)
        ensures
            r.names() == headers@.map_values(|h: Vec<u8>| h@),
            r.spec_headless() == headless,
    {
        Self { headers, headless }
    }

    pub fn len(&self) -> (r: usize)
        ensures
            r == self.names().len(),
    {
        self.headers.len()
    }

    pub fn is_empty(&self) -> (r: bool)
        ensures
            r == (self.names().len() == 0),
    {
        self.headers.len() == 0
    }

    /// The header at `index`.
    pub fn header(&self, index: usize) -> (r: &[u8])
        requires
            index < self.names().len(),
        ensures
            r@ == self.names()[index as int],
    {
        self.headers[index].as_slice()
    }

    /// The positions of the columns named `name` (none in a file without
    /// header).
    fn positions_of(&self, name: &[u8]) -> (r: Vec<usize>)
        ensures
            !self.headless ==> r@.len() == positions(self.names(), name@).len() && forall|k: int|
                0 <= k < r@.len() ==> r@[k] as int == #[trigger] positions(self.names(), name@)[k],
            self.headless ==> r@.len() == 0,
    {
        let mut r: Vec<usize> = Vec::new();
        if self.headless {
            return r;
        }
        let mut i: usize = 0;
        while i < self.headers.len()
            invariant
                i <= self.headers@.len(),
                r@.len() == positions(self.names().take(i as int), name@).len(),
                forall|k: int|
                    0 <= k < r@.len() ==> r@[k] as int == #[trigger] positions(
                        self.names().take(i as int),
                        name@,
                    )[k],
            decreases self.headers@.len() - i,
        {
            let ghost before = positions(self.names().take(i as int), name@);
            assert(self.names().take(i + 1).drop_last() == self.names().take(i as int));
            assert(self.names().take(i + 1).last() == self.headers@[i as int]@);
            if bytes_eq(self.headers[i].as_slice(), name) {
                r.push(i);
            }
            i += 1;
        }
        assert(self.names().take(i as int) == self.names());
        r
    }

    /// The first column named `name`.
    pub fn first_by_name(&self, name: &[u8]) -> (r: Option<usize>)
        ensures
            r matches Some(i) ==> by_name(self.names(), self.spec_headless(), name@, 0) == Some(
                i as int,
            ),
            r is None ==> by_name(self.names(), self.spec_headless(), name@, 0) is None,
    {
        let p = self.positions_of(name);
        if p.len() == 0 {
            None
        } else {
            Some(p[0])
        }
    }

    /// The column that `indexation` designates, if there is one.
    pub fn get(&self, indexation: &ColumIndexationBy) -> (r: Option<usize>)
        ensures
            r matches Some(i) ==> designated(self.names(), self.spec_headless(), *indexation)
                == Some(i as int),
            r is None ==> designated(self.names(), self.spec_headless(), *indexation) is None,
    {
        match indexation {
            ColumIndexationBy::Name(name) => self.first_by_name(name.as_slice()),
            ColumIndexationBy::Pos(pos) => {
                let len = self.headers.len();
                if *pos < 0 {
                    let abs: u128 = (-(*pos as i128)) as u128;
                    if abs > len as u128 {
                        None
                    } else {
                        Some(len - abs as usize)
                    }
                } else {
                    let p = *pos as usize;
                    if p >= len {
                        None
                    } else {
                        Some(p)
                    }
                }
            },
            ColumIndexationBy::NameAndNth(name, pos) => {
                let p = self.positions_of(name.as_slice());
                let len = p.len();
                if *pos < 0 {
                    let abs: u128 = (-(*pos as i128)) as u128;
                    if abs > len as u128 {
                        None
                    } else {
                        Some(p[len - abs as usize])
                    }
                } else {
                    let q = *pos as usize;
                    if q >= len {
                        None
                    } else {
                        Some(p[q])
                    }
                }
            },
        }
    }
}

/// The positions of the headers named `name` are, in increasing order,
/// exactly the positions whose header is `name`.
pub proof fn law_positions(headers: Seq<Seq<u8>>, name: Seq<u8>)
    ensures
        forall|k: int| 0 <= k < positions(headers, name).len() ==> 0 <= #[trigger] positions(headers, name)[k] < headers.len()
            && headers[positions(headers, name)[k]] == name,
        forall|k: int, l: int| 0 <= k < l < positions(headers, name).len() ==> positions(headers, name)[k] < positions(headers, name)[l],
        forall|i: int| 0 <= i < headers.len() && headers[i] == name ==> #[trigger] positions(headers, name).contains(i),
    decreases headers.len(),
{
    if headers.len() > 0 {
        let t = headers.drop_last();
        law_positions(t, name);
        let p = positions(headers, name);
        let q = positions(t, name);
        assert forall|k: int| 0 <= k < p.len() implies 0 <= #[trigger] p[k] < headers.len() && headers[p[k]] == name by {
            if k < q.len() {
                assert(p[k] == q[k]);
                assert(headers[q[k]] == t[q[k]]);
            }
        }
        assert forall|i: int| 0 <= i < headers.len() && headers[i] == name implies #[trigger] p.contains(i) by {
            if i < headers.len() - 1 {
                assert(t[i] == headers[i]);
                assert(q.contains(i));
                let k = choose|k: int| 0 <= k < q.len() && q[k] == i;
                assert(p[k] == i);
            } else {
                assert(p[p.len() - 1] == i);
            }
        }
    }
}

/// Counting from the end designates the same column as counting from the
/// start: position `i - len` is position `i`, and `-1` is the last column.
pub proof fn law_negative_positions(headers: Seq<Seq<u8>>, headless: bool, i: isize)
    requires
        0 <= i < headers.len(),
        headers.len() <= isize::MAX,
    ensures
        designated(headers, headless, ColumIndexationBy::Pos(i)) == Some(i as int),
        designated(headers, headless, ColumIndexationBy::Pos((i - headers.len()) as isize)) == Some(i as int),
{
}

/// What an expression is evaluated against: the headers of the file.
#[derive(Debug, Clone)]
pub struct EvaluationContext {
    headers_index: HeadersIndex,
}

impl EvaluationContext {
    pub closed spec fn index(&self) -> HeadersIndex {
        self.headers_index
    }

    /// A context for a file whose first row holds these headers.
    pub fn new(headers: Vec<Vec<u8>>) -> (r: Self)
        ensures
            r.index().names() == headers@.map_values(|h: Vec<u8>| h@),
            !r.index().spec_headless(),
    {
        Self { headers_index: HeadersIndex::new(headers, false) }
    }

    pub fn get_column_index(&self, indexation: &ColumIndexationBy) -> (r: Option<usize>)
        ensures
            r matches Some(i) ==> designated(
                self.index().names(),
                self.index().spec_headless(),
                *indexation,
            ) == Some(i as int),
            r is None ==> designated(
                self.index().names(),
                self.index().spec_headless(),
                *indexation,
            ) is None,
    {
        self.headers_index.get(indexation)
    }
}

} // verus!
