//! The types that the values of a column were found to have, and the most
//! likely type of the column.
use vstd::prelude::*;

use crate::temporal::{AnyTemporal, TemporalKind};

verus! {

/// A type of cell value.
#[derive(Debug, Clone, Copy, PartialEq, Eq, Structural)]
pub enum Type {
    String,
    Float,
    Int,
    Url,
    Zoned,
    DateTime,
    Date,
    Time,
    Empty,
}

/// The rank of a type: the order in which the types are listed.
pub open spec fn type_rank(t: Type) -> int {
    match t {
        Type::String => 0,
        Type::Float => 1,
        Type::Int => 2,
        Type::Url => 3,
        Type::Zoned => 4,
        Type::DateTime => 5,
        Type::Date => 6,
        Type::Time => 7,
        Type::Empty => 8,
    }
}

/// The type of a rank.
pub open spec fn type_of_rank(i: int) -> Type {
    if i == 0 { Type::String }
    else if i == 1 { Type::Float }
    else if i == 2 { Type::Int }
    else if i == 3 { Type::Url }
    else if i == 4 { Type::Zoned }
    else if i == 5 { Type::DateTime }
    else if i == 6 { Type::Date }
    else if i == 7 { Type::Time }
    else { Type::Empty }
}

/// The name of a type.
pub open spec fn type_label(t: Type) -> Seq<char> {
    match t {
        Type::String => "string"@,
        Type::Float => "float"@,
        Type::Int => "int"@,
        Type::Url => "url"@,
        Type::Zoned => "zoned_datetime"@,
        Type::DateTime => "datetime"@,
        Type::Date => "date"@,
        Type::Time => "time"@,
        Type::Empty => "empty"@,
    }
}

impl Type {
    pub fn as_str(&self) -> (r: &'static str)
        ensures
            r@ == type_label(*self),
    {
        match self {
            Type::String => "string",
            Type::Float => "float",
            Type::Int => "int",
            Type::Url => "url",
            Type::Zoned => "zoned_datetime",
            Type::DateTime => "datetime",
            Type::Date => "date",
            Type::Time => "time",
            Type::Empty => "empty",
        }
    }

    fn rank(&self) -> (r: usize)
        ensures
            r == type_rank(*self),
    {
        match self {
            Type::String => 0,
            Type::Float => 1,
            Type::Int => 2,
            Type::Url => 3,
            Type::Zoned => 4,
            Type::DateTime => 5,
            Type::Date => 6,
            Type::Time => 7,
            Type::Empty => 8,
        }
    }

    fn from_rank(i: usize) -> (r: Type)
        requires
            i < 9,
        ensures
            r == type_of_rank(i as int),
            type_rank(r) == i,
    {
        if i == 0 { Type::String }
        else if i == 1 { Type::Float }
        else if i == 2 { Type::Int }
        else if i == 3 { Type::Url }
        else if i == 4 { Type::Zoned }
        else if i == 5 { Type::DateTime }
        else if i == 6 { Type::Date }
        else if i == 7 { Type::Time }
        else { Type::Empty }
    }
}

/// The number of members of a set of types, given as one flag per rank.
pub open spec fn count_flags(f: Seq<bool>) -> nat
    decreases f.len(),
{
    if f.len() == 0 {
        0
    } else {
        count_flags(f.drop_last()) + if f.last() { 1nat } else { 0nat }
    }
}

/// The set of types that decides the most likely type: empty values do
/// not count when other types were seen, floats absorb integers, and strings
/// absorb urls and dates.
pub open spec fn likely_flags(f: Seq<bool>) -> Seq<bool> {
    let f1 = if count_flags(f) > 1 && f[8] { f.update(8, false) } else { f };
    let f2 = if f1[1] && f1[2] { f1.update(2, false) } else { f1 };
    if f2[0] { f2.update(3, false).update(6, false) } else { f2 }
}

/// The rank of the first member of a set of types.
pub open spec fn first_flag(f: Seq<bool>) -> int
    decreases f.len(),
{
    if f.len() == 0 {
        0
    } else if f[0] {
        0
    } else {
        1 + first_flag(f.drop_first())
    }
}

/// The names of the members of a set of types, in the order of their ranks.
pub open spec fn flag_names(f: Seq<bool>) -> Seq<Seq<char>>
    decreases f.len(),
{
    if f.len() == 0 {
        Seq::empty()
    } else {
        let rest = flag_names(f.drop_last());
        if f.last() {
            rest.push(type_label(type_of_rank(f.len() - 1)))
        } else {
            rest
        }
    }
}

/// The set of types seen.
#[derive(Debug, Clone)]
pub struct Types {
    set: [bool; 9],
}

impl Types {
    /// Whether each type, by rank, was seen.
    pub closed spec fn flags(&self) -> Seq<bool> {
        self.set@
    }

    pub fn new() -> (r: Self)
        ensures
            r.flags() == Seq::new(9, |i: int| false),
    {
        let r = Self { set: [false; 9] };
        assert(r.flags() =~= Seq::new(9, |i: int| false));
        r
    }

    pub fn set(&mut self, t: Type)
        ensures
            final(self).flags() == old(self).flags().update(type_rank(t), true),
    {
        let i = t.rank();
        self.set.set(i, true);
    }

    /// Records the type of a temporal value, by its kind.
    pub fn set_from_any_temporal(&mut self, t: &AnyTemporal)
        ensures
            final(self).flags() == old(self).flags().update(
                type_rank(
                    match t.kind {
                        TemporalKind::Zoned => Type::Zoned,
                        TemporalKind::DateTime => Type::DateTime,
                        TemporalKind::Date => Type::Date,
                        TemporalKind::Time => Type::Time,
                    },
                ),
                true,
            ),
    {
        self.set(
            match t.kind {
                TemporalKind::Zoned => Type::Zoned,
                TemporalKind::DateTime => Type::DateTime,
                TemporalKind::Date => Type::Date,
                TemporalKind::Time => Type::Time,
            },
        );
    }

    pub fn contains(&self, t: Type) -> (r: bool)
        ensures
            r == self.flags()[type_rank(t)],
    {
        self.set[t.rank()]
    }

    fn count(f: &[bool; 9]) -> (r: usize)
        ensures
            r == count_flags(f@),
            r <= 9,
    {
        let mut c: usize = 0;
        let mut i: usize = 0;
        while i < 9
            invariant
                i <= 9,
                c <= i,
                c == count_flags(f@.take(i as int)),
            decreases 9 - i,
        {
            assert(f@.take(i + 1).drop_last() == f@.take(i as int));
            if f[i] {
                c += 1;
            }
            i += 1;
        }
        assert(f@.take(9) == f@);
        c
    }

    /// The most likely type of the column: none when nothing was seen,
    /// `mixed` when several types remain (see `likely_flags`).
    pub fn most_likely_type(&self) -> (r: Option<&'static str>)
        ensures
            count_flags(likely_flags(self.flags())) == 0 ==> r is None,
            count_flags(likely_flags(self.flags())) == 1 ==> (r matches Some(s) && s@ == type_label(
                type_of_rank(first_flag(likely_flags(self.flags()))),
            )),
            count_flags(likely_flags(self.flags())) > 1 ==> (r matches Some(s) && s@ == "mixed"@),
    {
        let mut w = self.set;
        if Self::count(&w) > 1 && w[8] {
            w.set(8, false);
        }
        if w[1] && w[2] {
            w.set(2, false);
        }
        if w[0] {
            w.set(3, false);
            w.set(6, false);
        }
        assert(w@ == likely_flags(self.flags()));
        let n = Self::count(&w);
        if n == 0 {
            None
        } else if n == 1 {
            let mut i: usize = 0;
            while !w[i]
                invariant
                    i < 9,
                    count_flags(w@) == 1,
                    forall|k: int| 0 <= k < i ==> !w@[k],
                decreases 9 - i,
            {
                proof {
                    lemma_one_flag(w@, i as int);
                }
                i += 1;
            }
            proof {
                lemma_first_flag(w@, i as int);
            }
            Some(Type::from_rank(i).as_str())
        } else {
            Some("mixed")
        }
    }

    /// The names of the types seen, in the order of their ranks.
    pub fn sorted_types(&self) -> (r: Vec<&'static str>)
        ensures
            r@.map_values(|s: &'static str| s@) == flag_names(self.flags()),
    {
        let mut result: Vec<&'static str> = Vec::new();
        let mut i: usize = 0;
        while i < 9
            invariant
                i <= 9,
                result@.map_values(|s: &'static str| s@) == flag_names(self.flags().take(i as int)),
            decreases 9 - i,
        {
            assert(self.flags().take(i + 1).drop_last() == self.flags().take(i as int));
            let ghost before = result@;
            if self.set[i] {
                result.push(Type::from_rank(i).as_str());
                assert(result@.map_values(|s: &'static str| s@) =~= before.map_values(
                    |s: &'static str| s@,
                ).push(type_label(type_of_rank(i as int))));
            }
            i += 1;
        }
        assert(self.flags().take(9) == self.flags());
        result
    }

    pub fn clear(&mut self)
        ensures
            final(self).flags() == Seq::new(9, |i: int| false),
    {
        self.set = [false; 9];
        assert(self.flags() =~= Seq::new(9, |i: int| false));
    }

    pub fn merge(&mut self, other: Self)
        ensures
            final(self).flags() == Seq::new(9, |i: int| old(self).flags()[i] || other.flags()[i]),
    {
        let mut set = self.set;
        let ghost a = self.set@;
        let ghost b = other.set@;
        let mut i: usize = 0;
        while i < 9
            invariant
                i <= 9,
                a.len() == 9,
                b == other.set@,
                set@.len() == 9,
                forall|k: int| 0 <= k < i ==> #[trigger] set@[k] == (a[k] || b[k]),
                forall|k: int| i <= k < 9 ==> #[trigger] set@[k] == a[k],
            decreases 9 - i,
        {
            if other.set[i] {
                set.set(i, true);
            }
            i += 1;
        }
        self.set = set;
        assert(self.flags() =~= Seq::new(9, |i: int| old(self).flags()[i] || other.flags()[i]));
    }
}

proof fn lemma_count_positive(f: Seq<bool>, i: int)
    requires
        0 <= i < f.len(),
        f[i],
    ensures
        count_flags(f) >= 1,
    decreases f.len(),
{
    if i < f.len() - 1 {
        lemma_count_positive(f.drop_last(), i);
    }
}

proof fn lemma_one_flag(f: Seq<bool>, i: int)
    requires
        0 <= i < f.len(),
        count_flags(f) == 1,
        forall|k: int| 0 <= k <= i ==> !f[k],
    ensures
        i + 1 < f.len(),
    decreases f.len(),
{
    if i + 1 >= f.len() {
        lemma_no_flag(f);
    }
}

proof fn lemma_no_flag(f: Seq<bool>)
    requires
        forall|k: int| 0 <= k < f.len() ==> !f[k],
    ensures
        count_flags(f) == 0,
    decreases f.len(),
{
    if f.len() > 0 {
        lemma_no_flag(f.drop_last());
    }
}

proof fn lemma_first_flag(f: Seq<bool>, i: int)
    requires
        0 <= i < f.len(),
        f[i],
        forall|k: int| 0 <= k < i ==> !f[k],
    ensures
        first_flag(f) == i,
    decreases i,
{
    if i > 0 {
        lemma_first_flag(f.drop_first(), i - 1);
    }
}


/// The flags of the types seen among `s`, by rank.
pub open spec fn types_of(s: Seq<Type>) -> Seq<bool> {
    Seq::new(9, |i: int| exists|j: int| 0 <= j < s.len() && type_rank(s[j]) == i)
}

/// Two parts of the values, their types gathered apart then merged, give
/// the types of all of them.
pub proof fn law_types_merge_concat(a: Seq<Type>, b: Seq<Type>)
    ensures
        Seq::new(9, |i: int| types_of(a)[i] || types_of(b)[i]) == types_of(a + b),
{
    assert forall|i: int| 0 <= i < 9 implies (types_of(a)[i] || types_of(b)[i]) == types_of(
        a + b,
    )[i] by {
        if types_of(a)[i] {
            let j = choose|j: int| 0 <= j < a.len() && type_rank(a[j]) == i;
            assert((a + b)[j] == a[j]);
        }
        if types_of(b)[i] {
            let j = choose|j: int| 0 <= j < b.len() && type_rank(b[j]) == i;
            assert((a + b)[j + a.len()] == b[j]);
        }
        if types_of(a + b)[i] {
            let j = choose|j: int| 0 <= j < (a + b).len() && type_rank((a + b)[j]) == i;
            if j < a.len() {
                assert(a[j] == (a + b)[j]);
            } else {
                assert(b[j - a.len()] == (a + b)[j]);
            }
        }
    }
    assert(Seq::new(9, |i: int| types_of(a)[i] || types_of(b)[i]) =~= types_of(a + b));
}


proof fn lemma_count_two(f: Seq<bool>, i: int, j: int)
    requires
        0 <= i < j < f.len(),
        f[i],
        f[j],
    ensures
        count_flags(f) >= 2,
    decreases f.len(),
{
    if j < f.len() - 1 {
        lemma_count_two(f.drop_last(), i, j);
    } else {
        lemma_count_positive(f.drop_last(), i);
    }
}

/// Which types decide the most likely type, type by type: a type seen
/// stays unless another absorbs it. Empty values are absorbed by any other
/// type, integers by floats only, urls and dates by strings only; strings,
/// floats and the temporal types are never absorbed.
pub proof fn law_likely_types(f: Seq<bool>)
    requires
        f.len() == 9,
    ensures
        likely_flags(f).len() == 9,
        forall|i: int|
            0 <= i < 9 ==> #[trigger] likely_flags(f)[i] == (f[i] && !(i == type_rank(Type::Empty)
                && exists|j: int| 0 <= j < 8 && f[j]) && !(i == type_rank(Type::Int) && f[type_rank(
                Type::Float)]) && !((i == type_rank(Type::Url) || i == type_rank(Type::Date))
                && f[type_rank(Type::String)])),
{
    let g = f.drop_last();
    assert(g.len() == 8);
    if exists|j: int| 0 <= j < 8 && f[j] {
        let j = choose|j: int| 0 <= j < 8 && f[j];
        assert(g[j]);
        lemma_count_positive(g, j);
    } else {
        assert forall|k: int| 0 <= k < g.len() implies !g[k] by {
            assert(g[k] == f[k]);
        }
        lemma_no_flag(g);
    }
}

/// A column whose values were seen as strings and as integers, and never
/// as floats, has no single most likely type: strings do not absorb
/// integers, so at least two types remain and the type is `mixed`.
pub proof fn law_string_and_int_are_mixed(f: Seq<bool>)
    requires
        f.len() == 9,
        f[type_rank(Type::String)],
        f[type_rank(Type::Int)],
        !f[type_rank(Type::Float)],
    ensures
        count_flags(likely_flags(f)) >= 2,
{
    law_likely_types(f);
    assert(likely_flags(f)[0]);
    assert(likely_flags(f)[2]);
    lemma_count_two(likely_flags(f), 0, 2);
}

} // verus!
