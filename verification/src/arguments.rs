//! The arguments that a function of the expression language takes: how many,
//! which are optional, which can be given by name.
use std::ops::RangeInclusive;

use vstd::prelude::*;
use vstd::std_specs::range::RangeInclusiveView;

use crate::error::{ConcretizationError, InvalidArity};
use crate::text::str_eq;

verus! {

/// One formal argument of a function.
#[derive(Debug, Clone, PartialEq)]
pub enum Argument {
    Positional,
    Optional,
    Named(String),
}

impl Argument {
    pub open spec fn spec_is_optional(self) -> bool {
        self is Named || self is Optional
    }

    pub fn with_name(name: &str) -> (r: Self)
        ensures
            r matches Argument::Named(n) && n@ == name@,
    {
        Argument::Named(name.to_owned())
    }

    pub fn is_optional(&self) -> (r: bool)
        ensures
            r == self.spec_is_optional(),
    {
        match self {
            Argument::Named(_) | Argument::Optional => true,
            Argument::Positional => false,
        }
    }
}

/// The number of arguments that a function accepts.
#[derive(Debug, Clone, PartialEq)]
pub enum Arity {
    Strict(usize),
    Min(usize),
    Range(RangeInclusive<usize>),
}

/// Whether a call with `got` arguments meets the arity `a`.
pub open spec fn arity_accepts(a: Arity, got: int) -> bool {
    match a {
        Arity::Strict(n) => got == n,
        Arity::Min(n) => got >= n,
        Arity::Range(r) => r@.start <= got && if r@.exhausted {
            got < r@.end
        } else {
            got <= r@.end
        },
    }
}

/// `Clone::clone` of std on `RangeInclusive`, which the derived `Clone` of
/// `Arity` calls; nothing is stated of the copy.
pub assume_specification<Idx: Clone>[ <RangeInclusive<Idx> as Clone>::clone ](
    r: &RangeInclusive<Idx>,
) -> RangeInclusive<Idx>;

/// `RangeInclusive::contains` of std on `usize`.
fn range_contains(r: &RangeInclusive<usize>, got: usize) -> (b: bool)
    ensures
        b == (r@.start <= got && if r@.exhausted {
            got < r@.end
        } else {
            got <= r@.end
        }),
{
    r.contains(&got)
}

/// `RangeInclusive::start` of std: the lower bound of the range, which its
/// documentation leaves unspecified once the range was iterated to its end.
#[verifier::external_body]
pub(crate) fn range_start(r: &RangeInclusive<usize>) -> (s: usize)
    ensures
        !r@.exhausted ==> s == r@.start,
{
    *r.start()
}

/// `RangeInclusive::end` of std: the upper bound of the range, which its
/// documentation leaves unspecified once the range was iterated to its end.
#[verifier::external_body]
pub(crate) fn range_end(r: &RangeInclusive<usize>) -> (e: usize)
    ensures
        !r@.exhausted ==> e == r@.end,
{
    *r.end()
}

/// `RangeInclusive::new` of std.
pub(crate) fn new_range(start: usize, end: usize) -> (r: RangeInclusive<usize>)
    ensures
        r@ == (RangeInclusiveView { start, end, exhausted: false }),
{
    RangeInclusive::new(start, end)
}

impl Arity {
    /// `Ok` exactly when `got` arguments meet the arity; otherwise the
    /// error that reports the arity and `got`.
    pub fn validate(self, got: usize) -> (r: Result<(), InvalidArity>)
        ensures
            r is Ok <==> arity_accepts(self, got as int),
            r matches Err(e) ==> e.expected == self && e.got == got,
    {
        let ok = match &self {
            Arity::Strict(expected) => *expected == got,
            Arity::Min(expected_min) => got >= *expected_min,
            Arity::Range(range) => range_contains(range, got),
        };
        if ok {
            Ok(())
        } else {
            Err(InvalidArity::from_arity(self, got))
        }
    }
}

/// The formal arguments of a function.
#[derive(Debug, Clone, PartialEq)]
pub struct FunctionArguments {
    variadic: bool,
    arguments: Vec<Argument>,
}

/// The number of arguments of `s` that are not optional.
pub open spec fn count_required(s: Seq<Argument>) -> nat
    decreases s.len(),
{
    if s.len() == 0 {
        0
    } else {
        count_required(s.drop_last()) + if s.last().spec_is_optional() {
            0nat
        } else {
            1nat
        }
    }
}

/// The index of the first argument of `s` that is named `name`.
pub open spec fn find_named(s: Seq<Argument>, name: Seq<char>) -> Option<int>
    decreases s.len(),
{
    if s.len() == 0 {
        None
    } else if s[0] matches Argument::Named(n) && n@ == name {
        Some(0)
    } else {
        match find_named(s.drop_first(), name) {
            Some(j) => Some(j + 1),
            None => None,
        }
    }
}

/// Whether some argument of `s` has a name.
pub open spec fn has_named_spec(s: Seq<Argument>) -> bool {
    exists|i: int| 0 <= i < s.len() && #[trigger] s[i] is Named
}

/// What `reorder` returns when the formal arguments hold names: each actual
/// argument is put at the index of the formal argument of the same name, or,
/// when it has no name, at the next positional index. `Err` holds the first
/// unknown name.
pub open spec fn reorder_from<T>(
    formal: Seq<Argument>,
    actual: Seq<(Option<String>, T)>,
    acc: Seq<Option<T>>,
    i: int,
) -> Result<Seq<Option<T>>, Seq<char>>
    decreases actual.len(),
{
    if actual.len() == 0 {
        Ok(acc)
    } else {
        let (name_opt, v) = actual[0];
        match name_opt {
            Some(name) => match find_named(formal, name@) {
                None => Err(name@),
                Some(j) => reorder_from(formal, actual.drop_first(), acc.update(j, Some(v)), i),
            },
            None => reorder_from(formal, actual.drop_first(), acc.update(i, Some(v)), i + 1),
        }
    }
}

/// Whether placing the actual arguments, from the next positional index
/// `i` on, runs past the formal arguments with an argument given without a
/// name before any unknown name stops it.
pub open spec fn reorder_overflows<T>(
    formal: Seq<Argument>,
    actual: Seq<(Option<String>, T)>,
    i: int,
) -> bool
    decreases actual.len(),
{
    if actual.len() == 0 {
        false
    } else {
        match actual[0].0 {
            Some(name) => match find_named(formal, name@) {
                None => false,
                Some(_) => reorder_overflows(formal, actual.drop_first(), i),
            },
            None => i >= formal.len() || reorder_overflows(formal, actual.drop_first(), i + 1),
        }
    }
}

impl FunctionArguments {
    pub closed spec fn is_variadic(self) -> bool {
        self.variadic
    }

    pub closed spec fn formal(self) -> Seq<Argument> {
        self.arguments@
    }

    pub fn nullary() -> (r: Self)
        ensures
            !r.is_variadic(),
            r.formal() == Seq::<Argument>::empty(),
    {
        Self { variadic: false, arguments: Vec::new() }
    }

    pub fn unary() -> (r: Self)
        ensures
            !r.is_variadic(),
            r.formal() == seq![Argument::Positional],
    {
        let mut arguments = Vec::new();
        arguments.push(Argument::Positional);
        Self { variadic: false, arguments }
    }

    pub fn binary() -> (r: Self)
        ensures
            !r.is_variadic(),
            r.formal() == seq![Argument::Positional, Argument::Positional],
    {
        let mut arguments = Vec::new();
        arguments.push(Argument::Positional);
        arguments.push(Argument::Positional);
        Self { variadic: false, arguments }
    }

    fn positionals(n: usize) -> (r: Vec<Argument>)
        ensures
            r@ == Seq::new(n as nat, |i: int| Argument::Positional),
    {
        let mut arguments = Vec::new();
        let mut k: usize = 0;
        while k < n
            invariant
                k <= n,
                arguments@ == Seq::new(k as nat, |i: int| Argument::Positional),
            decreases n - k,
        {
            arguments.push(Argument::Positional);
            k += 1;
        }
        arguments
    }

    pub fn nary(n: usize) -> (r: Self)
        ensures
            !r.is_variadic(),
            r.formal() == Seq::new(n as nat, |i: int| Argument::Positional),
    {
        Self { variadic: false, arguments: Self::positionals(n) }
    }

    pub fn variadic(n: usize) -> (r: Self)
        ensures
            r.is_variadic(),
            r.formal() == Seq::new(n as nat, |i: int| Argument::Positional),
    {
        Self { variadic: true, arguments: Self::positionals(n) }
    }

    /// `start` positional arguments followed by optional ones up to `end`
    /// arguments in all.
    pub fn with_range(range: RangeInclusive<usize>) -> (r: Self)
        requires
            !range@.exhausted,
        ensures
            !r.is_variadic(),
            r.formal() == Seq::new(
                if range@.end > range@.start { range@.end as nat } else { range@.start as nat },
                |i: int| if i < range@.start { Argument::Positional } else { Argument::Optional },
            ),
    {
        let start = range_start(&range);
        let end = range_end(&range);
        let mut args = Self::positionals(start);
        while args.len() < end
            invariant
                start <= args@.len() <= if end > start { end } else { start },
                args@ == Seq::new(
                    args@.len(),
                    |i: int| if i < start { Argument::Positional } else { Argument::Optional },
                ),
            decreases end - args@.len(),
        {
            args.push(Argument::Optional);
        }
        Self { variadic: false, arguments: args }
    }

    pub fn complex(arguments: Vec<Argument>) -> (r: Self)
        ensures
            !r.is_variadic(),
            r.formal() == arguments@,
    {
        Self { variadic: false, arguments }
    }

    pub fn has_named(&self) -> (r: bool)
        ensures
            r == has_named_spec(self.formal()),
    {
        let mut k: usize = 0;
        while k < self.arguments.len()
            invariant
                k <= self.arguments@.len(),
                forall|i: int| 0 <= i < k ==> !(#[trigger] self.arguments@[i] is Named),
            decreases self.arguments@.len() - k,
        {
            if let Argument::Named(_) = &self.arguments[k] {
                return true;
            }
            k += 1;
        }
        false
    }

    fn count_required_args(&self) -> (r: usize)
        ensures
            r == count_required(self.formal()),
    {
        let mut k: usize = 0;
        let mut c: usize = 0;
        while k < self.arguments.len()
            invariant
                k <= self.arguments@.len(),
                c == count_required(self.arguments@.take(k as int)),
                c <= k,
            decreases self.arguments@.len() - k,
        {
            assert(self.arguments@.take(k + 1).drop_last() == self.arguments@.take(k as int));
            if !self.arguments[k].is_optional() {
                c += 1;
            }
            k += 1;
        }
        assert(self.arguments@.take(k as int) == self.arguments@);
        c
    }

    /// The arity that the formal arguments define.
    pub fn arity(&self) -> (r: Arity)
        ensures
            self.is_arity(r),
    {
        if self.variadic {
            Arity::Min(self.arguments.len())
        } else {
            let min = self.count_required_args();
            if min == self.arguments.len() {
                Arity::Strict(min)
            } else {
                Arity::Range(new_range(min, self.arguments.len()))
            }
        }
    }

    /// Whether `a` is the arity that the formal arguments define: at least
    /// as many arguments as there are formal ones for a variadic function,
    /// else from the required ones to all of them.
    pub open spec fn is_arity(self, a: Arity) -> bool {
        &&& self.is_variadic() ==> a == Arity::Min(self.formal().len() as usize)
        &&& !self.is_variadic() && count_required(self.formal()) == self.formal().len() ==> a
            == Arity::Strict(self.formal().len() as usize)
        &&& !self.is_variadic() && count_required(self.formal()) != self.formal().len() ==> (
        a matches Arity::Range(rg) && rg@ == (RangeInclusiveView {
            start: count_required(self.formal()) as usize,
            end: self.formal().len() as usize,
            exhausted: false,
        }))
    }

    /// `Ok` exactly when a call with `got` arguments meets the arity;
    /// otherwise the error that reports the arity and `got`.
    pub fn validate_arity(&self, got: usize) -> (r: Result<(), InvalidArity>)
        ensures
            r is Ok <==> (if self.is_variadic() {
                got >= self.formal().len()
            } else {
                count_required(self.formal()) <= got <= self.formal().len()
            }),
            r matches Err(e) ==> e.got == got && self.is_arity(e.expected),
            forall|a: Arity| #[trigger] self.is_arity(a) ==> (r is Ok <==> arity_accepts(a, got as int)),
    {
        proof {
            lemma_count_required_bound(self.formal());
            assert(self.formal().len() == self.arguments.len());
        }
        let a = self.arity();
        a.validate(got)
    }

    fn find_named_arg_index(&self, name: &str) -> (r: Option<usize>)
        ensures
            r matches Some(j) ==> find_named(self.formal(), name@) == Some(j as int),
            r is None ==> find_named(self.formal(), name@) is None,
    {
        let mut k: usize = 0;
        assert(self.arguments@.skip(0) == self.arguments@);
        while k < self.arguments.len()
            invariant
                k <= self.arguments@.len(),
                find_named(self.arguments@, name@) == match find_named(
                    self.arguments@.skip(k as int),
                    name@,
                ) {
                    Some(j) => Some(j + k),
                    None => None::<int>,
                },
            decreases self.arguments@.len() - k,
        {
            let ghost rest = self.arguments@.skip(k as int);
            assert(rest.drop_first() == self.arguments@.skip(k + 1));
            let found = match &self.arguments[k] {
                Argument::Named(n) => str_eq(n.as_str(), name),
                _ => false,
            };
            if found {
                return Some(k);
            }
            k += 1;
        }
        None
    }

    /// Puts actual arguments, given in call order and possibly by name, in
    /// the order of the formal arguments (see `reorder_from`). When the
    /// function is variadic or takes no named argument, the values come out in
    /// call order.
    pub fn reorder<T>(&self, actual_args: Vec<(Option<String>, T)>) -> (r: Result<
        Vec<Option<T>>,
        ConcretizationError,
    >)
        requires
            self.is_variadic() || !has_named_spec(self.formal()) || !reorder_overflows(
                self.formal(),
                actual_args@,
                0,
            ),
        ensures
            self.is_variadic() || !has_named_spec(self.formal()) ==> (r matches Ok(v) && v@
                == actual_args@.map_values(|p: (Option<String>, T)| Some(p.1))),
            !(self.is_variadic() || !has_named_spec(self.formal())) ==> match reorder_from(
                self.formal(),
                actual_args@,
                Seq::new(self.formal().len(), |i: int| None::<T>),
                0,
            ) {
                Ok(s) => (r matches Ok(v) && v@ == s),
                Err(name) => (r matches Err(ConcretizationError::UnknownArgumentName(n)) && n@
                    == name),
            },
    {
        let ghost orig = actual_args@;
        let mut rest = actual_args;
        if self.variadic || !self.has_named() {
            let mut out: Vec<Option<T>> = Vec::new();
            let ghost mut k: int = 0;
            while rest.len() > 0
                invariant
                    0 <= k <= orig.len(),
                    orig == actual_args@,
                    rest@ == orig.skip(k),
                    out@ == orig.take(k).map_values(|p: (Option<String>, T)| Some(p.1)),
                decreases rest@.len(),
            {
                let (_, value) = rest.remove(0);
                out.push(Some(value));
                proof {
                    assert(orig.take(k + 1) == orig.take(k).push(orig[k]));
                    k = k + 1;
                    assert(rest@ == orig.skip(k));
                }
            }
            assert(orig.take(k) == orig);
            return Ok(out);
        }
        let n = self.arguments.len();
        let mut reordered: Vec<Option<T>> = Vec::new();
        let mut z: usize = 0;
        while z < n
            invariant
                z <= n,
                n == self.formal().len(),
                reordered@ == Seq::new(z as nat, |i: int| None::<T>),
            decreases n - z,
        {
            reordered.push(None);
            z += 1;
        }
        let ghost init = reordered@;
        let mut i: usize = 0;
        while rest.len() > 0
            invariant
                !(self.is_variadic() || !has_named_spec(self.formal())),
                orig == actual_args@,
                init == Seq::new(self.formal().len(), |i: int| None::<T>),
                n == self.formal().len(),
                reordered@.len() == n,
                i <= n,
                !reorder_overflows(self.formal(), rest@, i as int),
                reorder_from(self.formal(), orig, init, 0) == reorder_from(
                    self.formal(),
                    rest@,
                    reordered@,
                    i as int,
                ),
            decreases rest@.len(),
        {
            let ghost before = rest@;
            let (name_opt, value) = rest.remove(0);
            assert(before.drop_first() == rest@);
            match name_opt {
                Some(name) => {
                    match self.find_named_arg_index(name.as_str()) {
                        None => {
                            assert(reorder_from(self.formal(), before, reordered@, i as int)
                                == Err::<Seq<Option<T>>, Seq<char>>(name@));
                            assert(reorder_from(self.formal(), orig, init, 0)
                                == Err::<Seq<Option<T>>, Seq<char>>(name@));
                            return Err(ConcretizationError::UnknownArgumentName(name));
                        },
                        Some(j) => {
                            proof {
                                lemma_find_named_bound(self.formal(), name@);
                            }
                            reordered.set(j, Some(value));
                        },
                    }
                },
                None => {
                    reordered.set(i, Some(value));
                    i += 1;
                },
            }
        }
        Ok(reordered)
    }
}

/// The formal arguments that `FunctionArguments::with_range` builds.
pub open spec fn ranged_formal(start: nat, end: nat) -> Seq<Argument> {
    Seq::new(
        if end > start { end } else { start },
        |i: int| if i < start { Argument::Positional } else { Argument::Optional },
    )
}

proof fn lemma_count_ranged(start: nat, end: nat, k: int)
    requires
        0 <= k <= ranged_formal(start, end).len(),
    ensures
        count_required(ranged_formal(start, end).take(k)) == if k < start { k } else { start as int },
    decreases k,
{
    let s = ranged_formal(start, end);
    if k > 0 {
        assert(s.take(k).drop_last() == s.take(k - 1));
        lemma_count_ranged(start, end, k - 1);
    } else {
        assert(s.take(0).len() == 0);
    }
}

/// A function built with `with_range(start..=end)` accepts exactly from
/// `start` to `end` arguments (exactly `start` when `end` is below it).
pub proof fn law_with_range_accepts(start: nat, end: nat, got: int)
    ensures
        count_required(ranged_formal(start, end)) <= got <= ranged_formal(start, end).len() <==> (
        start <= got <= if end > start { end } else { start }),
{
    let s = ranged_formal(start, end);
    lemma_count_ranged(start, end, s.len() as int);
    assert(s.take(s.len() as int) == s);
}

/// `acc` with the values of `actual` put from index `i` on.
pub open spec fn placed<T>(actual: Seq<(Option<String>, T)>, acc: Seq<Option<T>>, i: int) -> Seq<Option<T>> {
    Seq::new(acc.len(), |j: int| if i <= j < i + actual.len() { Some(actual[j - i].1) } else { acc[j] })
}

/// Actual arguments given without names keep their order: from index `i`
/// on, the formal arguments receive them in turn.
pub proof fn law_reorder_unnamed<T>(
    formal: Seq<Argument>,
    actual: Seq<(Option<String>, T)>,
    acc: Seq<Option<T>>,
    i: int,
)
    requires
        forall|k: int| 0 <= k < actual.len() ==> (#[trigger] actual[k]).0 is None,
        0 <= i,
        i + actual.len() <= acc.len(),
    ensures
        reorder_from(formal, actual, acc, i) == Ok::<Seq<Option<T>>, Seq<char>>(
            placed(actual, acc, i),
        ),
    decreases actual.len(),
{
    if actual.len() > 0 {
        let rest = actual.drop_first();
        assert forall|k: int| 0 <= k < rest.len() implies (#[trigger] rest[k]).0 is None by {
            assert(rest[k] == actual[k + 1]);
        }
        assert(actual[0].0 is None);
        let acc2 = acc.update(i, Some(actual[0].1));
        law_reorder_unnamed(formal, rest, acc2, i + 1);
        assert(reorder_from(formal, actual, acc, i) == reorder_from(formal, rest, acc2, i + 1));
        assert(placed(rest, acc2, i + 1) =~= placed(actual, acc, i));
    } else {
        assert(acc =~= placed(actual, acc, i));
    }
}

proof fn lemma_find_named_bound(s: Seq<Argument>, name: Seq<char>)
    ensures
        find_named(s, name) matches Some(j) ==> 0 <= j < s.len(),
    decreases s.len(),
{
    if s.len() > 0 {
        lemma_find_named_bound(s.drop_first(), name);
    }
}

proof fn lemma_count_required_bound(s: Seq<Argument>)
    ensures
        count_required(s) <= s.len(),
    decreases s.len(),
{
    if s.len() > 0 {
        lemma_count_required_bound(s.drop_last());
    }
}

} // verus!
