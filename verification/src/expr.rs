//! Expressions of the expression language: their syntax tree, and how the
//! parser builds it out of operators, literals and function calls.
use vstd::prelude::*;

use crate::text::{chars_of, push_char, str_eq, string_from_chars};

verus! {

/// A slice `[start:end]`, `[start:]`, `[:end]` or `[:]`.
#[derive(Debug, PartialEq, Clone)]
pub enum Slice<T> {
    Full,
    Closed(T, T),
    From(T),
    To(T),
}

/// A bound of a star slice of columns: a position or a column name.
#[derive(Debug, PartialEq, Clone)]
pub enum StarBound {
    Integer(i64),
    Str(String),
}

/// A call of a function, its arguments possibly named.
#[derive(Debug, PartialEq)]
pub struct FunctionCall {
    pub name: String,
    pub args: Vec<(Option<String>, Expr)>,
}

/// An expression. A float literal is held as its text, without the
/// underscores that may separate its digits.
#[derive(Debug, PartialEq)]
pub enum Expr {
    Func(FunctionCall),
    Lambda(Vec<String>, Box<Expr>),
    LambdaBinding(String),
    Int(i64),
    Float(String),
    Identifier(String, bool),
    Str(String),
    BStr(Vec<u8>),
    List(Vec<Expr>),
    Dict(Vec<(String, Expr)>),
    Regex(String, bool),
    Slice(Slice<i64>),
    StarSlice(Slice<StarBound>),
    Bool(bool),
    Underscore,
    Null,
}

/// An expression as a specification sees it: strings as characters and
/// vectors as sequences.
pub ghost enum ExprV {
    Func(Seq<char>, Seq<(Option<Seq<char>>, ExprV)>),
    Lambda(Seq<Seq<char>>, Box<ExprV>),
    LambdaBinding(Seq<char>),
    Int(int),
    Float(Seq<char>),
    Identifier(Seq<char>, bool),
    Str(Seq<char>),
    BStr(Seq<u8>),
    List(Seq<ExprV>),
    Dict(Seq<(Seq<char>, ExprV)>),
    Regex(Seq<char>, bool),
    Slice(Slice<i64>),
    StarSlice(Slice<StarBoundV>),
    Bool(bool),
    Underscore,
    Null,
}

/// A bound of a star slice, as a specification sees it.
pub ghost enum StarBoundV {
    Integer(int),
    Str(Seq<char>),
}

pub open spec fn star_bound_view(b: StarBound) -> StarBoundV {
    match b {
        StarBound::Integer(i) => StarBoundV::Integer(i as int),
        StarBound::Str(s) => StarBoundV::Str(s@),
    }
}

pub open spec fn star_slice_view(s: Slice<StarBound>) -> Slice<StarBoundV> {
    match s {
        Slice::Full => Slice::Full,
        Slice::Closed(a, b) => Slice::Closed(star_bound_view(a), star_bound_view(b)),
        Slice::From(a) => Slice::From(star_bound_view(a)),
        Slice::To(b) => Slice::To(star_bound_view(b)),
    }
}

pub open spec fn names_view(names: Seq<String>) -> Seq<Seq<char>> {
    names.map_values(|n: String| n@)
}

/// The view of an expression.
pub open spec fn expr_view(e: Expr) -> ExprV
    decreases e,
{
    match e {
        Expr::Func(call) => ExprV::Func(call.name@, args_view(call.args@)),
        Expr::Lambda(names, body) => ExprV::Lambda(names_view(names@), Box::new(expr_view(*body))),
        Expr::LambdaBinding(n) => ExprV::LambdaBinding(n@),
        Expr::Int(i) => ExprV::Int(i as int),
        Expr::Float(t) => ExprV::Float(t@),
        Expr::Identifier(n, unsure) => ExprV::Identifier(n@, unsure),
        Expr::Str(t) => ExprV::Str(t@),
        Expr::BStr(b) => ExprV::BStr(b@),
        Expr::List(items) => ExprV::List(list_view(items@)),
        Expr::Dict(entries) => ExprV::Dict(dict_view(entries@)),
        Expr::Regex(t, i) => ExprV::Regex(t@, i),
        Expr::Slice(sl) => ExprV::Slice(sl),
        Expr::StarSlice(sl) => ExprV::StarSlice(star_slice_view(sl)),
        Expr::Bool(b) => ExprV::Bool(b),
        Expr::Underscore => ExprV::Underscore,
        Expr::Null => ExprV::Null,
    }
}

/// The view of the arguments of a call.
pub open spec fn args_view(s: Seq<(Option<String>, Expr)>) -> Seq<(Option<Seq<char>>, ExprV)>
    decreases s,
{
    if s.len() == 0 {
        Seq::empty()
    } else {
        args_view(s.drop_last()).push(
            (
                match s.last().0 {
                    Some(n) => Some(n@),
                    None => None,
                },
                expr_view(s.last().1),
            ),
        )
    }
}

/// The view of the items of a list.
pub open spec fn list_view(s: Seq<Expr>) -> Seq<ExprV>
    decreases s,
{
    if s.len() == 0 {
        Seq::empty()
    } else {
        list_view(s.drop_last()).push(expr_view(s.last()))
    }
}

/// The view of the entries of a dictionary.
pub open spec fn dict_view(s: Seq<(String, Expr)>) -> Seq<(Seq<char>, ExprV)>
    decreases s,
{
    if s.len() == 0 {
        Seq::empty()
    } else {
        dict_view(s.drop_last()).push((s.last().0@, expr_view(s.last().1)))
    }
}

/// Arguments given without names.
pub open spec fn unnamed(s: Seq<ExprV>) -> Seq<(Option<Seq<char>>, ExprV)> {
    s.map_values(|e: ExprV| (None::<Seq<char>>, e))
}

impl FunctionCall {
    /// The name and arguments of the call.
    pub open spec fn view_call(&self) -> (Seq<char>, Seq<(Option<Seq<char>>, ExprV)>) {
        (self.name@, args_view(self.args@))
    }

    /// A call whose arguments have no names.
    pub fn new(name: &str, args: Vec<Expr>) -> (r: Self)
        ensures
            r.view_call() == (name@, unnamed(list_view(args@))),
    {
        let mut rest = args;
        let ghost orig = rest@;
        let mut out: Vec<(Option<String>, Expr)> = Vec::new();
        let ghost mut k: int = 0;
        while rest.len() > 0
            invariant
                0 <= k <= orig.len(),
                rest@ == orig.skip(k),
                args_view(out@) == unnamed(list_view(orig.take(k))),
            decreases rest@.len(),
        {
            let e = rest.remove(0);
            let ghost before = out@;
            out.push((None, e));
            proof {
                assert(orig[k] == e);
                assert(orig.take(k + 1).drop_last() == orig.take(k));
                assert(out@.drop_last() == before);
                assert(unnamed(list_view(orig.take(k + 1))) =~= unnamed(list_view(orig.take(k))).push(
                    (None::<Seq<char>>, expr_view(e)),
                ));
                k = k + 1;
            }
        }
        assert(orig.take(k) == orig);
        Self { name: name.to_owned(), args: out }
    }

    /// A call whose arguments may have names.
    pub fn with_named_args(name: &str, args: Vec<(Option<String>, Expr)>) -> (r: Self)
        ensures
            r.view_call() == (name@, args_view(args@)),
    {
        Self { name: name.to_owned(), args }
    }

    /// The arguments, without their names.
    pub fn raw_args_as_ref(&self) -> (r: Vec<&Expr>)
        ensures
            r@.len() == self.args@.len(),
            forall|i: int| 0 <= i < r@.len() ==> *r@[i] == self.args@[i].1,
    {
        let mut r: Vec<&Expr> = Vec::new();
        let mut i: usize = 0;
        while i < self.args.len()
            invariant
                i <= self.args@.len(),
                r@.len() == i,
                forall|j: int| 0 <= j < i ==> *r@[j] == self.args@[j].1,
            decreases self.args@.len() - i,
        {
            r.push(&self.args[i].1);
            i += 1;
        }
        r
    }
}


/// A copy of a list of names.
fn copy_names(names: &Vec<String>) -> (r: Vec<String>)
    ensures
        names_view(r@) == names_view(names@),
{
    let mut r: Vec<String> = Vec::new();
    let mut i: usize = 0;
    while i < names.len()
        invariant
            i <= names@.len(),
            r@.len() == i,
            forall|j: int| 0 <= j < i ==> r@[j]@ == names@[j]@,
        decreases names@.len() - i,
    {
        r.push(names[i].clone());
        i += 1;
    }
    assert(names_view(r@) =~= names_view(names@));
    r
}

/// A copy of a star slice.
fn copy_star_slice(s: &Slice<StarBound>) -> (r: Slice<StarBound>)
    ensures
        star_slice_view(r) == star_slice_view(*s),
{
    match s {
        Slice::Full => Slice::Full,
        Slice::Closed(a, b) => Slice::Closed(copy_star_bound(a), copy_star_bound(b)),
        Slice::From(a) => Slice::From(copy_star_bound(a)),
        Slice::To(b) => Slice::To(copy_star_bound(b)),
    }
}

fn copy_star_bound(b: &StarBound) -> (r: StarBound)
    ensures
        star_bound_view(r) == star_bound_view(*b),
{
    match b {
        StarBound::Integer(i) => StarBound::Integer(*i),
        StarBound::Str(s) => StarBound::Str(s.clone()),
    }
}

fn copy_int_slice(s: &Slice<i64>) -> (r: Slice<i64>)
    ensures
        r == *s,
{
    match s {
        Slice::Full => Slice::Full,
        Slice::Closed(a, b) => Slice::Closed(*a, *b),
        Slice::From(a) => Slice::From(*a),
        Slice::To(b) => Slice::To(*b),
    }
}

impl Expr {
    /// A copy of the expression.
    pub fn duplicate(&self) -> (r: Expr)
        ensures
            expr_view(r) == expr_view(*self),
        decreases self,
    {
        match self {
            Expr::Func(call) => {
                let mut args: Vec<(Option<String>, Expr)> = Vec::new();
                let mut i: usize = 0;
                while i < call.args.len()
                    invariant
                        *self == Expr::Func(*call),
                        i <= call.args@.len(),
                        args_view(args@) == args_view(call.args@.take(i as int)),
                    decreases call.args@.len() - i,
                {
                    let name = match &call.args[i].0 {
                        Some(n) => Some(n.clone()),
                        None => None,
                    };
                    proof {
                        assert(decreases_to!(*self => (*self)->Func_0));
                        assert(decreases_to!(*call => call.args));
                        assert(decreases_to!(call.args => call.args@));
                        assert(decreases_to!(call.args@ => call.args@[i as int]));
                        assert(decreases_to!(call.args@[i as int] => call.args@[i as int].1));
                    }
                    let e = call.args[i].1.duplicate();
                    let ghost before = args@;
                    args.push((name, e));
                    i += 1;
                    proof {
                        assert(call.args@.take(i as int).drop_last() == call.args@.take(i - 1));
                        assert(args@.drop_last() == before);
                    }
                }
                assert(call.args@.take(i as int) == call.args@);
                Expr::Func(FunctionCall { name: call.name.clone(), args })
            },
            Expr::Lambda(names, body) => {
                let b = (**body).duplicate();
                Expr::Lambda(copy_names(names), Box::new(b))
            },
            Expr::LambdaBinding(n) => Expr::LambdaBinding(n.clone()),
            Expr::Int(i) => Expr::Int(*i),
            Expr::Float(t) => Expr::Float(t.clone()),
            Expr::Identifier(n, u) => Expr::Identifier(n.clone(), *u),
            Expr::Str(t) => Expr::Str(t.clone()),
            Expr::BStr(b) => Expr::BStr(b.clone()),
            Expr::List(items) => {
                let mut out: Vec<Expr> = Vec::new();
                let mut i: usize = 0;
                while i < items.len()
                    invariant
                        *self == Expr::List(*items),
                        i <= items@.len(),
                        list_view(out@) == list_view(items@.take(i as int)),
                    decreases items@.len() - i,
                {
                    proof {
                        assert(decreases_to!(*self => (*self)->List_0));
                        assert(decreases_to!(*items => items@));
                        assert(decreases_to!(items@ => items@[i as int]));
                    }
                    let e = items[i].duplicate();
                    let ghost before = out@;
                    out.push(e);
                    i += 1;
                    proof {
                        assert(items@.take(i as int).drop_last() == items@.take(i - 1));
                        assert(out@.drop_last() == before);
                    }
                }
                assert(items@.take(i as int) == items@);
                Expr::List(out)
            },
            Expr::Dict(entries) => {
                let mut out: Vec<(String, Expr)> = Vec::new();
                let mut i: usize = 0;
                while i < entries.len()
                    invariant
                        *self == Expr::Dict(*entries),
                        i <= entries@.len(),
                        dict_view(out@) == dict_view(entries@.take(i as int)),
                    decreases entries@.len() - i,
                {
                    proof {
                        assert(decreases_to!(*self => (*self)->Dict_0));
                        assert(decreases_to!(*entries => entries@));
                        assert(decreases_to!(entries@ => entries@[i as int]));
                        assert(decreases_to!(entries@[i as int] => entries@[i as int].1));
                    }
                    let e = entries[i].1.duplicate();
                    let ghost before = out@;
                    out.push((entries[i].0.clone(), e));
                    i += 1;
                    proof {
                        assert(entries@.take(i as int).drop_last() == entries@.take(i - 1));
                        assert(out@.drop_last() == before);
                    }
                }
                assert(entries@.take(i as int) == entries@);
                Expr::Dict(out)
            },
            Expr::Regex(t, ci) => Expr::Regex(t.clone(), *ci),
            Expr::Slice(sl) => Expr::Slice(copy_int_slice(sl)),
            Expr::StarSlice(sl) => Expr::StarSlice(copy_star_slice(sl)),
            Expr::Bool(b) => Expr::Bool(*b),
            Expr::Underscore => Expr::Underscore,
            Expr::Null => Expr::Null,
        }
    }
}


/// An argument of a call, its underscores replaced by `w`: an argument
/// that is an underscore becomes `w`, and the underscores of an argument
/// that is itself a call are replaced in turn. Other arguments, lists and
/// lambdas among them, are left as they are.
pub open spec fn filled_arg(a: ExprV, w: ExprV) -> ExprV
    decreases a,
{
    match a {
        ExprV::Func(name, args) => ExprV::Func(name, filled_args(args, w)),
        ExprV::Underscore => w,
        _ => a,
    }
}

/// The arguments of a call, their underscores replaced by `w`.
pub open spec fn filled_args(args: Seq<(Option<Seq<char>>, ExprV)>, w: ExprV) -> Seq<
    (Option<Seq<char>>, ExprV),
>
    decreases args,
{
    if args.len() == 0 {
        Seq::empty()
    } else {
        filled_args(args.drop_last(), w).push((args.last().0, filled_arg(args.last().1, w)))
    }
}

/// The arguments `args`, their underscores replaced by `with`.
fn fill_args(args: Vec<(Option<String>, Expr)>, with: &Expr) -> (r: Vec<(Option<String>, Expr)>)
    ensures
        args_view(r@) == filled_args(args_view(args@), expr_view(*with)),
    decreases args@,
{
    let ghost orig = args@;
    let mut rest = args;
    let mut out: Vec<(Option<String>, Expr)> = Vec::new();
    let ghost mut k: int = 0;
    while rest.len() > 0
        invariant
            0 <= k <= orig.len(),
            orig == args@,
            rest@ == orig.skip(k),
            args_view(out@) == filled_args(args_view(orig.take(k)), expr_view(*with)),
        decreases rest@.len(),
    {
        let (name, arg) = rest.remove(0);
        proof {
            assert(orig[k] == (name, arg));
        }
        let filled = match arg {
            Expr::Func(call) => {
                proof {
                    assert(decreases_to!(orig => orig[k]));
                    assert(decreases_to!(orig[k] => orig[k].1));
                    assert(decreases_to!(orig[k].1 => orig[k].1->Func_0));
                    assert(decreases_to!(orig[k].1->Func_0 => orig[k].1->Func_0.args));
                    assert(decreases_to!(orig[k].1->Func_0.args => orig[k].1->Func_0.args@));
                }
                let sub = fill_args(call.args, with);
                Expr::Func(FunctionCall { name: call.name, args: sub })
            },
            Expr::Underscore => with.duplicate(),
            other => other,
        };
        assert(expr_view(filled) == filled_arg(expr_view(arg), expr_view(*with)));
        let ghost before = out@;
        out.push((name, filled));
        proof {
            assert(out@.drop_last() == before);
            assert(orig.take(k + 1).drop_last() == orig.take(k));
            assert(args_view(orig.take(k + 1)).drop_last() == args_view(orig.take(k)));
            k = k + 1;
        }
    }
    assert(orig.take(k) == orig);
    out
}

impl FunctionCall {
    /// Replaces the underscores among the arguments, and among those of the
    /// calls that are arguments, by `with`: what a pipe does to the call on
    /// its right.
    pub fn fill_underscore(&mut self, with: &Expr)
        ensures
            final(self).view_call() == (old(self).name@, filled_args(
                args_view(old(self).args@),
                expr_view(*with),
            )),
    {
        let mut args: Vec<(Option<String>, Expr)> = Vec::new();
        std::mem::swap(&mut args, &mut self.args);
        self.args = fill_args(args, with);
    }
}


/// The name under which the parser writes a negation.
pub open spec fn neg_name() -> Seq<char> {
    seq!['n', 'e', 'g']
}

/// Whether `names` holds the name `n`.
pub open spec fn has_name(names: Seq<Seq<char>>, n: Seq<char>) -> bool {
    exists|i: int| 0 <= i < names.len() && names[i] == n
}

/// An expression in the body of a lambda whose parameters are `names`: an
/// identifier that names a parameter becomes a binding of it, within
/// calls, lists and dictionaries; nested lambdas are left as they are.
pub open spec fn bound(e: ExprV, names: Seq<Seq<char>>) -> ExprV
    decreases e,
{
    match e {
        ExprV::Identifier(n, _) => if has_name(names, n) {
            ExprV::LambdaBinding(n)
        } else {
            e
        },
        ExprV::Func(name, args) => ExprV::Func(name, bound_args(args, names)),
        ExprV::List(items) => ExprV::List(bound_list(items, names)),
        ExprV::Dict(entries) => ExprV::Dict(bound_dict(entries, names)),
        _ => e,
    }
}

pub open spec fn bound_args(args: Seq<(Option<Seq<char>>, ExprV)>, names: Seq<Seq<char>>) -> Seq<
    (Option<Seq<char>>, ExprV),
>
    decreases args,
{
    if args.len() == 0 {
        Seq::empty()
    } else {
        bound_args(args.drop_last(), names).push((args.last().0, bound(args.last().1, names)))
    }
}

pub open spec fn bound_list(items: Seq<ExprV>, names: Seq<Seq<char>>) -> Seq<ExprV>
    decreases items,
{
    if items.len() == 0 {
        Seq::empty()
    } else {
        bound_list(items.drop_last(), names).push(bound(items.last(), names))
    }
}

pub open spec fn bound_dict(entries: Seq<(Seq<char>, ExprV)>, names: Seq<Seq<char>>) -> Seq<
    (Seq<char>, ExprV),
>
    decreases entries,
{
    if entries.len() == 0 {
        Seq::empty()
    } else {
        bound_dict(entries.drop_last(), names).push(
            (entries.last().0, bound(entries.last().1, names)),
        )
    }
}

/// Whether one of `names` equals `n`.
fn names_contain(names: &Vec<String>, n: &String) -> (r: bool)
    ensures
        r == has_name(names_view(names@), n@),
{
    let mut i: usize = 0;
    while i < names.len()
        invariant
            i <= names@.len(),
            forall|j: int| 0 <= j < i ==> names@[j]@ != n@,
        decreases names@.len() - i,
    {
        if names[i] == *n {
            assert(names_view(names@)[i as int] == n@);
            return true;
        }
        i += 1;
    }
    false
}

fn bind_args(args: Vec<(Option<String>, Expr)>, names: &Vec<String>) -> (r: Vec<(Option<String>, Expr)>)
    ensures
        args_view(r@) == bound_args(args_view(args@), names_view(names@)),
    decreases args@,
{
    let ghost orig = args@;
    let mut rest = args;
    let mut out: Vec<(Option<String>, Expr)> = Vec::new();
    let ghost mut k: int = 0;
    while rest.len() > 0
        invariant
            0 <= k <= orig.len(),
            orig == args@,
            rest@ == orig.skip(k),
            args_view(out@) == bound_args(args_view(orig.take(k)), names_view(names@)),
        decreases rest@.len(),
    {
        let (name, arg) = rest.remove(0);
        proof {
            assert(orig[k] == (name, arg));
            assert(decreases_to!(orig => orig[k]));
            assert(decreases_to!(orig[k] => orig[k].1));
        }
        let b = bind_expr(arg, names);
        let ghost before = out@;
        out.push((name, b));
        proof {
            assert(out@.drop_last() == before);
            assert(orig.take(k + 1).drop_last() == orig.take(k));
            assert(args_view(orig.take(k + 1)).drop_last() == args_view(orig.take(k)));
            k = k + 1;
        }
    }
    assert(orig.take(k) == orig);
    out
}

fn bind_expr(e: Expr, names: &Vec<String>) -> (r: Expr)
    ensures
        expr_view(r) == bound(expr_view(e), names_view(names@)),
    decreases e,
{
    match e {
        Expr::Identifier(n, unsure) => {
            if names_contain(names, &n) {
                Expr::LambdaBinding(n)
            } else {
                Expr::Identifier(n, unsure)
            }
        },
        Expr::Func(call) => {
            proof {
                assert(decreases_to!(e => e->Func_0));
                assert(decreases_to!(e->Func_0 => e->Func_0.args));
                assert(decreases_to!(e->Func_0.args => e->Func_0.args@));
            }
            let args = bind_args(call.args, names);
            Expr::Func(FunctionCall { name: call.name, args })
        },
        Expr::List(items) => {
            let ghost orig = items@;
            let mut rest = items;
            let mut out: Vec<Expr> = Vec::new();
            let ghost mut k: int = 0;
            while rest.len() > 0
                invariant
                    0 <= k <= orig.len(),
                    e == Expr::List(items),
                    orig == items@,
                    rest@ == orig.skip(k),
                    list_view(out@) == bound_list(list_view(orig.take(k)), names_view(names@)),
                decreases rest@.len(),
            {
                let item = rest.remove(0);
                proof {
                    assert(orig[k] == item);
                    assert(decreases_to!(e => e->List_0));
                    assert(decreases_to!(e->List_0 => e->List_0@));
                    assert(decreases_to!(e->List_0@ => e->List_0@[k]));
                }
                let b = bind_expr(item, names);
                let ghost before = out@;
                out.push(b);
                proof {
                    assert(out@.drop_last() == before);
                    assert(orig.take(k + 1).drop_last() == orig.take(k));
                    assert(list_view(orig.take(k + 1)).drop_last() == list_view(orig.take(k)));
                    k = k + 1;
                }
            }
            assert(orig.take(k) == orig);
            Expr::List(out)
        },
        Expr::Dict(entries) => {
            let ghost orig = entries@;
            let mut rest = entries;
            let mut out: Vec<(String, Expr)> = Vec::new();
            let ghost mut k: int = 0;
            while rest.len() > 0
                invariant
                    0 <= k <= orig.len(),
                    e == Expr::Dict(entries),
                    orig == entries@,
                    rest@ == orig.skip(k),
                    dict_view(out@) == bound_dict(dict_view(orig.take(k)), names_view(names@)),
                decreases rest@.len(),
            {
                let (key, item) = rest.remove(0);
                proof {
                    assert(orig[k] == (key, item));
                    assert(decreases_to!(e => e->Dict_0));
                    assert(decreases_to!(e->Dict_0 => e->Dict_0@));
                    assert(decreases_to!(e->Dict_0@ => e->Dict_0@[k]));
                    assert(decreases_to!(e->Dict_0@[k] => e->Dict_0@[k].1));
                }
                let b = bind_expr(item, names);
                let ghost before = out@;
                out.push((key, b));
                proof {
                    assert(out@.drop_last() == before);
                    assert(orig.take(k + 1).drop_last() == orig.take(k));
                    assert(dict_view(orig.take(k + 1)).drop_last() == dict_view(orig.take(k)));
                    k = k + 1;
                }
            }
            assert(orig.take(k) == orig);
            Expr::Dict(out)
        },
        other => other,
    }
}

impl Expr {
    /// Turns the identifiers that name one of `names` into bindings of the
    /// lambda whose parameters these are.
    pub fn bind_lambda_args(&mut self, names: &Vec<String>)
        ensures
            expr_view(*final(self)) == bound(expr_view(*old(self)), names_view(names@)),
    {
        let mut e = Expr::Null;
        std::mem::swap(&mut e, self);
        *self = bind_expr(e, names);
    }
}


/// The text of a float literal, negated: a leading minus sign is taken
/// away, and put in front of a text that has none.
pub open spec fn negated_text(t: Seq<char>) -> Seq<char> {
    if t.len() > 0 && t[0] == '-' {
        t.skip(1)
    } else {
        seq!['-'] + t
    }
}

/// Whether `e` negates a literal number: a call of `neg` with one argument.
pub open spec fn is_negation(name: Seq<char>, args: Seq<(Option<Seq<char>>, ExprV)>) -> bool {
    name == neg_name() && args.len() == 1
}

/// An expression with the negations of literal numbers folded into the
/// literals, within calls, lists and dictionaries. The argument of a
/// negation of something else than a literal number is left as it is.
pub open spec fn simplified(e: ExprV) -> ExprV
    decreases e,
{
    match e {
        ExprV::Func(name, args) => if is_negation(name, args) {
            match args[0].1 {
                ExprV::Int(n) => ExprV::Int(-n),
                ExprV::Float(t) => ExprV::Float(negated_text(t)),
                _ => e,
            }
        } else {
            ExprV::Func(name, simplified_args(args))
        },
        ExprV::List(items) => ExprV::List(simplified_list(items)),
        ExprV::Dict(entries) => ExprV::Dict(simplified_dict(entries)),
        _ => e,
    }
}

pub open spec fn simplified_args(args: Seq<(Option<Seq<char>>, ExprV)>) -> Seq<
    (Option<Seq<char>>, ExprV),
>
    decreases args,
{
    if args.len() == 0 {
        Seq::empty()
    } else {
        simplified_args(args.drop_last()).push((args.last().0, simplified(args.last().1)))
    }
}

pub open spec fn simplified_list(items: Seq<ExprV>) -> Seq<ExprV>
    decreases items,
{
    if items.len() == 0 {
        Seq::empty()
    } else {
        simplified_list(items.drop_last()).push(simplified(items.last()))
    }
}

pub open spec fn simplified_dict(entries: Seq<(Seq<char>, ExprV)>) -> Seq<(Seq<char>, ExprV)>
    decreases entries,
{
    if entries.len() == 0 {
        Seq::empty()
    } else {
        simplified_dict(entries.drop_last()).push((entries.last().0, simplified(entries.last().1)))
    }
}

/// Whether every literal integer that `simplified` negates has a negation
/// that fits in an `i64`.
pub open spec fn negations_fit(e: ExprV) -> bool
    decreases e,
{
    match e {
        ExprV::Func(name, args) => if is_negation(name, args) {
            match args[0].1 {
                ExprV::Int(n) => n != i64::MIN,
                _ => true,
            }
        } else {
            args_fit(args)
        },
        ExprV::List(items) => list_fit(items),
        ExprV::Dict(entries) => dict_fit(entries),
        _ => true,
    }
}

pub open spec fn args_fit(args: Seq<(Option<Seq<char>>, ExprV)>) -> bool
    decreases args,
{
    args.len() == 0 || (args_fit(args.drop_last()) && negations_fit(args.last().1))
}

pub open spec fn list_fit(items: Seq<ExprV>) -> bool
    decreases items,
{
    items.len() == 0 || (list_fit(items.drop_last()) && negations_fit(items.last()))
}

pub open spec fn dict_fit(entries: Seq<(Seq<char>, ExprV)>) -> bool
    decreases entries,
{
    entries.len() == 0 || (dict_fit(entries.drop_last()) && negations_fit(entries.last().1))
}


proof fn lemma_args_view_at(s: Seq<(Option<String>, Expr)>, k: int)
    requires
        0 <= k < s.len(),
    ensures
        args_view(s).len() == s.len(),
        args_view(s)[k].1 == expr_view(s[k].1),
    decreases s.len(),
{
    if k < s.len() - 1 {
        lemma_args_view_at(s.drop_last(), k);
    } else {
        lemma_args_view_len(s.drop_last());
    }
}

proof fn lemma_args_view_len(s: Seq<(Option<String>, Expr)>)
    ensures
        args_view(s).len() == s.len(),
    decreases s.len(),
{
    if s.len() > 0 {
        lemma_args_view_len(s.drop_last());
    }
}

proof fn lemma_list_view_at(s: Seq<Expr>, k: int)
    requires
        0 <= k < s.len(),
    ensures
        list_view(s).len() == s.len(),
        list_view(s)[k] == expr_view(s[k]),
    decreases s.len(),
{
    if k < s.len() - 1 {
        lemma_list_view_at(s.drop_last(), k);
    } else {
        lemma_list_view_len(s.drop_last());
    }
}

proof fn lemma_list_view_len(s: Seq<Expr>)
    ensures
        list_view(s).len() == s.len(),
    decreases s.len(),
{
    if s.len() > 0 {
        lemma_list_view_len(s.drop_last());
    }
}

proof fn lemma_dict_view_at(s: Seq<(String, Expr)>, k: int)
    requires
        0 <= k < s.len(),
    ensures
        dict_view(s).len() == s.len(),
        dict_view(s)[k].1 == expr_view(s[k].1),
    decreases s.len(),
{
    if k < s.len() - 1 {
        lemma_dict_view_at(s.drop_last(), k);
    } else {
        lemma_dict_view_len(s.drop_last());
    }
}

proof fn lemma_dict_view_len(s: Seq<(String, Expr)>)
    ensures
        dict_view(s).len() == s.len(),
    decreases s.len(),
{
    if s.len() > 0 {
        lemma_dict_view_len(s.drop_last());
    }
}

proof fn lemma_args_fit_at(s: Seq<(Option<Seq<char>>, ExprV)>, k: int)
    requires
        args_fit(s),
        0 <= k < s.len(),
    ensures
        negations_fit(s[k].1),
    decreases s.len(),
{
    if k < s.len() - 1 {
        lemma_args_fit_at(s.drop_last(), k);
    }
}

proof fn lemma_list_fit_at(s: Seq<ExprV>, k: int)
    requires
        list_fit(s),
        0 <= k < s.len(),
    ensures
        negations_fit(s[k]),
    decreases s.len(),
{
    if k < s.len() - 1 {
        lemma_list_fit_at(s.drop_last(), k);
    }
}

proof fn lemma_dict_fit_at(s: Seq<(Seq<char>, ExprV)>, k: int)
    requires
        dict_fit(s),
        0 <= k < s.len(),
    ensures
        negations_fit(s[k].1),
    decreases s.len(),
{
    if k < s.len() - 1 {
        lemma_dict_fit_at(s.drop_last(), k);
    }
}

/// The text of a float literal, negated.
fn negate_text(t: &String) -> (r: String)
    ensures
        r@ == negated_text(t@),
{
    let cs = chars_of(t.as_str());
    if cs.len() > 0 && cs[0] == '-' {
        let mut rest: Vec<char> = Vec::new();
        let mut i: usize = 1;
        while i < cs.len()
            invariant
                1 <= i <= cs@.len(),
                rest@ == cs@.subrange(1, i as int),
            decreases cs@.len() - i,
        {
            rest.push(cs[i]);
            i += 1;
        }
        string_from_chars(rest.as_slice())
    } else {
        let mut out: Vec<char> = Vec::new();
        out.push('-');
        let mut i: usize = 0;
        while i < cs.len()
            invariant
                i <= cs@.len(),
                out@ == seq!['-'] + cs@.take(i as int),
            decreases cs@.len() - i,
        {
            out.push(cs[i]);
            i += 1;
        }
        assert(cs@.take(i as int) == cs@);
        string_from_chars(out.as_slice())
    }
}

fn simplify_args(args: Vec<(Option<String>, Expr)>) -> (r: Vec<(Option<String>, Expr)>)
    requires
        args_fit(args_view(args@)),
    ensures
        args_view(r@) == simplified_args(args_view(args@)),
    decreases args@,
{
    let ghost orig = args@;
    let mut rest = args;
    let mut out: Vec<(Option<String>, Expr)> = Vec::new();
    let ghost mut k: int = 0;
    while rest.len() > 0
        invariant
            0 <= k <= orig.len(),
            orig == args@,
            args_fit(args_view(orig)),
            rest@ == orig.skip(k),
            args_view(out@) == simplified_args(args_view(orig.take(k))),
        decreases rest@.len(),
    {
        let (name, arg) = rest.remove(0);
        proof {
            assert(orig[k] == (name, arg));
            assert(decreases_to!(orig => orig[k]));
            assert(decreases_to!(orig[k] => orig[k].1));
            lemma_args_view_at(orig, k);
            lemma_args_fit_at(args_view(orig), k);
        }
        let b = simplify_expr(arg);
        let ghost before = out@;
        out.push((name, b));
        proof {
            assert(out@.drop_last() == before);
            assert(orig.take(k + 1).drop_last() == orig.take(k));
            assert(args_view(orig.take(k + 1)).drop_last() == args_view(orig.take(k)));
            k = k + 1;
        }
    }
    assert(orig.take(k) == orig);
    out
}

fn simplify_expr(e: Expr) -> (r: Expr)
    requires
        negations_fit(expr_view(e)),
    ensures
        expr_view(r) == simplified(expr_view(e)),
    decreases e,
{
    match e {
        Expr::Func(call) => {
            let is_neg = str_eq(call.name.as_str(), "neg");
            proof {
                reveal_strlit("neg");
                assert("neg"@ =~= neg_name());
                lemma_args_view_len(call.args@);
            }
            if is_neg && call.args.len() == 1 {
                proof {
                    lemma_args_view_at(call.args@, 0);
                }
                match &call.args[0].1 {
                    Expr::Int(n) => {
                        return Expr::Int(-*n);
                    },
                    Expr::Float(t) => {
                        return Expr::Float(negate_text(t));
                    },
                    _ => {},
                }
                Expr::Func(call)
            } else {
                proof {
                    assert(decreases_to!(e => e->Func_0));
                    assert(decreases_to!(e->Func_0 => e->Func_0.args));
                    assert(decreases_to!(e->Func_0.args => e->Func_0.args@));
                }
                let args = simplify_args(call.args);
                Expr::Func(FunctionCall { name: call.name, args })
            }
        },
        Expr::List(items) => {
            let ghost orig = items@;
            let mut rest = items;
            let mut out: Vec<Expr> = Vec::new();
            let ghost mut k: int = 0;
            while rest.len() > 0
                invariant
                    0 <= k <= orig.len(),
                    e == Expr::List(items),
                    orig == items@,
                    list_fit(list_view(orig)),
                    rest@ == orig.skip(k),
                    list_view(out@) == simplified_list(list_view(orig.take(k))),
                decreases rest@.len(),
            {
                let item = rest.remove(0);
                proof {
                    assert(orig[k] == item);
                    assert(decreases_to!(e => e->List_0));
                    assert(decreases_to!(e->List_0 => e->List_0@));
                    assert(decreases_to!(e->List_0@ => e->List_0@[k]));
                    lemma_list_view_at(orig, k);
                    lemma_list_fit_at(list_view(orig), k);
                }
                let b = simplify_expr(item);
                let ghost before = out@;
                out.push(b);
                proof {
                    assert(out@.drop_last() == before);
                    assert(orig.take(k + 1).drop_last() == orig.take(k));
                    assert(list_view(orig.take(k + 1)).drop_last() == list_view(orig.take(k)));
                    k = k + 1;
                }
            }
            assert(orig.take(k) == orig);
            Expr::List(out)
        },
        Expr::Dict(entries) => {
            let ghost orig = entries@;
            let mut rest = entries;
            let mut out: Vec<(String, Expr)> = Vec::new();
            let ghost mut k: int = 0;
            while rest.len() > 0
                invariant
                    0 <= k <= orig.len(),
                    e == Expr::Dict(entries),
                    orig == entries@,
                    dict_fit(dict_view(orig)),
                    rest@ == orig.skip(k),
                    dict_view(out@) == simplified_dict(dict_view(orig.take(k))),
                decreases rest@.len(),
            {
                let (key, item) = rest.remove(0);
                proof {
                    assert(orig[k] == (key, item));
                    assert(decreases_to!(e => e->Dict_0));
                    assert(decreases_to!(e->Dict_0 => e->Dict_0@));
                    assert(decreases_to!(e->Dict_0@ => e->Dict_0@[k]));
                    assert(decreases_to!(e->Dict_0@[k] => e->Dict_0@[k].1));
                    lemma_dict_view_at(orig, k);
                    lemma_dict_fit_at(dict_view(orig), k);
                }
                let b = simplify_expr(item);
                let ghost before = out@;
                out.push((key, b));
                proof {
                    assert(out@.drop_last() == before);
                    assert(orig.take(k + 1).drop_last() == orig.take(k));
                    assert(dict_view(orig.take(k + 1)).drop_last() == dict_view(orig.take(k)));
                    k = k + 1;
                }
            }
            assert(orig.take(k) == orig);
            Expr::Dict(out)
        },
        other => other,
    }
}

impl Expr {
    /// Folds the negations of literal numbers into the literals.
    pub fn simplify(&mut self)
        requires
            negations_fit(expr_view(*old(self))),
        ensures
            expr_view(*final(self)) == simplified(expr_view(*old(self))),
    {
        let mut e = Expr::Null;
        std::mem::swap(&mut e, self);
        *self = simplify_expr(e);
    }
}


proof fn lemma_simplified_args(args: Seq<(Option<Seq<char>>, ExprV)>)
    ensures
        simplified_args(args).len() == args.len(),
        simplified_args(simplified_args(args)) == simplified_args(args),
    decreases args,
{
    if args.len() > 0 {
        lemma_simplified_args(args.drop_last());
        law_simplify_idempotent(args.last().1);
        let sa = simplified_args(args);
        assert(sa.drop_last() == simplified_args(args.drop_last()));
    }
}

proof fn lemma_simplified_list(items: Seq<ExprV>)
    ensures
        simplified_list(simplified_list(items)) == simplified_list(items),
    decreases items,
{
    if items.len() > 0 {
        lemma_simplified_list(items.drop_last());
        law_simplify_idempotent(items.last());
        let sl = simplified_list(items);
        assert(sl.drop_last() == simplified_list(items.drop_last()));
    }
}

proof fn lemma_simplified_dict(entries: Seq<(Seq<char>, ExprV)>)
    ensures
        simplified_dict(simplified_dict(entries)) == simplified_dict(entries),
    decreases entries,
{
    if entries.len() > 0 {
        lemma_simplified_dict(entries.drop_last());
        law_simplify_idempotent(entries.last().1);
        let sd = simplified_dict(entries);
        assert(sd.drop_last() == simplified_dict(entries.drop_last()));
    }
}

/// Simplifying twice is simplifying once: the parser simplifies every
/// expression it builds, and so simplifies again those it nests.
pub proof fn law_simplify_idempotent(e: ExprV)
    ensures
        simplified(simplified(e)) == simplified(e),
    decreases e,
{
    match e {
        ExprV::Func(name, args) => {
            if !is_negation(name, args) {
                lemma_simplified_args(args);
            }
        },
        ExprV::List(items) => lemma_simplified_list(items),
        ExprV::Dict(entries) => lemma_simplified_dict(entries),
        _ => {},
    }
}


/// The view of a list, item by item.
pub(crate) proof fn lemma_list_view_map(s: Seq<Expr>)
    ensures
        list_view(s) == s.map_values(|e: Expr| expr_view(e)),
    decreases s.len(),
{
    if s.len() > 0 {
        lemma_list_view_map(s.drop_last());
        assert(s.drop_last().map_values(|e: Expr| expr_view(e)).push(expr_view(s.last()))
            =~= s.map_values(|e: Expr| expr_view(e)));
    } else {
        assert(s.map_values(|e: Expr| expr_view(e)) =~= Seq::<ExprV>::empty());
    }
}

} // verus!
