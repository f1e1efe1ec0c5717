//! Aggregators: values that accumulate what is seen of a column, can be
//! cleared and can absorb the work of another aggregator of the same kind.
use vstd::prelude::*;

use crate::text::push_str;

verus! {

/// Counts truthy and falsey values.
#[derive(Debug, Clone)]
pub struct Count {
    truthy: usize,
    falsey: usize,
}

impl Count {
    pub closed spec fn spec_truthy(&self) -> nat {
        self.truthy as nat
    }

    pub closed spec fn spec_falsey(&self) -> nat {
        self.falsey as nat
    }

    pub fn new() -> (r: Self)
        ensures
            r.spec_truthy() == 0,
            r.spec_falsey() == 0,
    {
        Self { truthy: 0, falsey: 0 }
    }

    pub fn clear(&mut self)
        ensures
            final(self).spec_truthy() == 0,
            final(self).spec_falsey() == 0,
    {
        self.truthy = 0;
        self.falsey = 0;
    }

    pub fn add(&mut self, truthy: bool)
        requires
            truthy ==> old(self).spec_truthy() < usize::MAX,
            !truthy ==> old(self).spec_falsey() < usize::MAX,
        ensures
            final(self).spec_truthy() == old(self).spec_truthy() + if truthy { 1nat } else { 0nat },
            final(self).spec_falsey() == old(self).spec_falsey() + if truthy { 0nat } else { 1nat },
    {
        if truthy {
            self.truthy += 1;
        } else {
            self.falsey += 1;
        }
    }

    pub fn add_truthy(&mut self)
        requires
            old(self).spec_truthy() < usize::MAX,
        ensures
            final(self).spec_truthy() == old(self).spec_truthy() + 1,
            final(self).spec_falsey() == old(self).spec_falsey(),
    {
        self.truthy += 1;
    }

    pub fn add_falsey(&mut self)
        requires
            old(self).spec_falsey() < usize::MAX,
        ensures
            final(self).spec_truthy() == old(self).spec_truthy(),
            final(self).spec_falsey() == old(self).spec_falsey() + 1,
    {
        self.falsey += 1;
    }

    pub fn get_truthy(&self) -> (r: usize)
        ensures
            r == self.spec_truthy(),
    {
        self.truthy
    }

    pub fn get_falsey(&self) -> (r: usize)
        ensures
            r == self.spec_falsey(),
    {
        self.falsey
    }

    pub fn get_total(&self) -> (r: usize)
        requires
            self.spec_truthy() + self.spec_falsey() <= usize::MAX,
        ensures
            r == self.spec_truthy() + self.spec_falsey(),
    {
        self.truthy + self.falsey
    }

    pub fn merge(&mut self, other: Self)
        requires
            old(self).spec_truthy() + other.spec_truthy() <= usize::MAX,
            old(self).spec_falsey() + other.spec_falsey() <= usize::MAX,
        ensures
            final(self).spec_truthy() == old(self).spec_truthy() + other.spec_truthy(),
            final(self).spec_falsey() == old(self).spec_falsey() + other.spec_falsey(),
    {
        self.truthy += other.truthy;
        self.falsey += other.falsey;
    }
}

/// Whether all values, and whether any value, were true.
#[derive(Debug, Clone)]
pub struct AllAny {
    all: bool,
    any: bool,
}

impl AllAny {
    pub closed spec fn spec_all(&self) -> bool {
        self.all
    }

    pub closed spec fn spec_any(&self) -> bool {
        self.any
    }

    pub fn new() -> (r: Self)
        ensures
            r.spec_all(),
            !r.spec_any(),
    {
        Self { all: true, any: false }
    }

    pub fn clear(&mut self)
        ensures
            final(self).spec_all(),
            !final(self).spec_any(),
    {
        self.all = true;
        self.any = false;
    }

    pub fn add(&mut self, new_bool: bool)
        ensures
            final(self).spec_all() == (old(self).spec_all() && new_bool),
            final(self).spec_any() == (old(self).spec_any() || new_bool),
    {
        self.all = self.all && new_bool;
        self.any = self.any || new_bool;
    }

    pub fn all(&self) -> (r: bool)
        ensures
            r == self.spec_all(),
    {
        self.all
    }

    pub fn any(&self) -> (r: bool)
        ensures
            r == self.spec_any(),
    {
        self.any
    }

    pub fn merge(&mut self, other: Self)
        ensures
            final(self).spec_all() == (old(self).spec_all() && other.spec_all()),
            final(self).spec_any() == (old(self).spec_any() || other.spec_any()),
    {
        self.all = self.all && other.all;
        self.any = self.any || other.any;
    }
}

/// The first value seen, with the index of the row it came from.
#[derive(Debug, Clone)]
pub struct First<T> {
    item: Option<(usize, T)>,
}

impl<T: Clone> First<T> {
    pub closed spec fn spec_item(&self) -> Option<(usize, T)> {
        self.item
    }

    pub fn new() -> (r: Self)
        ensures
            r.spec_item() is None,
    {
        Self { item: None }
    }

    pub fn clear(&mut self)
        ensures
            final(self).spec_item() is None,
    {
        self.item = None;
    }

    /// Keeps the value unless one was already kept.
    pub fn add(&mut self, index: usize, next_value: T)
        ensures
            final(self).spec_item() == first_add(old(self).spec_item(), (index, next_value)),
    {
        if self.item.is_none() {
            self.item = Some((index, next_value));
        }
    }

    pub fn first(&self) -> (r: Option<&T>)
        ensures
            r matches Some(v) ==> self.spec_item() matches Some(p) && *v == p.1,
            r is None <==> self.spec_item() is None,
    {
        match &self.item {
            Some(p) => Some(&p.1),
            None => None,
        }
    }

    /// Keeps the value of the lowest index of the two.
    pub fn merge(&mut self, other: Self)
        ensures
            final(self).spec_item() == first_merge(old(self).spec_item(), other.spec_item()),
    {
        let replace = match (&self.item, &other.item) {
            (None, _) => true,
            (Some(a), Some(b)) => a.0 > b.0,
            (Some(_), None) => false,
        };
        if replace {
            self.item = other.item;
        }
    }
}

/// The last value seen, with the index of the row it came from.
#[derive(Debug, Clone)]
pub struct Last<T> {
    item: Option<(usize, T)>,
}

impl<T: Clone> Last<T> {
    pub closed spec fn spec_item(&self) -> Option<(usize, T)> {
        self.item
    }

    pub fn new() -> (r: Self)
        ensures
            r.spec_item() is None,
    {
        Self { item: None }
    }

    pub fn clear(&mut self)
        ensures
            final(self).spec_item() is None,
    {
        self.item = None;
    }

    /// Always keeps the newest value.
    pub fn add(&mut self, index: usize, next_value: T)
        ensures
            final(self).spec_item() == Some((index, next_value)),
    {
        self.item = Some((index, next_value));
    }

    pub fn last(&self) -> (r: Option<&T>)
        ensures
            r matches Some(v) ==> self.spec_item() matches Some(p) && *v == p.1,
            r is None <==> self.spec_item() is None,
    {
        match &self.item {
            Some(p) => Some(&p.1),
            None => None,
        }
    }

    /// Keeps the value of the highest index of the two.
    pub fn merge(&mut self, other: Self)
        ensures
            final(self).spec_item() == last_merge(old(self).spec_item(), other.spec_item()),
    {
        let replace = match (&self.item, &other.item) {
            (None, _) => true,
            (Some(a), Some(b)) => a.0 < b.0,
            (Some(_), None) => false,
        };
        if replace {
            self.item = other.item;
        }
    }
}

/// `items` joined with `sep` between each two.
pub open spec fn joined(items: Seq<Seq<char>>, sep: Seq<char>) -> Seq<char>
    decreases items.len(),
{
    if items.len() == 0 {
        Seq::empty()
    } else if items.len() == 1 {
        items[0]
    } else {
        joined(items.drop_last(), sep) + sep + items.last()
    }
}

/// The strings of `v`, as characters.
pub open spec fn strings_view(v: Seq<String>) -> Seq<Seq<char>> {
    v.map_values(|s: String| s@)
}

/// Joins strings with a separator (`slice::join` of std, on strings).
pub fn join_strings(values: &Vec<String>, separator: &str) -> (r: String)
    ensures
        r@ == joined(strings_view(values@), separator@),
{
    let mut r = String::new();
    let mut i: usize = 0;
    let ghost all = strings_view(values@);
    while i < values.len()
        invariant
            i <= values@.len(),
            all == strings_view(values@),
            r@ == joined(all.take(i as int), separator@),
        decreases values@.len() - i,
    {
        assert(all.take(i + 1).drop_last() == all.take(i as int));
        if i > 0 {
            push_str(&mut r, separator);
        }
        push_str(&mut r, values[i].as_str());
        i += 1;
    }
    assert(all.take(i as int) == all);
    r
}

/// All the values seen, in order.
#[derive(Debug, Clone)]
pub struct Values {
    values: Vec<String>,
}

impl Values {
    pub closed spec fn spec_values(&self) -> Seq<Seq<char>> {
        strings_view(self.values@)
    }

    pub fn new() -> (r: Self)
        ensures
            r.spec_values() == Seq::<Seq<char>>::empty(),
    {
        let r = Self { values: Vec::new() };
        assert(r.spec_values() =~= Seq::<Seq<char>>::empty());
        r
    }

    pub fn clear(&mut self)
        ensures
            final(self).spec_values() == Seq::<Seq<char>>::empty(),
    {
        self.values.clear();
        assert(self.spec_values() =~= Seq::<Seq<char>>::empty());
    }

    pub fn add(&mut self, string: String)
        ensures
            final(self).spec_values() == old(self).spec_values().push(string@),
    {
        self.values.push(string);
        assert(self.spec_values() =~= old(self).spec_values().push(string@));
    }

    pub fn join(&self, separator: &str) -> (r: String)
        ensures
            r@ == joined(self.spec_values(), separator@),
    {
        join_strings(&self.values, separator)
    }

    pub fn merge(&mut self, other: Self)
        ensures
            final(self).spec_values() == old(self).spec_values() + other.spec_values(),
    {
        let mut other = other;
        let ghost rest0 = other.spec_values();
        let ghost mine0 = self.spec_values();
        while other.values.len() > 0
            invariant
                self.spec_values() + other.spec_values() == mine0 + rest0,
            decreases other.values@.len(),
        {
            let ghost a = self.spec_values();
            let ghost b = other.spec_values();
            let s = other.values.remove(0);
            self.values.push(s);
            assert(self.spec_values() =~= a.push(s@));
            assert(b =~= seq![s@] + other.spec_values());
            assert(self.spec_values() + other.spec_values() =~= a + b);
        }
        assert(other.spec_values() =~= Seq::<Seq<char>>::empty());
        assert(self.spec_values() + Seq::<Seq<char>>::empty() =~= self.spec_values());
    }
}


/// What `First::add` keeps, given what was kept and a new item.
pub open spec fn first_add<T>(kept: Option<(usize, T)>, item: (usize, T)) -> Option<(usize, T)> {
    match kept {
        Some(p) => Some(p),
        None => Some(item),
    }
}

/// What `First::merge` keeps of two kept items.
pub open spec fn first_merge<T>(a: Option<(usize, T)>, b: Option<(usize, T)>) -> Option<(usize, T)> {
    match (a, b) {
        (None, o) => o,
        (Some(x), None) => Some(x),
        (Some(x), Some(y)) => if x.0 > y.0 {
            Some(y)
        } else {
            Some(x)
        },
    }
}

/// What `Last::merge` keeps of two kept items.
pub open spec fn last_merge<T>(a: Option<(usize, T)>, b: Option<(usize, T)>) -> Option<(usize, T)> {
    match (a, b) {
        (None, o) => o,
        (Some(x), None) => Some(x),
        (Some(x), Some(y)) => if x.0 < y.0 {
            Some(y)
        } else {
            Some(x)
        },
    }
}

/// What a `First` keeps of items added in order.
pub open spec fn first_of<T>(s: Seq<(usize, T)>) -> Option<(usize, T)>
    decreases s.len(),
{
    if s.len() == 0 {
        None
    } else {
        first_add(first_of(s.drop_last()), s.last())
    }
}

/// What a `Last` keeps of items added in order.
pub open spec fn last_of<T>(s: Seq<(usize, T)>) -> Option<(usize, T)> {
    if s.len() == 0 {
        None
    } else {
        Some(s.last())
    }
}

/// Whether every item of `a` comes from a row before every row of `b`.
pub open spec fn rows_before<T>(a: Seq<(usize, T)>, b: Seq<(usize, T)>) -> bool {
    forall|i: int, j: int| 0 <= i < a.len() && 0 <= j < b.len() ==> a[i].0 < b[j].0
}

proof fn lemma_first_of<T>(s: Seq<(usize, T)>)
    ensures
        first_of(s) == if s.len() == 0 {
            None
        } else {
            Some(s[0])
        },
    decreases s.len(),
{
    if s.len() > 1 {
        lemma_first_of(s.drop_last());
        assert(s.drop_last()[0] == s[0]);
    } else if s.len() == 1 {
        assert(s.drop_last().len() == 0);
        assert(first_of(s.drop_last()) is None);
        assert(s.last() == s[0]);
    }
}

/// Two parts of the rows, the rows of one all before those of the other,
/// aggregated apart then merged, in either order, keep the first item of
/// all the rows: parallel chunks merge into what one pass gives.
pub proof fn law_first_merge<T>(a: Seq<(usize, T)>, b: Seq<(usize, T)>)
    requires
        rows_before(a, b),
    ensures
        first_merge(first_of(a), first_of(b)) == first_of(a + b),
        first_merge(first_of(b), first_of(a)) == first_of(a + b),
{
    lemma_first_of(a);
    lemma_first_of(b);
    lemma_first_of(a + b);
    if a.len() > 0 {
        assert((a + b)[0] == a[0]);
        if b.len() > 0 {
            assert(a[0].0 < b[0].0);
        }
    } else {
        assert(a + b == b);
    }
}

/// Two parts of the rows, the rows of one all before those of the other,
/// aggregated apart then merged, in either order, keep the last item of
/// all the rows.
pub proof fn law_last_merge<T>(a: Seq<(usize, T)>, b: Seq<(usize, T)>)
    requires
        rows_before(a, b),
    ensures
        last_merge(last_of(a), last_of(b)) == last_of(a + b),
        last_merge(last_of(b), last_of(a)) == last_of(a + b),
{
    if b.len() > 0 {
        assert((a + b).last() == b.last());
        if a.len() > 0 {
            assert(a.last().0 < b.last().0);
        }
    } else {
        assert(a + b == a);
    }
}


/// How many of the values are truthy.
pub open spec fn truthy_count(s: Seq<bool>) -> nat
    decreases s.len(),
{
    if s.len() == 0 {
        0
    } else {
        truthy_count(s.drop_last()) + if s.last() {
            1nat
        } else {
            0nat
        }
    }
}

/// Two parts of the values, counted apart then merged, give the count of
/// all of them; so do the falsey ones, the count of the negated values.
pub proof fn law_count_merge_concat(a: Seq<bool>, b: Seq<bool>)
    ensures
        truthy_count(a) + truthy_count(b) == truthy_count(a + b),
    decreases b.len(),
{
    if b.len() > 0 {
        law_count_merge_concat(a, b.drop_last());
        assert((a + b).drop_last() == a + b.drop_last());
        assert((a + b).last() == b.last());
    } else {
        assert(a + b == a);
    }
}

/// Whether all the values are true.
pub open spec fn all_of(s: Seq<bool>) -> bool {
    forall|i: int| 0 <= i < s.len() ==> s[i]
}

/// Whether one of the values is true.
pub open spec fn any_of(s: Seq<bool>) -> bool {
    exists|i: int| 0 <= i < s.len() && s[i]
}

/// Two parts of the values, aggregated apart then merged, tell whether all
/// and whether any of all of them are true.
pub proof fn law_all_any_merge_concat(a: Seq<bool>, b: Seq<bool>)
    ensures
        (all_of(a) && all_of(b)) == all_of(a + b),
        (any_of(a) || any_of(b)) == any_of(a + b),
{
    if all_of(a) && all_of(b) {
        assert forall|i: int| 0 <= i < (a + b).len() implies (a + b)[i] by {
            if i < a.len() {
                assert(a[i]);
            } else {
                assert(b[i - a.len()]);
            }
        }
    }
    if all_of(a + b) {
        assert forall|i: int| 0 <= i < a.len() implies a[i] by {
            assert((a + b)[i]);
        }
        assert forall|i: int| 0 <= i < b.len() implies b[i] by {
            assert((a + b)[i + a.len()]);
        }
    }
    if any_of(a) {
        let i = choose|i: int| 0 <= i < a.len() && a[i];
        assert((a + b)[i]);
    }
    if any_of(b) {
        let i = choose|i: int| 0 <= i < b.len() && b[i];
        assert((a + b)[i + a.len()]);
    }
    if any_of(a + b) {
        let i = choose|i: int| 0 <= i < (a + b).len() && (a + b)[i];
        if i < a.len() {
            assert(a[i]);
        } else {
            assert(b[i - a.len()]);
        }
    }
}

} // verus!
