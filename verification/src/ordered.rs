//! Ordered sets and maps.
//!
//! Every key type has a *code*: a sequence of integers that orders its values.
//! Codes are compared position by position, and the codes of two different
//! values always differ at some position that both have. A set or a map keeps
//! its elements in the order of their codes, each element once.

use vstd::prelude::*;

verus! {

/// The three outcomes of comparing two values.
#[derive(Debug, Clone, Copy, PartialEq, Eq, Structural)]
pub enum Comparison {
    Less,
    Equal,
    Greater,
}

/// `a` comes before `b`: at the first position where they differ `a` is
/// smaller, or `a` is a proper prefix of `b`.
pub open spec fn lex_less(a: Seq<int>, b: Seq<int>) -> bool
    decreases a.len(),
{
    if b.len() == 0 {
        false
    } else if a.len() == 0 {
        true
    } else if a[0] != b[0] {
        a[0] < b[0]
    } else {
        lex_less(a.drop_first(), b.drop_first())
    }
}

/// The outcome of comparing two codes.
pub open spec fn compares(a: Seq<int>, b: Seq<int>) -> Comparison {
    if a == b {
        Comparison::Equal
    } else if lex_less(a, b) {
        Comparison::Less
    } else {
        Comparison::Greater
    }
}

/// The two codes differ at a position that both of them have.
pub open spec fn forks(a: Seq<int>, b: Seq<int>) -> bool {
    exists|i: int| 0 <= i < a.len() && i < b.len() && a[i] != b[i]
}

pub proof fn lemma_lex_irreflexive(a: Seq<int>)
    ensures
        !lex_less(a, a),
    decreases a.len(),
{
    if a.len() > 0 {
        lemma_lex_irreflexive(a.drop_first());
    }
}

pub proof fn lemma_lex_transitive(a: Seq<int>, b: Seq<int>, c: Seq<int>)
    requires
        lex_less(a, b),
        lex_less(b, c),
    ensures
        lex_less(a, c),
    decreases a.len(),
{
    if a.len() > 0 && a[0] == b[0] && b[0] == c[0] {
        lemma_lex_transitive(a.drop_first(), b.drop_first(), c.drop_first());
    }
}

pub proof fn lemma_lex_total(a: Seq<int>, b: Seq<int>)
    ensures
        a == b || lex_less(a, b) || lex_less(b, a),
    decreases a.len(),
{
    if a.len() > 0 && b.len() > 0 {
        if a[0] == b[0] {
            lemma_lex_total(a.drop_first(), b.drop_first());
            if a.drop_first() == b.drop_first() {
                assert(a =~= seq![a[0]] + a.drop_first());
                assert(b =~= seq![b[0]] + b.drop_first());
            }
        }
    } else if a.len() == 0 && b.len() == 0 {
        assert(a =~= b);
    }
}

/// A longer code is decided by its first part where the first parts differ,
/// and by the rest where they are equal.
pub proof fn lemma_compare_parts(p: Seq<int>, q: Seq<int>, x: Seq<int>, y: Seq<int>)
    requires
        p == q || forks(p, q),
    ensures
        compares(p + x, q + y) == (if p == q {
            compares(x, y)
        } else {
            compares(p, q)
        }),
        forks(p, q) ==> forks(p + x, q + y),
        p == q && forks(x, y) ==> forks(p + x, q + y),
    decreases p.len(),
{
    if forks(p, q) {
        let i = choose|i: int| 0 <= i < p.len() && i < q.len() && p[i] != q[i];
        assert((p + x)[i] != (q + y)[i]);
        lemma_fork_decides(p, q, x, y);
    } else {
        if forks(x, y) {
            let i = choose|i: int| 0 <= i < x.len() && i < y.len() && x[i] != y[i];
            assert((p + x)[p.len() + i] != (q + y)[p.len() + i]);
        }
        lemma_shared_start(p, x, y);
    }
}

proof fn lemma_fork_decides(p: Seq<int>, q: Seq<int>, x: Seq<int>, y: Seq<int>)
    requires
        forks(p, q),
    ensures
        lex_less(p + x, q + y) == lex_less(p, q),
        p != q,
        p + x != q + y,
    decreases p.len(),
{
    let i = choose|i: int| 0 <= i < p.len() && i < q.len() && p[i] != q[i];
    assert((p + x)[i] != (q + y)[i]);
    if p[0] == q[0] {
        assert((p + x).drop_first() =~= p.drop_first() + x);
        assert((q + y).drop_first() =~= q.drop_first() + y);
        assert(p.drop_first()[i - 1] != q.drop_first()[i - 1]);
        lemma_fork_decides(p.drop_first(), q.drop_first(), x, y);
    }
}

proof fn lemma_shared_start(p: Seq<int>, x: Seq<int>, y: Seq<int>)
    ensures
        lex_less(p + x, p + y) == lex_less(x, y),
        p + x == p + y <==> x == y,
    decreases p.len(),
{
    if p.len() == 0 {
        assert(p + x =~= x);
        assert(p + y =~= y);
    } else {
        assert((p + x).drop_first() =~= p.drop_first() + x);
        assert((p + y).drop_first() =~= p.drop_first() + y);
        lemma_shared_start(p.drop_first(), x, y);
        if p + x == p + y {
            assert((p + x).drop_first() == (p + y).drop_first());
        }
    }
}

/// A value that can be copied and compared for what it stands for.
pub trait Data: View + Sized {
    fn duplicate(&self) -> (r: Self)
        ensures
            r@ == self@,
    ;

    fn same(&self, other: &Self) -> (b: bool)
        ensures
            b == (self@ == other@),
    ;
}

/// A value that can be an element of an ordered set or a key of an ordered map.
pub trait Ordered: Data {
    /// What orders the values.
    spec fn code(v: <Self as View>::V) -> Seq<int>;

    /// Different values have codes that differ at a shared position.
    proof fn lemma_code_forks(a: <Self as View>::V, b: <Self as View>::V)
        ensures
            a == b || forks(Self::code(a), Self::code(b)),
    ;

    fn compare(&self, other: &Self) -> (c: Comparison)
        ensures
            c == compares(Self::code(self@), Self::code(other@)),
    ;
}

/// Each element comes before all that follow it.
pub open spec fn sorted<T: Ordered>(s: Seq<T::V>) -> bool {
    forall|i: int, j: int|
        0 <= i < j < s.len() ==> lex_less(T::code(#[trigger] s[i]), T::code(#[trigger] s[j]))
}

/// The elements of a set, each once, in order.
pub open spec fn ascending<T: Ordered>(s: Set<T::V>) -> Seq<T::V> {
    choose|q: Seq<T::V>| sorted::<T>(q) && q.to_set() == s
}

/// A set has at most one listing in order.
pub proof fn lemma_sorted_unique<T: Ordered>(q: Seq<T::V>, r: Seq<T::V>)
    requires
        sorted::<T>(q),
        sorted::<T>(r),
        q.to_set() == r.to_set(),
    ensures
        q == r,
    decreases q.len(),
{
    if q.len() == 0 {
        if r.len() > 0 {
            assert(r.to_set().contains(r[0]));
            assert(q.contains(r[0]));
        }
        assert(q =~= r);
    } else {
        assert(q.to_set().contains(q.last()));
        assert(r.contains(q.last()));
        let n = choose|n: int| 0 <= n < r.len() && r[n] == q.last();
        assert(r.to_set().contains(r.last()));
        assert(q.contains(r.last()));
        let m = choose|m: int| 0 <= m < q.len() && q[m] == r.last();
        if n < r.len() - 1 && m < q.len() - 1 {
            lemma_lex_transitive(T::code(q.last()), T::code(r.last()), T::code(q.last()));
            lemma_lex_irreflexive(T::code(q.last()));
        }
        if q.last() != r.last() {
            assert(false);
        }
        let q1 = q.drop_last();
        let r1 = r.drop_last();
        assert(q1.to_set() =~= r1.to_set()) by {
            assert forall|x: T::V| q1.to_set().contains(x) == r1.to_set().contains(x) by {
                lemma_drop_last_members::<T>(q, x);
                lemma_drop_last_members::<T>(r, x);
                assert(q.to_set().contains(x) == q.contains(x));
                assert(r.to_set().contains(x) == r.contains(x));
            }
        }
        lemma_sorted_unique::<T>(q1, r1);
        assert(q =~= q1.push(q.last()));
        assert(r =~= r1.push(r.last()));
    }
}

proof fn lemma_drop_last_members<T: Ordered>(q: Seq<T::V>, x: T::V)
    requires
        sorted::<T>(q),
        q.len() > 0,
    ensures
        q.drop_last().contains(x) <==> q.contains(x) && x != q.last(),
{
    let q1 = q.drop_last();
    if q1.contains(x) {
        let i = choose|i: int| 0 <= i < q1.len() && q1[i] == x;
        assert(q[i] == x);
        assert(lex_less(T::code(q[i]), T::code(q[q.len() - 1])));
        lemma_lex_irreflexive(T::code(x));
    }
    if q.contains(x) && x != q.last() {
        let i = choose|i: int| 0 <= i < q.len() && q[i] == x;
        assert(q1[i] == x);
    }
}

/// Elements at different places of an ordered listing are different.
pub proof fn lemma_sorted_distinct<T: Ordered>(q: Seq<T::V>)
    requires
        sorted::<T>(q),
    ensures
        q.no_duplicates(),
{
    assert forall|i: int, j: int| 0 <= i < q.len() && 0 <= j < q.len() && i != j implies q[i]
        != q[j] by {
        lemma_lex_irreflexive(T::code(q[i]));
        if i < j {
            assert(lex_less(T::code(q[i]), T::code(q[j])));
        } else {
            assert(lex_less(T::code(q[j]), T::code(q[i])));
        }
    }
}

/// An ordered listing of a set is the one that `ascending` names.
pub proof fn lemma_ascending<T: Ordered>(q: Seq<T::V>)
    requires
        sorted::<T>(q),
    ensures
        q == ascending::<T>(q.to_set()),
{
    lemma_sorted_unique::<T>(q, ascending::<T>(q.to_set()));
}

/// Every finite set has a listing in order.
pub proof fn lemma_listed<T: Ordered>(s: Set<T::V>)
    requires
        s.finite(),
    ensures
        sorted::<T>(ascending::<T>(s)),
        ascending::<T>(s).to_set() == s,
    decreases s.len(),
{
    if s.len() == 0 {
        let q = Seq::<T::V>::empty();
        assert(s =~= Set::empty());
        assert(q.to_set() =~= s);
        assert(sorted::<T>(q));
    } else {
        let x = s.choose();
        let rest = s.remove(x);
        lemma_listed::<T>(rest);
        let q = ascending::<T>(rest);
        let i = lemma_place::<T>(q, x, 0);
        lemma_insert_sorted::<T>(q, i, x);
        let r = q.insert(i, x);
        assert forall|y: T::V| r.to_set().contains(y) == s.contains(y) by {
            lemma_insert_members(q, i, x, y);
            assert(q.to_set().contains(y) == rest.contains(y));
        }
        assert(r.to_set() =~= s);
    }
}

/// Where a new element belongs in an ordered listing.
proof fn lemma_place<T: Ordered>(q: Seq<T::V>, x: T::V, i: int) -> (place: int)
    requires
        sorted::<T>(q),
        !q.to_set().contains(x),
        0 <= i <= q.len(),
        forall|j: int| 0 <= j < i ==> lex_less(T::code(#[trigger] q[j]), T::code(x)),
    ensures
        i <= place <= q.len(),
        forall|j: int| 0 <= j < place ==> lex_less(T::code(#[trigger] q[j]), T::code(x)),
        forall|j: int| place <= j < q.len() ==> lex_less(T::code(x), T::code(#[trigger] q[j])),
    decreases q.len() - i,
{
    if i == q.len() {
        i
    } else {
        assert(q.contains(q[i]));
        T::lemma_code_forks(q[i], x);
        lemma_lex_total(T::code(q[i]), T::code(x));
        if lex_less(T::code(q[i]), T::code(x)) {
            lemma_place::<T>(q, x, i + 1)
        } else {
            let k = choose|k: int|
                0 <= k < T::code(q[i]).len() && k < T::code(x).len() && T::code(q[i])[k]
                    != T::code(x)[k];
            assert(T::code(q[i]) != T::code(x));
            assert forall|j: int| i <= j < q.len() implies lex_less(
                T::code(x),
                T::code(#[trigger] q[j]),
            ) by {
                if j > i {
                    lemma_lex_transitive(T::code(x), T::code(q[i]), T::code(q[j]));
                }
            }
            i
        }
    }
}

/// What a vector holds, element by element.
pub open spec fn views<T: View>(v: Seq<T>) -> Seq<T::V> {
    Seq::new(v.len(), |i: int| v[i]@)
}

/// A finite set that keeps its elements in order.
#[derive(Debug, PartialEq, Eq)]
pub struct OrderedSet<T: Ordered> {
    items: Vec<T>,
}

impl<T: Ordered> View for OrderedSet<T> {
    type V = Set<T::V>;

    open spec fn view(&self) -> Set<T::V> {
        self.in_order().to_set()
    }
}

impl<T: Ordered> OrderedSet<T> {
    /// The elements in order.
    pub closed spec fn in_order(self) -> Seq<T::V> {
        views(self.items@)
    }

    #[verifier::type_invariant]
    spec fn well_formed(self) -> bool {
        sorted::<T>(views(self.items@))
    }

    pub fn new() -> (s: Self)
        ensures
            s@ == Set::<T::V>::empty(),
    {
        let s = OrderedSet { items: Vec::new() };
        assert(s@ =~= Set::<T::V>::empty());
        s
    }

    pub fn len(&self) -> (n: usize)
        ensures
            n == self.in_order().len(),
            n == self@.len(),
            self@.finite(),
            self.in_order() == ascending::<T>(self@),
            sorted::<T>(self.in_order()),
    {
        proof {
            use_type_invariant(self);
            lemma_ascending::<T>(self.in_order());
            lemma_sorted_distinct::<T>(self.in_order());
            self.in_order().unique_seq_to_set();
            vstd::seq_lib::seq_to_set_is_finite(self.in_order());
        }
        self.items.len()
    }

    pub fn is_empty(&self) -> (b: bool)
        ensures
            b == (self@ == Set::<T::V>::empty()),
    {
        let b = self.items.len() == 0;
        proof {
            if b {
                assert(self@ =~= Set::<T::V>::empty());
            } else {
                assert(self.in_order().contains(self.in_order()[0]));
                assert(self@.contains(self.in_order()[0]));
            }
        }
        b
    }

    /// The element at a place of the order.
    pub fn get(&self, i: usize) -> (x: &T)
        requires
            i < self.in_order().len(),
        ensures
            x@ == self.in_order()[i as int],
            self@.contains(x@),
    {
        assert(self.in_order().contains(self.in_order()[i as int]));
        &self.items[i]
    }

    /// The first place whose element is not before `x`, and whether it is `x`.
    fn search(&self, x: &T) -> (r: (usize, bool))
        ensures
            r.0 <= self.items.len(),
            forall|j: int|
                0 <= j < r.0 ==> lex_less(T::code(#[trigger] self.in_order()[j]), T::code(x@)),
            forall|j: int|
                r.0 <= j < self.items.len() && !r.1 ==> lex_less(
                    T::code(x@),
                    T::code(#[trigger] self.in_order()[j]),
                ),
            r.1 ==> r.0 < self.items.len() && self.in_order()[r.0 as int] == x@,
            r.1 == self@.contains(x@),
    {
        proof {
            use_type_invariant(self);
        }
        let mut i: usize = 0;
        while i < self.items.len()
            invariant
                i <= self.items.len(),
                sorted::<T>(self.in_order()),
                forall|j: int|
                    0 <= j < i ==> lex_less(T::code(#[trigger] self.in_order()[j]), T::code(x@)),
            decreases self.items.len() - i,
        {
            let ghost here = self.in_order()[i as int];
            proof {
                T::lemma_code_forks(here, x@);
                lemma_lex_total(T::code(here), T::code(x@));
            }
            match self.items[i].compare(x) {
                Comparison::Less => {
                    i = i + 1;
                },
                Comparison::Equal => {
                    proof {
                        if forks(T::code(here), T::code(x@)) {
                            let k = choose|k: int|
                                0 <= k < T::code(here).len() && k < T::code(x@).len() && T::code(
                                    here,
                                )[k] != T::code(x@)[k];
                            assert(false);
                        }
                        assert(self.in_order().contains(here));
                    }
                    return (i, true);
                },
                Comparison::Greater => {
                    proof {
                        assert forall|j: int| i <= j < self.items.len() implies lex_less(
                            T::code(x@),
                            T::code(#[trigger] self.in_order()[j]),
                        ) by {
                            if j > i {
                                lemma_lex_transitive(
                                    T::code(x@),
                                    T::code(here),
                                    T::code(self.in_order()[j]),
                                );
                            }
                        }
                        lemma_not_listed::<T>(self.in_order(), x@, i as int);
                    }
                    return (i, false);
                },
            }
        }
        proof {
            lemma_not_listed::<T>(self.in_order(), x@, i as int);
        }
        (i, false)
    }

    pub fn contains(&self, x: &T) -> (b: bool)
        ensures
            b == self@.contains(x@),
    {
        self.search(x).1
    }

    /// Adds an element, and tells whether it was not there before.
    pub fn insert(&mut self, x: T) -> (fresh: bool)
        ensures
            final(self)@ == old(self)@.insert(x@),
            fresh == !old(self)@.contains(x@),
    {
        proof {
            use_type_invariant(&*self);
        }
        let (i, found) = self.search(&x);
        if found {
            assert(self@ =~= self@.insert(x@));
            false
        } else {
            let ghost before = self.in_order();
            let ghost v = x@;
            let mut items: Vec<T> = Vec::new();
            std::mem::swap(&mut items, &mut self.items);
            items.insert(i, x);
            proof {
                assert(views(items@) =~= before.insert(i as int, v));
                lemma_insert_sorted::<T>(before, i as int, v);
            }
            self.items = items;
            proof {
                assert(self.in_order() == before.insert(i as int, v));
                assert(self@ =~= before.to_set().insert(v)) by {
                    assert forall|y: T::V| before.insert(i as int, v).contains(y) == (
                    before.contains(y) || y == v) by {
                        lemma_insert_members(before, i as int, v, y);
                    }
                }
            }
            true
        }
    }

    /// Adds every element of another set, and tells whether any of them was
    /// not there before.
    pub fn absorb(&mut self, other: &OrderedSet<T>) -> (grew: bool)
        ensures
            final(self)@ == old(self)@.union(other@),
            grew == !other@.subset_of(old(self)@),
    {
        let n = other.len();
        let mut grew = false;
        let ghost before = self@;
        let ghost all = other.in_order();
        let mut i: usize = 0;
        assert(self@ =~= before.union(all.take(0).to_set()));
        while i < n
            invariant
                i <= n,
                n == all.len(),
                all == other.in_order(),
                self@ == before.union(all.take(i as int).to_set()),
                grew == exists|j: int| 0 <= j < i && !before.contains(#[trigger] all[j]),
            decreases n - i,
        {
            let x = other.get(i).duplicate();
            let ghost v = x@;
            let ghost was = self@;
            if self.insert(x) {
                grew = true;
                assert(!before.contains(all[i as int]));
            } else {
                proof {
                    if !before.contains(v) {
                        assert(all.take(i as int).contains(v));
                        let j = choose|j: int| 0 <= j < i && all.take(i as int)[j] == v;
                        assert(!before.contains(all[j]));
                    }
                }
            }
            proof {
                assert(all.take(i + 1) =~= all.take(i as int).push(v));
                assert(self@ =~= before.union(all.take(i + 1).to_set())) by {
                    assert forall|y: T::V| all.take(i + 1).contains(y) == (all.take(
                        i as int,
                    ).contains(y) || y == v) by {
                        lemma_push_members(all.take(i as int), v, y);
                    }
                }
            }
            i = i + 1;
        }
        proof {
            assert(all.take(n as int) =~= all);
            assert(grew == !other@.subset_of(before)) by {
                if grew {
                    let j = choose|j: int| 0 <= j < n && !before.contains(#[trigger] all[j]);
                    assert(all.contains(all[j]));
                    assert(other@.contains(all[j]));
                }
                if !other@.subset_of(before) {
                    let y = choose|y: T::V| other@.contains(y) && !before.contains(y);
                    assert(all.contains(y));
                    let j = choose|j: int| 0 <= j < all.len() && all[j] == y;
                    assert(!before.contains(all[j]));
                }
            }
        }
        grew
    }
}

pub proof fn lemma_insert_members<A>(s: Seq<A>, i: int, v: A, y: A)
    requires
        0 <= i <= s.len(),
    ensures
        s.insert(i, v).contains(y) <==> s.contains(y) || y == v,
{
    let t = s.insert(i, v);
    if s.contains(y) {
        let k = choose|k: int| 0 <= k < s.len() && s[k] == y;
        if k < i {
            assert(t[k] == y);
        } else {
            assert(t[k + 1] == y);
        }
    }
    if y == v {
        assert(t[i] == y);
    }
    if t.contains(y) {
        let k = choose|k: int| 0 <= k < t.len() && t[k] == y;
        if k < i {
            assert(s[k] == y);
        } else if k > i {
            assert(s[k - 1] == y);
        }
    }
}

pub proof fn lemma_push_members<A>(s: Seq<A>, v: A, y: A)
    ensures
        s.push(v).contains(y) <==> s.contains(y) || y == v,
{
    assert(s.push(v) =~= s.insert(s.len() as int, v));
    lemma_insert_members(s, s.len() as int, v, y);
}

proof fn lemma_not_listed<T: Ordered>(q: Seq<T::V>, x: T::V, i: int)
    requires
        0 <= i <= q.len(),
        forall|j: int| 0 <= j < i ==> lex_less(T::code(#[trigger] q[j]), T::code(x)),
        forall|j: int| i <= j < q.len() ==> lex_less(T::code(x), T::code(#[trigger] q[j])),
    ensures
        !q.contains(x),
{
    if q.contains(x) {
        let j = choose|j: int| 0 <= j < q.len() && q[j] == x;
        lemma_lex_irreflexive(T::code(x));
        assert(T::code(q[j]) == T::code(x));
    }
}

proof fn lemma_insert_sorted<T: Ordered>(q: Seq<T::V>, i: int, x: T::V)
    requires
        sorted::<T>(q),
        0 <= i <= q.len(),
        forall|j: int| 0 <= j < i ==> lex_less(T::code(#[trigger] q[j]), T::code(x)),
        forall|j: int| i <= j < q.len() ==> lex_less(T::code(x), T::code(#[trigger] q[j])),
    ensures
        sorted::<T>(q.insert(i, x)),
{
    let r = q.insert(i, x);
    assert forall|a: int, b: int| 0 <= a < b < r.len() implies lex_less(
        T::code(#[trigger] r[a]),
        T::code(#[trigger] r[b]),
    ) by {
        let a0 = if a < i {
            a
        } else {
            a - 1
        };
        let b0 = if b < i {
            b
        } else {
            b - 1
        };
        if a != i {
            assert(r[a] == q[a0]);
        }
        if b != i {
            assert(r[b] == q[b0]);
        }
    }
}

impl<T: Ordered> Clone for OrderedSet<T> {
    fn clone(&self) -> (r: Self)
        ensures
            r@ == self@,
    {
        self.duplicate()
    }
}

impl<T: Ordered> Data for OrderedSet<T> {
    fn duplicate(&self) -> (r: Self) {
        let mut r = OrderedSet::new();
        r.absorb(self);
        assert(r@ =~= self@);
        r
    }

    fn same(&self, other: &Self) -> (b: bool) {
        let n = self.len();
        if n != other.len() {
            return false;
        }
        let mut i: usize = 0;
        while i < n
            invariant
                i <= n,
                n == self.in_order().len(),
                n == other.in_order().len(),
                self.in_order() == ascending::<T>(self@),
                other.in_order() == ascending::<T>(other@),
                forall|j: int|
                    0 <= j < i ==> #[trigger] self.in_order()[j] == other.in_order()[j],
            decreases n - i,
        {
            if !self.get(i).same(other.get(i)) {
                return false;
            }
            i = i + 1;
        }
        assert(self.in_order() =~= other.in_order());
        true
    }
}

/// The value that a listing of keys and values gives to a key.
pub open spec fn lookup<K, A>(keys: Seq<K>, values: Seq<A>) -> Map<K, A> {
    Map::new(|k: K| keys.contains(k), |k: K| values[keys.index_of(k)])
}

/// A finite map that keeps its keys in order.
#[derive(Debug, PartialEq, Eq)]
pub struct OrderedMap<K: Ordered, T: Data> {
    keys: Vec<K>,
    values: Vec<T>,
}

impl<K: Ordered, T: Data> View for OrderedMap<K, T> {
    type V = Map<K::V, T::V>;

    open spec fn view(&self) -> Map<K::V, T::V> {
        lookup(self.keys_in_order(), self.values_in_order())
    }
}

proof fn lemma_lookup_at<K: Ordered, A>(keys: Seq<K::V>, values: Seq<A>, i: int)
    requires
        sorted::<K>(keys),
        0 <= i < keys.len(),
    ensures
        lookup(keys, values).contains_key(keys[i]),
        lookup(keys, values)[keys[i]] == values[i],
{
    lemma_sorted_distinct::<K>(keys);
    assert(keys.contains(keys[i]));
    assert(keys[keys.index_of(keys[i])] == keys[i]);
}

proof fn lemma_lookup_insert<K: Ordered, A>(
    keys: Seq<K::V>,
    values: Seq<A>,
    i: int,
    k: K::V,
    v: A,
)
    requires
        sorted::<K>(keys),
        keys.len() == values.len(),
        0 <= i <= keys.len(),
        sorted::<K>(keys.insert(i, k)),
        !keys.contains(k),
    ensures
        lookup(keys.insert(i, k), values.insert(i, v)) == lookup(keys, values).insert(k, v),
{
    let m1 = lookup(keys.insert(i, k), values.insert(i, v));
    let m2 = lookup(keys, values).insert(k, v);
    assert forall|y: K::V| m1.contains_key(y) == m2.contains_key(y) by {
        lemma_insert_members(keys, i, k, y);
    }
    assert forall|y: K::V| m1.contains_key(y) implies #[trigger] m1[y] == m2[y] by {
        lemma_insert_members(keys, i, k, y);
        if y == k {
            lemma_lookup_at::<K, A>(keys.insert(i, k), values.insert(i, v), i);
            assert(keys.insert(i, k)[i] == k);
        } else {
            let j = keys.index_of(y);
            assert(keys.contains(y));
            assert(0 <= j < keys.len() && keys[j] == y);
            if j < i {
                lemma_lookup_at::<K, A>(keys.insert(i, k), values.insert(i, v), j);
                assert(keys.insert(i, k)[j] == y);
            } else {
                lemma_lookup_at::<K, A>(keys.insert(i, k), values.insert(i, v), j + 1);
                assert(keys.insert(i, k)[j + 1] == y);
            }
        }
    }
    assert(m1 =~= m2);
}

proof fn lemma_lookup_update<K: Ordered, A>(keys: Seq<K::V>, values: Seq<A>, i: int, v: A)
    requires
        sorted::<K>(keys),
        keys.len() == values.len(),
        0 <= i < keys.len(),
    ensures
        lookup(keys, values.update(i, v)) == lookup(keys, values).insert(keys[i], v),
{
    let m1 = lookup(keys, values.update(i, v));
    let m2 = lookup(keys, values).insert(keys[i], v);
    lemma_sorted_distinct::<K>(keys);
    assert forall|y: K::V| m1.contains_key(y) implies #[trigger] m1[y] == m2[y] by {
        let j = keys.index_of(y);
        assert(keys.contains(y));
        assert(0 <= j < keys.len() && keys[j] == y);
    }
    assert(keys.contains(keys[i]));
    assert(m1 =~= m2);
}

proof fn lemma_lookup_remove<K: Ordered, A>(keys: Seq<K::V>, values: Seq<A>, i: int)
    requires
        sorted::<K>(keys),
        keys.len() == values.len(),
        0 <= i < keys.len(),
    ensures
        sorted::<K>(keys.remove(i)),
        lookup(keys.remove(i), values.remove(i)) == lookup(keys, values).remove(keys[i]),
{
    let k1 = keys.remove(i);
    let v1 = values.remove(i);
    assert forall|a: int, b: int| 0 <= a < b < k1.len() implies lex_less(
        K::code(#[trigger] k1[a]),
        K::code(#[trigger] k1[b]),
    ) by {
        let a0 = if a < i {
            a
        } else {
            a + 1
        };
        let b0 = if b < i {
            b
        } else {
            b + 1
        };
        assert(k1[a] == keys[a0] && k1[b] == keys[b0]);
    }
    lemma_sorted_distinct::<K>(keys);
    let m1 = lookup(k1, v1);
    let m2 = lookup(keys, values).remove(keys[i]);
    assert forall|y: K::V| m1.contains_key(y) == m2.contains_key(y) by {
        if k1.contains(y) {
            let j = choose|j: int| 0 <= j < k1.len() && k1[j] == y;
            let j0 = if j < i {
                j
            } else {
                j + 1
            };
            assert(keys[j0] == y);
        }
        if keys.contains(y) && y != keys[i] {
            let j = choose|j: int| 0 <= j < keys.len() && keys[j] == y;
            let j1 = if j < i {
                j
            } else {
                j - 1
            };
            assert(k1[j1] == y);
        }
    }
    assert forall|y: K::V| m1.contains_key(y) implies #[trigger] m1[y] == m2[y] by {
        let j = choose|j: int| 0 <= j < k1.len() && k1[j] == y;
        let j0 = if j < i {
            j
        } else {
            j + 1
        };
        assert(keys[j0] == y);
        lemma_lookup_at::<K, A>(k1, v1, j);
        lemma_lookup_at::<K, A>(keys, values, j0);
    }
    assert(m1 =~= m2);
}

impl<K: Ordered, T: Data> OrderedMap<K, T> {
    /// The keys in order.
    pub closed spec fn keys_in_order(self) -> Seq<K::V> {
        views(self.keys@)
    }

    /// The values, in the order of their keys.
    pub closed spec fn values_in_order(self) -> Seq<T::V> {
        views(self.values@)
    }

    #[verifier::type_invariant]
    spec fn well_formed(self) -> bool {
        &&& sorted::<K>(views(self.keys@))
        &&& self.keys@.len() == self.values@.len()
    }

    pub fn new() -> (m: Self)
        ensures
            m@ == Map::<K::V, T::V>::empty(),
    {
        let m = OrderedMap { keys: Vec::new(), values: Vec::new() };
        assert(m@ =~= Map::<K::V, T::V>::empty());
        m
    }

    pub fn len(&self) -> (n: usize)
        ensures
            n == self.keys_in_order().len(),
            n == self.values_in_order().len(),
            n == self@.dom().len(),
            self@.dom().finite(),
            self.keys_in_order().to_set() == self@.dom(),
            self.keys_in_order() == ascending::<K>(self@.dom()),
            sorted::<K>(self.keys_in_order()),
            forall|i: int|
                0 <= i < n ==> self@.contains_key(#[trigger] self.keys_in_order()[i])
                    && self@[self.keys_in_order()[i]] == self.values_in_order()[i],
    {
        proof {
            use_type_invariant(self);
            let keys = self.keys_in_order();
            assert(keys.to_set() =~= self@.dom());
            lemma_ascending::<K>(keys);
            lemma_sorted_distinct::<K>(keys);
            keys.unique_seq_to_set();
            vstd::seq_lib::seq_to_set_is_finite(keys);
            assert forall|i: int| 0 <= i < keys.len() implies self@.contains_key(
                #[trigger] keys[i],
            ) && self@[keys[i]] == self.values_in_order()[i] by {
                lemma_lookup_at::<K, T::V>(keys, self.values_in_order(), i);
            }
        }
        self.keys.len()
    }

    pub fn is_empty(&self) -> (b: bool)
        ensures
            b == (self@ == Map::<K::V, T::V>::empty()),
    {
        let b = self.keys.len() == 0;
        proof {
            if b {
                assert(self@ =~= Map::<K::V, T::V>::empty());
            } else {
                assert(self.keys_in_order().contains(self.keys_in_order()[0]));
                assert(self@.contains_key(self.keys_in_order()[0]));
            }
        }
        b
    }

    /// The key at a place of the order.
    pub fn key(&self, i: usize) -> (k: &K)
        requires
            i < self.keys_in_order().len(),
        ensures
            k@ == self.keys_in_order()[i as int],
            self@.contains_key(k@),
    {
        assert(self.keys_in_order().contains(self.keys_in_order()[i as int]));
        &self.keys[i]
    }

    /// The value of the key at a place of the order.
    pub fn value(&self, i: usize) -> (v: &T)
        requires
            i < self.keys_in_order().len(),
        ensures
            v@ == self.values_in_order()[i as int],
            v@ == self@[self.keys_in_order()[i as int]],
    {
        proof {
            use_type_invariant(self);
            lemma_lookup_at::<K, T::V>(self.keys_in_order(), self.values_in_order(), i as int);
        }
        &self.values[i]
    }

    /// The first place whose key is not before `k`, and whether it is `k`.
    fn search(&self, k: &K) -> (r: (usize, bool))
        ensures
            r.0 <= self.keys.len(),
            forall|j: int|
                0 <= j < r.0 ==> lex_less(K::code(#[trigger] self.keys_in_order()[j]), K::code(k@)),
            forall|j: int|
                r.0 <= j < self.keys.len() && !r.1 ==> lex_less(
                    K::code(k@),
                    K::code(#[trigger] self.keys_in_order()[j]),
                ),
            r.1 ==> r.0 < self.keys.len() && self.keys_in_order()[r.0 as int] == k@,
            r.1 == self.keys_in_order().contains(k@),
            r.1 == self@.contains_key(k@),
    {
        proof {
            use_type_invariant(self);
        }
        let mut i: usize = 0;
        while i < self.keys.len()
            invariant
                i <= self.keys.len(),
                sorted::<K>(self.keys_in_order()),
                forall|j: int|
                    0 <= j < i ==> lex_less(
                        K::code(#[trigger] self.keys_in_order()[j]),
                        K::code(k@),
                    ),
            decreases self.keys.len() - i,
        {
            let ghost here = self.keys_in_order()[i as int];
            proof {
                K::lemma_code_forks(here, k@);
                lemma_lex_total(K::code(here), K::code(k@));
            }
            match self.keys[i].compare(k) {
                Comparison::Less => {
                    i = i + 1;
                },
                Comparison::Equal => {
                    proof {
                        if forks(K::code(here), K::code(k@)) {
                            let m = choose|m: int|
                                0 <= m < K::code(here).len() && m < K::code(k@).len() && K::code(
                                    here,
                                )[m] != K::code(k@)[m];
                            assert(false);
                        }
                        assert(self.keys_in_order().contains(here));
                    }
                    return (i, true);
                },
                Comparison::Greater => {
                    proof {
                        assert forall|j: int| i <= j < self.keys.len() implies lex_less(
                            K::code(k@),
                            K::code(#[trigger] self.keys_in_order()[j]),
                        ) by {
                            if j > i {
                                lemma_lex_transitive(
                                    K::code(k@),
                                    K::code(here),
                                    K::code(self.keys_in_order()[j]),
                                );
                            }
                        }
                        lemma_not_listed::<K>(self.keys_in_order(), k@, i as int);
                    }
                    return (i, false);
                },
            }
        }
        proof {
            lemma_not_listed::<K>(self.keys_in_order(), k@, i as int);
        }
        (i, false)
    }

    pub fn contains_key(&self, k: &K) -> (b: bool)
        ensures
            b == self@.contains_key(k@),
    {
        self.search(k).1
    }

    pub fn get(&self, k: &K) -> (r: Option<&T>)
        ensures
            r is Some <==> self@.contains_key(k@),
            r matches Some(v) ==> v@ == self@[k@],
    {
        let (i, found) = self.search(k);
        if found {
            Some(self.value(i))
        } else {
            None
        }
    }

    /// Gives a key a value, in place of the one that it had.
    pub fn insert(&mut self, k: K, v: T)
        ensures
            final(self)@ == old(self)@.insert(k@, v@),
    {
        proof {
            use_type_invariant(&*self);
        }
        let (i, found) = self.search(&k);
        let ghost keys0 = self.keys_in_order();
        let ghost values0 = self.values_in_order();
        let ghost key = k@;
        let ghost val = v@;
        let mut fresh: OrderedMap<K, T> = OrderedMap { keys: Vec::new(), values: Vec::new() };
        std::mem::swap(&mut fresh, self);
        let OrderedMap { mut keys, mut values } = fresh;
        if found {
            values.set(i, v);
            proof {
                assert(views(values@) =~= values0.update(i as int, val));
                lemma_lookup_update::<K, T::V>(keys0, values0, i as int, val);
            }
        } else {
            keys.insert(i, k);
            values.insert(i, v);
            proof {
                assert(views(keys@) =~= keys0.insert(i as int, key));
                assert(views(values@) =~= values0.insert(i as int, val));
                lemma_insert_sorted::<K>(keys0, i as int, key);
                lemma_lookup_insert::<K, T::V>(keys0, values0, i as int, key, val);
            }
        }
        *self = OrderedMap { keys, values };
    }

    /// Takes a key out, and returns the value that it had.
    pub fn remove(&mut self, k: &K) -> (r: Option<T>)
        ensures
            final(self)@ == old(self)@.remove(k@),
            r is Some <==> old(self)@.contains_key(k@),
            r matches Some(v) ==> v@ == old(self)@[k@],
    {
        proof {
            use_type_invariant(&*self);
        }
        let (i, found) = self.search(k);
        if !found {
            assert(self@ =~= self@.remove(k@));
            return None;
        }
        let ghost keys0 = self.keys_in_order();
        let ghost values0 = self.values_in_order();
        let mut fresh: OrderedMap<K, T> = OrderedMap { keys: Vec::new(), values: Vec::new() };
        std::mem::swap(&mut fresh, self);
        let OrderedMap { mut keys, mut values } = fresh;
        keys.remove(i);
        let v = values.remove(i);
        proof {
            assert(views(keys@) =~= keys0.remove(i as int));
            assert(views(values@) =~= values0.remove(i as int));
            lemma_lookup_remove::<K, T::V>(keys0, values0, i as int);
            lemma_lookup_at::<K, T::V>(keys0, values0, i as int);
        }
        *self = OrderedMap { keys, values };
        Some(v)
    }

    /// The set of the keys.
    pub fn key_set(&self) -> (s: OrderedSet<K>)
        ensures
            s@ == self@.dom(),
    {
        let n = self.len();
        let mut s: OrderedSet<K> = OrderedSet::new();
        let ghost all = self.keys_in_order();
        let mut i: usize = 0;
        assert(s@ =~= all.take(0).to_set());
        while i < n
            invariant
                i <= n,
                n == all.len(),
                all == self.keys_in_order(),
                s@ == all.take(i as int).to_set(),
            decreases n - i,
        {
            let k = self.key(i).duplicate();
            let ghost v = k@;
            s.insert(k);
            proof {
                assert(all.take(i + 1) =~= all.take(i as int).push(v));
                assert(s@ =~= all.take(i + 1).to_set()) by {
                    assert forall|y: K::V| all.take(i + 1).contains(y) == (all.take(
                        i as int,
                    ).contains(y) || y == v) by {
                        lemma_push_members(all.take(i as int), v, y);
                    }
                }
            }
            i = i + 1;
        }
        assert(all.take(n as int) =~= all);
        s
    }
}

impl<K: Ordered, T: Data> Clone for OrderedMap<K, T> {
    fn clone(&self) -> (r: Self)
        ensures
            r@ == self@,
    {
        self.duplicate()
    }
}

impl<K: Ordered, T: Data> Data for OrderedMap<K, T> {
    fn duplicate(&self) -> (r: Self) {
        proof {
            use_type_invariant(self);
        }
        let mut keys: Vec<K> = Vec::new();
        let mut values: Vec<T> = Vec::new();
        let mut i: usize = 0;
        while i < self.keys.len()
            invariant
                i <= self.keys.len(),
                self.keys.len() == self.values.len(),
                keys.len() == i,
                values.len() == i,
                forall|j: int| 0 <= j < i ==> (#[trigger] keys[j])@ == self.keys[j]@,
                forall|j: int| 0 <= j < i ==> (#[trigger] values[j])@ == self.values[j]@,
            decreases self.keys.len() - i,
        {
            keys.push(self.keys[i].duplicate());
            values.push(self.values[i].duplicate());
            i = i + 1;
        }
        assert(views(keys@) =~= views(self.keys@));
        assert(views(values@) =~= views(self.values@));
        OrderedMap { keys, values }
    }

    fn same(&self, other: &Self) -> (b: bool) {
        let n = self.len();
        if n != other.len() {
            return false;
        }
        let mut i: usize = 0;
        while i < n
            invariant
                i <= n,
                n == self.keys_in_order().len(),
                n == other.keys_in_order().len(),
                n == self.values_in_order().len(),
                n == other.values_in_order().len(),
                self.keys_in_order() == ascending::<K>(self@.dom()),
                other.keys_in_order() == ascending::<K>(other@.dom()),
                forall|j: int|
                    0 <= j < i ==> #[trigger] self.keys_in_order()[j] == other.keys_in_order()[j],
                forall|j: int|
                    0 <= j < i ==> #[trigger] self.values_in_order()[j]
                        == other.values_in_order()[j],
            decreases n - i,
        {
            if !self.key(i).same(other.key(i)) {
                return false;
            }
            if !self.value(i).same(other.value(i)) {
                return false;
            }
            i = i + 1;
        }
        assert(self.keys_in_order() =~= other.keys_in_order());
        assert(self.values_in_order() =~= other.values_in_order());
        true
    }
}

} // verus!
