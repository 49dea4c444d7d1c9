//! Codes of texts, options and lists, from which the codes of the data types
//! are put together.

use vstd::prelude::*;
use vstd::utf8::encode_utf8;

use crate::ordered::{
    compares, forks, lemma_compare_parts, lex_less, views, Comparison, Data, Ordered,
};

verus! {

/// A text is ordered by its UTF-8 bytes; a text comes before its extensions.
pub open spec fn text_code(s: Seq<char>) -> Seq<int> {
    bytes_code(encode_utf8(s))
}

/// The bytes, each raised by one, and a closing zero.
pub open spec fn bytes_code(b: Seq<u8>) -> Seq<int> {
    Seq::new(
        b.len() + 1,
        |i: int|
            if i < b.len() {
                b[i] as int + 1
            } else {
                0
            },
    )
}

/// Nothing comes before something.
pub open spec fn option_code<T: Ordered>(o: Option<T::V>) -> Seq<int> {
    match o {
        None => seq![0int],
        Some(v) => seq![1int] + T::code(v),
    }
}

/// A list is ordered element by element; it comes before its extensions.
pub open spec fn list_code<T: Ordered>(s: Seq<T::V>) -> Seq<int>
    decreases s.len(),
{
    if s.len() == 0 {
        seq![0int]
    } else {
        seq![1int] + (T::code(s[0]) + list_code::<T>(s.drop_first()))
    }
}

/// What an option holds.
pub open spec fn option_view<T: View>(o: Option<T>) -> Option<T::V> {
    match o {
        None => None,
        Some(v) => Some(v@),
    }
}

/// Codes that start with a tag are decided by the tag, then by the rest.
pub proof fn lemma_tagged(t: int, u: int, x: Seq<int>, y: Seq<int>)
    ensures
        t < u ==> compares(seq![t] + x, seq![u] + y) == Comparison::Less,
        t > u ==> compares(seq![t] + x, seq![u] + y) == Comparison::Greater,
        t == u ==> compares(seq![t] + x, seq![u] + y) == compares(x, y),
        t != u ==> forks(seq![t] + x, seq![u] + y),
        t == u && forks(x, y) ==> forks(seq![t] + x, seq![u] + y),
{
    let p = seq![t];
    let q = seq![u];
    if t != u {
        assert(p[0] != q[0]);
        assert(forks(p, q));
    } else {
        assert(p =~= q);
    }
    lemma_compare_parts(p, q, x, y);
    reveal_with_fuel(lex_less, 2);
}

proof fn lemma_bytes_code_forks(a: Seq<u8>, b: Seq<u8>)
    ensures
        a == b || forks(bytes_code(a), bytes_code(b)),
{
    if a != b {
        let ca = bytes_code(a);
        let cb = bytes_code(b);
        if a.len() == b.len() {
            assert(!(a =~= b));
            let i = choose|i: int| 0 <= i < a.len() && a[i] != b[i];
            assert(ca[i] != cb[i]);
        } else if a.len() < b.len() {
            assert(ca[a.len() as int] != cb[a.len() as int]);
        } else {
            assert(ca[b.len() as int] != cb[b.len() as int]);
        }
    }
}

/// The first place where bytes differ decides their order.
proof fn lemma_bytes_differ_at(a: Seq<u8>, b: Seq<u8>, i: int)
    requires
        0 <= i <= a.len(),
        i <= b.len(),
        forall|j: int| 0 <= j < i ==> a[j] == b[j],
        i == a.len() || i == b.len() || a[i] != b[i],
    ensures
        compares(bytes_code(a), bytes_code(b)) == (if i < a.len() && i < b.len() {
            if a[i] < b[i] {
                Comparison::Less
            } else {
                Comparison::Greater
            }
        } else if i < a.len() {
            Comparison::Greater
        } else if i < b.len() {
            Comparison::Less
        } else {
            Comparison::Equal
        }),
{
    let ca = bytes_code(a);
    let cb = bytes_code(b);
    let p = ca.take(i);
    assert(p =~= cb.take(i));
    let x = ca.skip(i);
    let y = cb.skip(i);
    assert(ca =~= p + x);
    assert(cb =~= p + y);
    lemma_compare_parts(p, p, x, y);
    assert(x =~= seq![x[0]] + x.drop_first());
    assert(y =~= seq![y[0]] + y.drop_first());
    lemma_tagged(x[0], y[0], x.drop_first(), y.drop_first());
    if i == a.len() && i == b.len() {
        assert(a =~= b);
    }
}

pub proof fn lemma_text_code_forks(a: Seq<char>, b: Seq<char>)
    ensures
        a == b || forks(text_code(a), text_code(b)),
{
    lemma_bytes_code_forks(encode_utf8(a), encode_utf8(b));
    if encode_utf8(a) == encode_utf8(b) {
        vstd::utf8::encode_utf8_decode_utf8(a);
        vstd::utf8::encode_utf8_decode_utf8(b);
    }
}

pub proof fn lemma_option_code_forks<T: Ordered>(a: Option<T::V>, b: Option<T::V>)
    ensures
        a == b || forks(option_code::<T>(a), option_code::<T>(b)),
{
    match (a, b) {
        (Some(x), Some(y)) => {
            T::lemma_code_forks(x, y);
            lemma_tagged(1, 1, T::code(x), T::code(y));
        },
        (None, Some(y)) => {
            assert(option_code::<T>(a)[0] != option_code::<T>(b)[0]);
        },
        (Some(x), None) => {
            assert(option_code::<T>(a)[0] != option_code::<T>(b)[0]);
        },
        (None, None) => {},
    }
}

pub proof fn lemma_list_code_forks<T: Ordered>(a: Seq<T::V>, b: Seq<T::V>)
    ensures
        a == b || forks(list_code::<T>(a), list_code::<T>(b)),
    decreases a.len(),
{
    if a.len() == 0 && b.len() == 0 {
        assert(a =~= b);
    } else if a.len() == 0 || b.len() == 0 {
        assert(list_code::<T>(a)[0] != list_code::<T>(b)[0]);
    } else {
        let ra = list_code::<T>(a.drop_first());
        let rb = list_code::<T>(b.drop_first());
        T::lemma_code_forks(a[0], b[0]);
        lemma_list_code_forks::<T>(a.drop_first(), b.drop_first());
        lemma_compare_parts(T::code(a[0]), T::code(b[0]), ra, rb);
        lemma_tagged(1, 1, T::code(a[0]) + ra, T::code(b[0]) + rb);
        if a.drop_first() == b.drop_first() && a[0] == b[0] {
            assert(a =~= seq![a[0]] + a.drop_first());
            assert(b =~= seq![b[0]] + b.drop_first());
        }
    }
}

/// Compares two numbers.
pub fn compare_numbers(a: u32, b: u32) -> (c: Comparison)
    ensures
        c == compares(seq![a as int], seq![b as int]),
{
    proof {
        lemma_tagged(a as int, b as int, seq![], seq![]);
        assert(seq![a as int] + seq![] =~= seq![a as int]);
        assert(seq![b as int] + seq![] =~= seq![b as int]);
    }
    if a < b {
        Comparison::Less
    } else if a == b {
        Comparison::Equal
    } else {
        Comparison::Greater
    }
}

impl Data for String {
    fn duplicate(&self) -> (r: Self) {
        self.clone()
    }

    fn same(&self, other: &Self) -> (b: bool) {
        *self == *other
    }
}

impl Ordered for String {
    open spec fn code(v: Seq<char>) -> Seq<int> {
        text_code(v)
    }

    proof fn lemma_code_forks(a: Seq<char>, b: Seq<char>) {
        lemma_text_code_forks(a, b);
    }

    fn compare(&self, other: &Self) -> (c: Comparison) {
        let a = self.as_str().as_bytes();
        let b = other.as_str().as_bytes();
        let mut i: usize = 0;
        assert(a@ == encode_utf8(self@));
        assert(b@ == encode_utf8(other@));
        while i < a.len() && i < b.len() && a[i] == b[i]
            invariant
                a@ == encode_utf8(self@),
                b@ == encode_utf8(other@),
                i <= a@.len(),
                i <= b@.len(),
                forall|j: int| 0 <= j < i ==> a@[j] == b@[j],
            decreases a@.len() - i,
        {
            i = i + 1;
        }
        proof {
            lemma_bytes_differ_at(a@, b@, i as int);
        }
        let c = if i < a.len() {
            if i < b.len() {
                if a[i] < b[i] {
                    Comparison::Less
                } else {
                    Comparison::Greater
                }
            } else {
                Comparison::Greater
            }
        } else if i < b.len() {
            Comparison::Less
        } else {
            Comparison::Equal
        };
        assert(c == compares(bytes_code(a@), bytes_code(b@)));
        assert(Self::code(self@) == bytes_code(a@));
        assert(Self::code(other@) == bytes_code(b@));
        c
    }
}

impl Data for u32 {
    fn duplicate(&self) -> (r: Self) {
        *self
    }

    fn same(&self, other: &Self) -> (b: bool) {
        *self == *other
    }
}

impl Data for usize {
    fn duplicate(&self) -> (r: Self) {
        *self
    }

    fn same(&self, other: &Self) -> (b: bool) {
        *self == *other
    }
}

pub fn duplicate_option<T: Data>(o: &Option<T>) -> (r: Option<T>)
    ensures
        option_view(r) == option_view(*o),
{
    match o {
        None => None,
        Some(v) => Some(v.duplicate()),
    }
}

pub fn same_option<T: Data>(a: &Option<T>, b: &Option<T>) -> (r: bool)
    ensures
        r == (option_view(*a) == option_view(*b)),
{
    match (a, b) {
        (None, None) => true,
        (Some(x), Some(y)) => x.same(y),
        _ => false,
    }
}

pub fn compare_options<T: Ordered>(a: &Option<T>, b: &Option<T>) -> (c: Comparison)
    ensures
        c == compares(option_code::<T>(option_view(*a)), option_code::<T>(option_view(*b))),
        option_view(*a) == option_view(*b) || forks(
            option_code::<T>(option_view(*a)),
            option_code::<T>(option_view(*b)),
        ),
{
    proof {
        lemma_option_code_forks::<T>(option_view(*a), option_view(*b));
    }
    match (a, b) {
        (None, None) => Comparison::Equal,
        (Some(x), Some(y)) => {
            proof {
                lemma_tagged(1, 1, T::code(x@), T::code(y@));
            }
            x.compare(y)
        },
        (None, Some(y)) => {
            proof {
                lemma_tagged(0, 1, seq![], T::code(y@));
                assert(seq![0int] + seq![] =~= seq![0int]);
            }
            Comparison::Less
        },
        (Some(x), None) => {
            proof {
                lemma_tagged(1, 0, T::code(x@), seq![]);
                assert(seq![0int] + seq![] =~= seq![0int]);
            }
            Comparison::Greater
        },
    }
}

pub fn duplicate_list<T: Data>(v: &Vec<T>) -> (r: Vec<T>)
    ensures
        views(r@) == views(v@),
{
    let mut r: Vec<T> = Vec::new();
    let mut i: usize = 0;
    while i < v.len()
        invariant
            i <= v.len(),
            r.len() == i,
            forall|j: int| 0 <= j < i ==> (#[trigger] r[j])@ == v[j]@,
        decreases v.len() - i,
    {
        r.push(v[i].duplicate());
        i = i + 1;
    }
    assert(views(r@) =~= views(v@));
    r
}

pub fn same_lists<T: Data>(a: &Vec<T>, b: &Vec<T>) -> (r: bool)
    ensures
        r == (views(a@) == views(b@)),
{
    if a.len() != b.len() {
        return false;
    }
    let mut i: usize = 0;
    while i < a.len()
        invariant
            i <= a.len(),
            a.len() == b.len(),
            forall|j: int| 0 <= j < i ==> (#[trigger] a[j])@ == b[j]@,
        decreases a.len() - i,
    {
        if !a[i].same(&b[i]) {
            assert(views(a@)[i as int] != views(b@)[i as int]);
            return false;
        }
        i = i + 1;
    }
    assert(views(a@) =~= views(b@));
    true
}

/// Compares two lists from a place up to which they are equal.
fn compare_lists_from<T: Ordered>(a: &Vec<T>, b: &Vec<T>, i: usize) -> (c: Comparison)
    requires
        i <= a.len(),
        i <= b.len(),
    ensures
        c == compares(
            list_code::<T>(views(a@).skip(i as int)),
            list_code::<T>(views(b@).skip(i as int)),
        ),
    decreases a.len() - i,
{
    let ghost x = views(a@).skip(i as int);
    let ghost y = views(b@).skip(i as int);
    if i < a.len() && i < b.len() {
        proof {
            let rx = list_code::<T>(x.drop_first());
            let ry = list_code::<T>(y.drop_first());
            T::lemma_code_forks(x[0], y[0]);
            lemma_compare_parts(T::code(x[0]), T::code(y[0]), rx, ry);
            lemma_tagged(1, 1, T::code(x[0]) + rx, T::code(y[0]) + ry);
            assert(x.drop_first() =~= views(a@).skip(i + 1));
            assert(y.drop_first() =~= views(b@).skip(i + 1));
            if forks(T::code(x[0]), T::code(y[0])) {
                let k = choose|k: int|
                    0 <= k < T::code(x[0]).len() && k < T::code(y[0]).len() && T::code(x[0])[k]
                        != T::code(y[0])[k];
            }
        }
        match a[i].compare(&b[i]) {
            Comparison::Equal => compare_lists_from(a, b, i + 1),
            c => c,
        }
    } else {
        proof {
            assert(seq![0int] + seq![] =~= seq![0int]);
            if i < a.len() {
                lemma_tagged(1, 0, T::code(x[0]) + list_code::<T>(x.drop_first()), seq![]);
            } else if i < b.len() {
                lemma_tagged(0, 1, seq![], T::code(y[0]) + list_code::<T>(y.drop_first()));
            }
        }
        if i < a.len() {
            Comparison::Greater
        } else if i < b.len() {
            Comparison::Less
        } else {
            Comparison::Equal
        }
    }
}

pub fn compare_lists<T: Ordered>(a: &Vec<T>, b: &Vec<T>) -> (c: Comparison)
    ensures
        c == compares(list_code::<T>(views(a@)), list_code::<T>(views(b@))),
{
    assert(views(a@).skip(0) =~= views(a@));
    assert(views(b@).skip(0) =~= views(b@));
    compare_lists_from(a, b, 0)
}

} // verus!
