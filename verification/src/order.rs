//! Total orders on the models of values, and sorting by them.

use vstd::prelude::*;
use vstd::relations::{sorted_by, total_ordering};
use vstd::seq_lib::lemma_sorted_unique;
use vstd::utf8::{encode_utf8, encode_utf8_decode_utf8};

verus! {

/// The outcome of a three-way comparison.
#[derive(Clone, Copy, Debug, PartialEq, Eq, Structural)]
pub enum Order {
    Less,
    Equal,
    Greater,
}

impl Order {
    /// This outcome, unless it is `Equal`; then `next`.
    pub open spec fn tie_break(self, next: Order) -> Order {
        if self is Equal {
            next
        } else {
            self
        }
    }

    /// The outcome of the comparison with the sides exchanged.
    pub open spec fn flip(self) -> Order {
        match self {
            Order::Less => Order::Greater,
            Order::Equal => Order::Equal,
            Order::Greater => Order::Less,
        }
    }
}

/// A type whose models are totally ordered, with an executable comparison.
pub trait Ranked: DeepView + Sized {
    /// How model `a` stands to model `b`.
    spec fn rel(a: Self::V, b: Self::V) -> Order;

    /// `rel` is a total order: only equal models compare `Equal`, exchanging
    /// the sides flips the outcome, and `Less` is transitive.
    proof fn lemma_rel(a: Self::V, b: Self::V, c: Self::V)
        ensures
            Self::rel(a, b) is Equal <==> a == b,
            Self::rel(b, a) == Self::rel(a, b).flip(),
            Self::rel(a, b) is Less && Self::rel(b, c) is Less ==> Self::rel(a, c) is Less,
    ;

    /// Compares two values by their models.
    fn compare(&self, other: &Self) -> (r: Order)
        ensures
            r == Self::rel(self.deep_view(), other.deep_view()),
    ;
}

/// The relation "`a` does not come after `b`" on the models of `T`.
pub open spec fn leq<T: Ranked>() -> spec_fn(T::V, T::V) -> bool {
    |a: T::V, b: T::V| !(T::rel(a, b) is Greater)
}

/// `leq` is a total ordering in the sense of `vstd::relations`.
pub proof fn lemma_leq_total<T: Ranked>()
    ensures
        total_ordering(leq::<T>()),
{
    let r = leq::<T>();
    assert forall|x: T::V| #[trigger] r(x, x) by {
        T::lemma_rel(x, x, x);
    }
    assert forall|x: T::V, y: T::V| #[trigger] r(x, y) && #[trigger] r(y, x) implies x == y by {
        T::lemma_rel(x, y, x);
    }
    assert forall|x: T::V, y: T::V, z: T::V| #[trigger] r(x, y) && #[trigger] r(y, z) implies r(
        x,
        z,
    ) by {
        T::lemma_rel(x, y, z);
        T::lemma_rel(y, z, x);
        T::lemma_rel(x, z, x);
    }
    assert forall|x: T::V, y: T::V| #[trigger] r(x, y) || #[trigger] r(y, x) by {
        T::lemma_rel(x, y, x);
    }
}

impl Ranked for u8 {
    open spec fn rel(a: u8, b: u8) -> Order {
        if a < b {
            Order::Less
        } else if a == b {
            Order::Equal
        } else {
            Order::Greater
        }
    }

    proof fn lemma_rel(a: u8, b: u8, c: u8) {
    }

    fn compare(&self, other: &Self) -> (r: Order) {
        if *self < *other {
            Order::Less
        } else if *self == *other {
            Order::Equal
        } else {
            Order::Greater
        }
    }
}

impl Ranked for i32 {
    open spec fn rel(a: i32, b: i32) -> Order {
        if a < b {
            Order::Less
        } else if a == b {
            Order::Equal
        } else {
            Order::Greater
        }
    }

    proof fn lemma_rel(a: i32, b: i32, c: i32) {
    }

    fn compare(&self, other: &Self) -> (r: Order) {
        if *self < *other {
            Order::Less
        } else if *self == *other {
            Order::Equal
        } else {
            Order::Greater
        }
    }
}

impl Ranked for bool {
    open spec fn rel(a: bool, b: bool) -> Order {
        if a == b {
            Order::Equal
        } else if b {
            Order::Less
        } else {
            Order::Greater
        }
    }

    proof fn lemma_rel(a: bool, b: bool, c: bool) {
    }

    fn compare(&self, other: &Self) -> (r: Order) {
        if *self == *other {
            Order::Equal
        } else if *other {
            Order::Less
        } else {
            Order::Greater
        }
    }
}

/// The lexicographic order on sequences of models of `T`: the first place
/// where the two differ decides, and a proper prefix comes first.
#[verifier::opaque]
pub open spec fn seq_rel<T: Ranked>(a: Seq<T::V>, b: Seq<T::V>) -> Order
    decreases a.len(),
{
    if a.len() == 0 {
        if b.len() == 0 {
            Order::Equal
        } else {
            Order::Less
        }
    } else if b.len() == 0 {
        Order::Greater
    } else {
        T::rel(a[0], b[0]).tie_break(seq_rel::<T>(a.drop_first(), b.drop_first()))
    }
}

/// The lexicographic order is a total order whenever the order of the
/// elements is.
pub proof fn lemma_seq_rel<T: Ranked>(a: Seq<T::V>, b: Seq<T::V>, c: Seq<T::V>)
    ensures
        seq_rel::<T>(a, b) is Equal <==> a == b,
        seq_rel::<T>(b, a) == seq_rel::<T>(a, b).flip(),
        seq_rel::<T>(a, b) is Less && seq_rel::<T>(b, c) is Less ==> seq_rel::<T>(a, c) is Less,
    decreases a.len(),
{
    reveal(seq_rel);
    if a.len() > 0 && b.len() > 0 {
        T::lemma_rel(a[0], b[0], a[0]);
        lemma_seq_rel::<T>(a.drop_first(), b.drop_first(), a.drop_first());
        if seq_rel::<T>(a, b) is Equal {
            assert(a =~= seq![a[0]] + a.drop_first());
            assert(b =~= seq![b[0]] + b.drop_first());
        }
        if c.len() > 0 {
            T::lemma_rel(a[0], b[0], c[0]);
            T::lemma_rel(b[0], c[0], a[0]);
            T::lemma_rel(a[0], c[0], a[0]);
            lemma_seq_rel::<T>(a.drop_first(), b.drop_first(), c.drop_first());
        }
    } else if a.len() == 0 && b.len() == 0 {
        assert(a =~= b);
    }
}

impl<T: Ranked> Ranked for Vec<T> {
    open spec fn rel(a: Seq<T::V>, b: Seq<T::V>) -> Order {
        seq_rel::<T>(a, b)
    }

    proof fn lemma_rel(a: Seq<T::V>, b: Seq<T::V>, c: Seq<T::V>) {
        lemma_seq_rel::<T>(a, b, c);
    }

    fn compare(&self, other: &Self) -> (r: Order) {
        let ghost a = self.deep_view();
        let ghost b = other.deep_view();
        let mut i: usize = 0;
        proof {
            reveal(seq_rel);
        }
        assert(a.skip(0) =~= a && b.skip(0) =~= b);
        while i < self.len() && i < other.len()
            invariant
                i <= self.len(),
                i <= other.len(),
                a == self.deep_view(),
                b == other.deep_view(),
                seq_rel::<T>(a, b) == seq_rel::<T>(a.skip(i as int), b.skip(i as int)),
            decreases self.len() - i,
        {
            let r = self[i].compare(&other[i]);
            proof {
                reveal(seq_rel);
                assert(a.skip(i as int).drop_first() =~= a.skip(i + 1));
                assert(b.skip(i as int).drop_first() =~= b.skip(i + 1));
            }
            if !matches!(r, Order::Equal) {
                return r;
            }
            i = i + 1;
        }
        if i < other.len() {
            Order::Less
        } else if i < self.len() {
            Order::Greater
        } else {
            Order::Equal
        }
    }
}

impl<T: Ranked> Ranked for Option<T> {
    open spec fn rel(a: Option<T::V>, b: Option<T::V>) -> Order {
        match (a, b) {
            (None, None) => Order::Equal,
            (None, Some(_)) => Order::Less,
            (Some(_), None) => Order::Greater,
            (Some(x), Some(y)) => T::rel(x, y),
        }
    }

    proof fn lemma_rel(a: Option<T::V>, b: Option<T::V>, c: Option<T::V>) {
        if a is Some && b is Some {
            T::lemma_rel(a->0, b->0, a->0);
            if c is Some {
                T::lemma_rel(a->0, b->0, c->0);
            }
        }
    }

    fn compare(&self, other: &Self) -> (r: Order) {
        match (self, other) {
            (None, None) => Order::Equal,
            (None, Some(_)) => Order::Less,
            (Some(_), None) => Order::Greater,
            (Some(x), Some(y)) => x.compare(y),
        }
    }
}

/// Pairs are ordered by their first parts, then by their second parts.
impl<A: Ranked, B: Ranked> Ranked for (A, B) {
    open spec fn rel(a: (A::V, B::V), b: (A::V, B::V)) -> Order {
        A::rel(a.0, b.0).tie_break(B::rel(a.1, b.1))
    }

    proof fn lemma_rel(a: (A::V, B::V), b: (A::V, B::V), c: (A::V, B::V)) {
        A::lemma_rel(a.0, b.0, c.0);
        A::lemma_rel(b.0, c.0, a.0);
        A::lemma_rel(a.0, c.0, a.0);
        B::lemma_rel(a.1, b.1, c.1);
        B::lemma_rel(b.1, c.1, a.1);
        B::lemma_rel(a.1, c.1, a.1);
    }

    fn compare(&self, other: &Self) -> (r: Order) {
        let first = self.0.compare(&other.0);
        if !matches!(first, Order::Equal) {
            return first;
        }
        self.1.compare(&other.1)
    }
}

/// Whether two values have the same model.
pub fn same<T: Ranked>(a: &T, b: &T) -> (r: bool)
    ensures
        r == (a.deep_view() == b.deep_view()),
{
    proof {
        T::lemma_rel(a.deep_view(), b.deep_view(), a.deep_view());
    }
    matches!(a.compare(b), Order::Equal)
}

/// Whether `list` holds a value with the model of `x`.
pub fn holds<T: Ranked>(list: &Vec<T>, x: &T) -> (r: bool)
    ensures
        r == list.deep_view().contains(x.deep_view()),
{
    let mut i: usize = 0;
    while i < list.len()
        invariant
            i <= list.len(),
            forall|k: int| 0 <= k < i ==> list.deep_view()[k] != x.deep_view(),
        decreases list.len() - i,
    {
        if same(&list[i], x) {
            assert(list.deep_view()[i as int] == x.deep_view());
            return true;
        }
        i = i + 1;
    }
    false
}

/// Whether every value of `a` has its model among those of `b`.
pub fn all_among<T: Ranked>(a: &Vec<T>, b: &Vec<T>) -> (r: bool)
    ensures
        r == a.deep_view().to_set().subset_of(b.deep_view().to_set()),
{
    let mut i: usize = 0;
    while i < a.len()
        invariant
            i <= a.len(),
            forall|k: int| 0 <= k < i ==> b.deep_view().contains(#[trigger] a.deep_view()[k]),
        decreases a.len() - i,
    {
        if !holds(b, &a[i]) {
            proof {
                let x = a.deep_view()[i as int];
                assert(a.deep_view().contains(x));
                assert(a.deep_view().to_set().contains(x));
                assert(!b.deep_view().to_set().contains(x));
            }
            return false;
        }
        i = i + 1;
    }
    proof {
        assert forall|x: T::V| a.deep_view().to_set().contains(x) implies b.deep_view().to_set().contains(
            x,
        ) by {
            let k = choose|k: int| 0 <= k < a.deep_view().len() && a.deep_view()[k] == x;
            assert(b.deep_view().contains(a.deep_view()[k]));
        }
    }
    true
}

/// Whether two lists hold the same models, in whatever order and however
/// often.
pub fn same_members<T: Ranked>(a: &Vec<T>, b: &Vec<T>) -> (r: bool)
    ensures
        r == (a.deep_view().to_set() == b.deep_view().to_set()),
{
    let r = all_among(a, b) && all_among(b, a);
    proof {
        if r {
            assert(a.deep_view().to_set() =~= b.deep_view().to_set());
        }
    }
    r
}

/// Compares two byte strings lexicographically.
pub fn compare_bytes(a: &[u8], b: &[u8]) -> (r: Order)
    ensures
        r == seq_rel::<u8>(a@, b@),
{
    let mut i: usize = 0;
    proof {
        reveal(seq_rel);
    }
    assert(a@.skip(0) =~= a@ && b@.skip(0) =~= b@);
    while i < a.len() && i < b.len()
        invariant
            i <= a.len(),
            i <= b.len(),
            seq_rel::<u8>(a@, b@) == seq_rel::<u8>(a@.skip(i as int), b@.skip(i as int)),
        decreases a.len() - i,
    {
        proof {
            reveal(seq_rel);
            assert(a@.skip(i as int).drop_first() =~= a@.skip(i + 1));
            assert(b@.skip(i as int).drop_first() =~= b@.skip(i + 1));
        }
        if a[i] < b[i] {
            return Order::Less;
        }
        if a[i] > b[i] {
            return Order::Greater;
        }
        i = i + 1;
    }
    if i < b.len() {
        Order::Less
    } else if i < a.len() {
        Order::Greater
    } else {
        Order::Equal
    }
}

/// Strings are ordered as their UTF-8 encodings are, byte by byte.
impl Ranked for String {
    open spec fn rel(a: Seq<char>, b: Seq<char>) -> Order {
        seq_rel::<u8>(encode_utf8(a), encode_utf8(b))
    }

    proof fn lemma_rel(a: Seq<char>, b: Seq<char>, c: Seq<char>) {
        lemma_seq_rel::<u8>(encode_utf8(a), encode_utf8(b), encode_utf8(c));
        encode_utf8_decode_utf8(a);
        encode_utf8_decode_utf8(b);
    }

    fn compare(&self, other: &Self) -> (r: Order) {
        compare_bytes(self.as_str().as_bytes(), other.as_str().as_bytes())
    }
}

/// Whether `s` is in descending order.
pub open spec fn descending<T: Ranked>(s: Seq<T::V>) -> bool {
    forall|i: int, j: int| 0 <= i < j < s.len() ==> #[trigger] leq::<T>()(s[j], s[i])
}

/// Whether nothing in `s` comes after the last element of `top`, if `top`
/// has one.
pub open spec fn below<T: Ranked>(s: Seq<T::V>, top: Seq<T::V>) -> bool {
    top.len() > 0 ==> forall|i: int| 0 <= i < s.len() ==> #[trigger] leq::<T>()(s[i], top.last())
}

/// Taking the last element off a sequence takes it out of its multiset.
proof fn lemma_drop_last_multiset<A>(s: Seq<A>)
    requires
        s.len() > 0,
    ensures
        s.drop_last().to_multiset().insert(s.last()) == s.to_multiset(),
{
    assert(s.drop_last().push(s.last()) =~= s);
    vstd::seq_lib::to_multiset_build(s.drop_last(), s.last());
}

/// Merges two sorted lists into one sorted list.
fn merge<T: Ranked>(a: Vec<T>, b: Vec<T>) -> (out: Vec<T>)
    requires
        sorted_by(a.deep_view(), leq::<T>()),
        sorted_by(b.deep_view(), leq::<T>()),
    ensures
        sorted_by(out.deep_view(), leq::<T>()),
        out.deep_view().to_multiset() == a.deep_view().to_multiset().add(
            b.deep_view().to_multiset(),
        ),
{
    let ghost all = a.deep_view().to_multiset().add(b.deep_view().to_multiset());
    let mut a = a;
    let mut b = b;
    let mut falling: Vec<T> = Vec::new();
    proof {
        broadcast use vstd::seq_lib::group_to_multiset_ensures;

        lemma_leq_total::<T>();
        assert(falling.deep_view() =~= Seq::empty());
        assert(a.deep_view().to_multiset().add(b.deep_view().to_multiset()).add(
            falling.deep_view().to_multiset(),
        ) =~= all);
    }
    // The greater of the two last elements goes first, so that the merged
    // list builds up from its end.
    while a.len() > 0 || b.len() > 0
        invariant
            total_ordering(leq::<T>()),
            sorted_by(a.deep_view(), leq::<T>()),
            sorted_by(b.deep_view(), leq::<T>()),
            descending::<T>(falling.deep_view()),
            below::<T>(a.deep_view(), falling.deep_view()),
            below::<T>(b.deep_view(), falling.deep_view()),
            a.deep_view().to_multiset().add(b.deep_view().to_multiset()).add(
                falling.deep_view().to_multiset(),
            ) == all,
        decreases a.len() + b.len(),
    {
        let ghost am = a.deep_view();
        let ghost bm = b.deep_view();
        let ghost fm = falling.deep_view();
        let from_a = if b.len() == 0 {
            true
        } else if a.len() == 0 {
            false
        } else {
            matches!(a[a.len() - 1].compare(&b[b.len() - 1]), Order::Greater)
        };
        if from_a {
            let x = a.pop().unwrap();
            let ghost xm = x.deep_view();
            falling.push(x);
            proof {
                assert(a.deep_view() =~= am.drop_last());
                assert(xm == am.last());
                assert(falling.deep_view() =~= fm.push(xm));
                lemma_drop_last_multiset(am);
                vstd::seq_lib::to_multiset_build(fm, xm);
                assert(a.deep_view().to_multiset().add(b.deep_view().to_multiset()).add(
                    falling.deep_view().to_multiset(),
                ) =~= all);
                assert forall|i: int| 0 <= i < fm.len() implies #[trigger] leq::<T>()(
                    xm,
                    fm[i],
                ) by {
                    assert(leq::<T>()(am[am.len() - 1], fm.last()));
                    if i < fm.len() - 1 {
                        assert(leq::<T>()(fm[fm.len() - 1], fm[i]));
                    }
                }
                assert forall|i: int| 0 <= i < bm.len() implies #[trigger] leq::<T>()(
                    bm[i],
                    xm,
                ) by {
                    T::lemma_rel(am.last(), bm.last(), am.last());
                    assert(leq::<T>()(bm.last(), xm));
                    if i < bm.len() - 1 {
                        assert(leq::<T>()(bm[i], bm.last()));
                    }
                }
                assert forall|i: int| 0 <= i < am.len() - 1 implies #[trigger] leq::<T>()(
                    a.deep_view()[i],
                    xm,
                ) by {
                    assert(leq::<T>()(am[i], am.last()));
                }
            }
        } else {
            let y = b.pop().unwrap();
            let ghost ym = y.deep_view();
            falling.push(y);
            proof {
                assert(b.deep_view() =~= bm.drop_last());
                assert(ym == bm.last());
                assert(falling.deep_view() =~= fm.push(ym));
                lemma_drop_last_multiset(bm);
                vstd::seq_lib::to_multiset_build(fm, ym);
                assert(a.deep_view().to_multiset().add(b.deep_view().to_multiset()).add(
                    falling.deep_view().to_multiset(),
                ) =~= all);
                assert forall|i: int| 0 <= i < fm.len() implies #[trigger] leq::<T>()(
                    ym,
                    fm[i],
                ) by {
                    assert(leq::<T>()(bm[bm.len() - 1], fm.last()));
                    if i < fm.len() - 1 {
                        assert(leq::<T>()(fm[fm.len() - 1], fm[i]));
                    }
                }
                assert forall|i: int| 0 <= i < am.len() implies #[trigger] leq::<T>()(
                    am[i],
                    ym,
                ) by {
                    assert(leq::<T>()(am.last(), ym));
                    if i < am.len() - 1 {
                        assert(leq::<T>()(am[i], am.last()));
                    }
                }
                assert forall|i: int| 0 <= i < bm.len() - 1 implies #[trigger] leq::<T>()(
                    b.deep_view()[i],
                    ym,
                ) by {
                    assert(leq::<T>()(bm[i], bm.last()));
                }
            }
        }
    }
    let ghost whole = falling.deep_view();
    let mut out: Vec<T> = Vec::new();
    proof {
        broadcast use vstd::seq_lib::group_to_multiset_ensures;

        assert(a.deep_view() =~= Seq::empty());
        assert(b.deep_view() =~= Seq::empty());
        assert(out.deep_view() =~= Seq::empty());
        assert(whole.to_multiset() =~= all);
        assert(falling.deep_view().to_multiset().add(out.deep_view().to_multiset())
            =~= whole.to_multiset());
    }
    while falling.len() > 0
        invariant
            falling.deep_view() == whole.take(falling.len() as int),
            falling.len() + out.len() == whole.len(),
            forall|i: int| 0 <= i < out.len() ==> out.deep_view()[i] == whole[whole.len() - 1 - i],
            falling.deep_view().to_multiset().add(out.deep_view().to_multiset())
                == whole.to_multiset(),
        decreases falling.len(),
    {
        let ghost fm = falling.deep_view();
        let ghost om = out.deep_view();
        let x = falling.pop().unwrap();
        let ghost xm = x.deep_view();
        out.push(x);
        proof {
            assert(falling.deep_view() =~= fm.drop_last());
            assert(falling.deep_view() =~= whole.take(falling.len() as int));
            assert(out.deep_view() =~= om.push(xm));
            lemma_drop_last_multiset(fm);
            vstd::seq_lib::to_multiset_build(om, xm);
            assert(falling.deep_view().to_multiset().add(out.deep_view().to_multiset())
                =~= whole.to_multiset());
        }
    }
    proof {
        broadcast use vstd::seq_lib::group_to_multiset_ensures;

        assert(falling.deep_view() =~= Seq::empty());
        assert(out.deep_view().to_multiset() =~= whole.to_multiset());
        assert forall|i: int, j: int| 0 <= i < j < out.len() implies #[trigger] leq::<T>()(
            out.deep_view()[i],
            out.deep_view()[j],
        ) by {
            assert(leq::<T>()(whole[whole.len() - 1 - i], whole[whole.len() - 1 - j]));
        }
    }
    out
}

/// Sorts a list by merging its sorted halves.
fn merge_sort<T: Ranked>(v: Vec<T>) -> (out: Vec<T>)
    ensures
        sorted_by(out.deep_view(), leq::<T>()),
        out.deep_view().to_multiset() == v.deep_view().to_multiset(),
    decreases v.len(),
{
    if v.len() <= 1 {
        return v;
    }
    let ghost whole = v.deep_view();
    let mut left = v;
    let middle = left.len() / 2;
    let right = left.split_off(middle);
    proof {
        assert(left.deep_view() =~= whole.subrange(0, middle as int));
        assert(right.deep_view() =~= whole.subrange(middle as int, whole.len() as int));
        assert(whole =~= left.deep_view() + right.deep_view());
        vstd::seq_lib::lemma_multiset_commutative(left.deep_view(), right.deep_view());
    }
    let left = merge_sort(left);
    let right = merge_sort(right);
    merge(left, right)
}

/// Sorts `v` in place by the order of its elements' models.
pub fn sort_vec<T: Ranked>(v: &mut Vec<T>)
    ensures
        final(v).deep_view() == old(v).deep_view().sort_by(leq::<T>()),
{
    let ghost start = v.deep_view();
    let mut taken: Vec<T> = Vec::new();
    taken.append(v);
    assert(taken.deep_view() =~= start);
    let mut sorted = merge_sort(taken);
    let ghost model = sorted.deep_view();
    v.append(&mut sorted);
    proof {
        assert(v.deep_view() =~= model);
        lemma_leq_total::<T>();
        start.lemma_sort_by_ensures(leq::<T>());
        lemma_sorted_unique(model, start.sort_by(leq::<T>()), leq::<T>());
    }
}

} // verus!
