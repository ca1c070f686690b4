//! The first element that fits, and lists that an order determines.

use vstd::prelude::*;

verus! {

/// Where the first element stands for which the test holds.
pub open spec fn first_where<T>(s: Seq<T>, test: spec_fn(T) -> bool) -> Option<int>
    decreases s.len(),
{
    if s.len() == 0 {
        None
    } else if test(s[0]) {
        Some(0)
    } else {
        match first_where(s.drop_first(), test) {
            Some(i) => Some(i + 1),
            None => None,
        }
    }
}

/// The first element that fits is the one with none before it.
pub proof fn lemma_first<T>(s: Seq<T>, test: spec_fn(T) -> bool, i: int)
    requires
        0 <= i < s.len(),
        test(s[i]),
        forall|j: int| 0 <= j < i ==> !test(#[trigger] s[j]),
    ensures
        first_where(s, test) == Some(i),
    decreases s.len(),
{
    if i > 0 {
        assert(!test(s[0]));
        let rest = s.drop_first();
        assert forall|j: int| 0 <= j < i - 1 implies !test(#[trigger] rest[j]) by {
            assert(rest[j] == s[j + 1]);
        }
        lemma_first(rest, test, i - 1);
    }
}

/// There is no first element where none fits.
pub proof fn lemma_none<T>(s: Seq<T>, test: spec_fn(T) -> bool)
    requires
        forall|j: int| 0 <= j < s.len() ==> !test(#[trigger] s[j]),
    ensures
        first_where(s, test) is None,
    decreases s.len(),
{
    if s.len() > 0 {
        assert(!test(s[0]));
        let rest = s.drop_first();
        assert forall|j: int| 0 <= j < rest.len() implies !test(#[trigger] rest[j]) by {
            assert(rest[j] == s[j + 1]);
        }
        lemma_none(rest, test);
    }
}

/// What is found fits, and lies in the sequence.
pub proof fn lemma_found<T>(s: Seq<T>, test: spec_fn(T) -> bool)
    ensures
        match first_where(s, test) {
            Some(i) => 0 <= i < s.len() && test(s[i]),
            None => forall|j: int| 0 <= j < s.len() ==> !test(#[trigger] s[j]),
        },
    decreases s.len(),
{
    if s.len() > 0 && !test(s[0]) {
        let rest = s.drop_first();
        lemma_found(rest, test);
        assert forall|j: int|
            first_where(s, test) is None && 0 <= j < s.len() implies !test(#[trigger] s[j]) by {
            if j > 0 {
                assert(rest[j - 1] == s[j]);
            }
        }
    }
}

/// Two lists of the same elements in the same strict order are the same.
pub proof fn lemma_order_determines(
    a: Seq<usize>,
    b: Seq<usize>,
    before: spec_fn(usize, usize) -> bool,
)
    requires
        forall|x: usize, y: usize| #[trigger] before(x, y) ==> !before(y, x),
        forall|i: int, j: int| 0 <= i < j < a.len() ==> before(#[trigger] a[i], #[trigger] a[j]),
        forall|i: int, j: int| 0 <= i < j < b.len() ==> before(#[trigger] b[i], #[trigger] b[j]),
        forall|x: usize| #[trigger] a.contains(x) <==> b.contains(x),
    ensures
        a == b,
    decreases a.len(),
{
    if a.len() == 0 {
        if b.len() > 0 {
            assert(b.contains(b[0]));
            assert(a.contains(b[0]));
        }
        assert(a =~= b);
    } else {
        assert(a.contains(a[0]));
        let j = choose|j: int| 0 <= j < b.len() && b[j] == a[0];
        assert(b.contains(b[0]));
        assert(a.contains(b[0]));
        let i = choose|i: int| 0 <= i < a.len() && a[i] == b[0];
        if i > 0 && j > 0 {
            assert(before(a[0], a[i]));
            assert(before(b[0], b[j]));
        }
        assert(a[0] == b[0]);
        let ta = a.drop_first();
        let tb = b.drop_first();
        assert forall|x: usize| #[trigger] ta.contains(x) <==> tb.contains(x) by {
            if ta.contains(x) {
                let k = choose|k: int| 0 <= k < ta.len() && ta[k] == x;
                assert(a[k + 1] == x);
                assert(before(a[0], a[k + 1]));
                assert(a.contains(x));
                let m = choose|m: int| 0 <= m < b.len() && b[m] == x;
                assert(m > 0) by {
                    if m == 0 {
                        assert(before(x, x));
                    }
                }
                assert(tb[m - 1] == x);
            }
            if tb.contains(x) {
                let k = choose|k: int| 0 <= k < tb.len() && tb[k] == x;
                assert(b[k + 1] == x);
                assert(before(b[0], b[k + 1]));
                assert(b.contains(x));
                assert(a.contains(x));
                let m = choose|m: int| 0 <= m < a.len() && a[m] == x;
                assert(m > 0) by {
                    if m == 0 {
                        assert(before(x, x));
                    }
                }
                assert(ta[m - 1] == x);
            }
        }
        assert forall|i: int, j: int| 0 <= i < j < ta.len() implies before(
            #[trigger] ta[i],
            #[trigger] ta[j],
        ) by {
            assert(before(a[i + 1], a[j + 1]));
        }
        assert forall|i: int, j: int| 0 <= i < j < tb.len() implies before(
            #[trigger] tb[i],
            #[trigger] tb[j],
        ) by {
            assert(before(b[i + 1], b[j + 1]));
        }
        lemma_order_determines(ta, tb, before);
        assert(a =~= seq![a[0]] + ta);
        assert(b =~= seq![b[0]] + tb);
    }
}

} // verus!
