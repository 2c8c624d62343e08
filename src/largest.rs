use vstd::prelude::*;
use vstd::std_specs::cmp::{PartialOrdIs, PartialOrdSpec};

verus! {

/// The "compares strictly greater" relation of a `PartialOrd` type.
pub open spec fn greater<T: PartialOrd>() -> spec_fn(T, T) -> bool {
    |a: T, b: T| a.is_gt(&b)
}

/// `gt` is a strict weak order: asymmetric, and whenever `a > c` every `b`
/// lies above `c` or below `a`. Total orders on numbers and characters are
/// such orders; a float order with NaN is not.
pub open spec fn is_strict_weak_order<T>(gt: spec_fn(T, T) -> bool) -> bool {
    &&& forall|a: T, b: T| #[trigger] gt(a, b) ==> !gt(b, a)
    &&& forall|a: T, b: T, c: T|
        #![trigger gt(a, b), gt(b, c)]
        #![trigger gt(a, c), gt(a, b)]
        #![trigger gt(a, c), gt(b, c)]
        gt(a, c) ==> gt(a, b) || gt(b, c)
}

/// `T`'s comparison operators follow its `partial_cmp` specification, and
/// "greater" on `T` is a strict weak order.
pub open spec fn orders_weakly<T: PartialOrd>() -> bool {
    T::obeys_partial_cmp_spec() && is_strict_weak_order(greater::<T>())
}

/// No element of `s` compares strictly greater than `s[i]`.
pub open spec fn is_maximal_at<T>(s: Seq<T>, gt: spec_fn(T, T) -> bool, i: int) -> bool {
    &&& 0 <= i < s.len()
    &&& forall|j: int| 0 <= j < s.len() ==> !gt(#[trigger] s[j], s[i])
}

/// `s[i]` is maximal, and no earlier element is.
pub open spec fn is_first_maximal_at<T>(s: Seq<T>, gt: spec_fn(T, T) -> bool, i: int) -> bool {
    &&& is_maximal_at(s, gt, i)
    &&& forall|j: int| 0 <= j < i ==> !#[trigger] is_maximal_at(s, gt, j)
}

/// The position of the first maximal element of `s`.
pub open spec fn first_maximal_index<T>(s: Seq<T>, gt: spec_fn(T, T) -> bool) -> int {
    choose|i: int| is_first_maximal_at(s, gt, i)
}

/// The largest element of `s` under `gt`, the earliest one among equals.
pub open spec fn largest_of<T>(s: Seq<T>, gt: spec_fn(T, T) -> bool) -> T {
    s[first_maximal_index(s, gt)]
}

/// At most one position is the first maximal one.
proof fn lemma_first_maximal_unique<T>(s: Seq<T>, gt: spec_fn(T, T) -> bool, i: int, k: int)
    requires
        is_first_maximal_at(s, gt, i),
        is_first_maximal_at(s, gt, k),
    ensures
        i == k,
{
    if i < k {
        assert(!is_maximal_at(s, gt, i));
    } else if k < i {
        assert(!is_maximal_at(s, gt, k));
    }
}

/// Once the first maximal position is known, `first_maximal_index` names it.
proof fn lemma_first_maximal_index_is<T>(s: Seq<T>, gt: spec_fn(T, T) -> bool, i: int)
    requires
        is_first_maximal_at(s, gt, i),
    ensures
        first_maximal_index(s, gt) == i,
        largest_of(s, gt) == s[i],
{
    let k = first_maximal_index(s, gt);
    lemma_first_maximal_unique(s, gt, i, k);
}

/// Among the first `n` elements of `s`, the position that a front-to-back
/// scan keeps: nothing before `n` lies above it, and it lies above
/// everything before it.
proof fn lemma_scan_prefix<T>(s: Seq<T>, gt: spec_fn(T, T) -> bool, n: int) -> (i: int)
    requires
        is_strict_weak_order(gt),
        0 < n <= s.len(),
    ensures
        0 <= i < n,
        forall|j: int| 0 <= j < n ==> !gt(#[trigger] s[j], s[i]),
        forall|j: int| 0 <= j < i ==> gt(s[i], #[trigger] s[j]),
    decreases n,
{
    if n == 1 {
        0
    } else {
        let c = lemma_scan_prefix(s, gt, n - 1);
        if gt(s[n - 1], s[c]) {
            assert forall|j: int| 0 <= j < n - 1 implies gt(s[n - 1], #[trigger] s[j]) by {
                assert(!gt(s[j], s[c]));
            }
            assert forall|j: int| 0 <= j < n implies !gt(#[trigger] s[j], s[n - 1]) by {
                if j < n - 1 {
                    assert(gt(s[n - 1], s[j]));
                }
            }
            n - 1
        } else {
            c
        }
    }
}

/// Every non-empty sequence under a strict weak order has a first maximal
/// element, and `first_maximal_index` is its position.
proof fn lemma_first_maximal_exists<T>(s: Seq<T>, gt: spec_fn(T, T) -> bool)
    requires
        is_strict_weak_order(gt),
        s.len() > 0,
    ensures
        is_first_maximal_at(s, gt, first_maximal_index(s, gt)),
{
    let i = lemma_scan_prefix(s, gt, s.len() as int);
    assert forall|j: int| 0 <= j < i implies !#[trigger] is_maximal_at(s, gt, j) by {
        assert(gt(s[i], s[j]));
    }
    assert(is_first_maximal_at(s, gt, i));
}

/// The largest element of a non-empty sequence is one of its elements, and
/// no element of the sequence compares strictly greater than it.
pub proof fn lemma_largest_is_maximal<T>(s: Seq<T>, gt: spec_fn(T, T) -> bool)
    requires
        is_strict_weak_order(gt),
        s.len() > 0,
    ensures
        s.contains(largest_of(s, gt)),
        forall|x: T| s.contains(x) ==> !gt(x, largest_of(s, gt)),
{
    lemma_first_maximal_exists(s, gt);
    let i = first_maximal_index(s, gt);
    assert(s[i] == largest_of(s, gt));
    assert forall|x: T| s.contains(x) implies !gt(x, largest_of(s, gt)) by {
        let j = choose|j: int| 0 <= j < s.len() && s[j] == x;
        assert(!gt(s[j], s[i]));
    }
}

/// When one value `m` of a sequence lies strictly above every other value
/// in it, `m` is the largest element.
pub proof fn lemma_unique_maximum_is_largest<T>(s: Seq<T>, gt: spec_fn(T, T) -> bool, m: T)
    requires
        is_strict_weak_order(gt),
        s.contains(m),
        forall|j: int| 0 <= j < s.len() && s[j] != m ==> gt(m, #[trigger] s[j]),
    ensures
        largest_of(s, gt) == m,
{
    lemma_largest_is_maximal(s, gt);
    let l = largest_of(s, gt);
    if l != m {
        let j = choose|j: int| 0 <= j < s.len() && s[j] == l;
        assert(gt(m, s[j]));
    }
}

/// Ties go to the front: the largest element stands at a maximal position,
/// and at the earliest one.
pub proof fn lemma_largest_is_earliest<T>(s: Seq<T>, gt: spec_fn(T, T) -> bool)
    requires
        is_strict_weak_order(gt),
        s.len() > 0,
    ensures
        is_maximal_at(s, gt, first_maximal_index(s, gt)),
        largest_of(s, gt) == s[first_maximal_index(s, gt)],
        forall|i: int| #[trigger] is_maximal_at(s, gt, i) ==> first_maximal_index(s, gt) <= i,
{
    lemma_first_maximal_exists(s, gt);
}

/// The largest element of a one-element sequence is that element.
pub proof fn lemma_largest_of_single<T>(x: T, gt: spec_fn(T, T) -> bool)
    requires
        is_strict_weak_order(gt),
    ensures
        largest_of(seq![x], gt) == x,
{
    assert(seq![x][0] == x);
    lemma_unique_maximum_is_largest(seq![x], gt, x);
}

/// Returns a reference to the largest element of a non-empty slice: the
/// first element that no other compares strictly greater than. Scanning
/// from the front, a candidate is replaced only by a strictly greater
/// element, so ties keep the earliest one.
pub fn get_largest<T: PartialOrd>(list: &[T]) -> (r: &T)
    requires
        list@.len() > 0,
    ensures
        list@.contains(*r),
        orders_weakly::<T>() ==> forall|j: int|
            0 <= j < list@.len() ==> !(#[trigger] list@[j]).is_gt(r),
        orders_weakly::<T>() ==> *r == largest_of(list@, greater::<T>()),
{
    let ghost s = list@;
    let ghost gt = greater::<T>();
    let ghost ordered = orders_weakly::<T>();
    let mut largest: usize = 0;
    let mut k: usize = 1;
    while k < list.len()
        invariant
            s == list@,
            gt == greater::<T>(),
            ordered == orders_weakly::<T>(),
            0 < s.len(),
            largest < k <= s.len(),
            ordered ==> forall|j: int| 0 <= j < k ==> !gt(#[trigger] s[j], s[largest as int]),
            ordered ==> forall|j: int| 0 <= j < largest ==> gt(s[largest as int], #[trigger] s[j]),
        decreases s.len() - k,
    {
        if list[k] > list[largest] {
            proof {
                if ordered {
                    assert(gt(s[k as int], s[largest as int]));
                    assert forall|j: int| 0 <= j < k implies gt(s[k as int], #[trigger] s[j]) by {
                        assert(!gt(s[j], s[largest as int]));
                    }
                    assert forall|j: int| 0 <= j < k + 1 implies !gt(#[trigger] s[j], s[k as int]) by {
                        if j < k {
                            assert(gt(s[k as int], s[j]));
                        }
                    }
                }
            }
            largest = k;
        }
        k = k + 1;
    }
    proof {
        if ordered {
            let i = largest as int;
            assert forall|j: int| 0 <= j < i implies !#[trigger] is_maximal_at(s, gt, j) by {
                assert(gt(s[i], s[j]));
            }
            assert(is_first_maximal_at(s, gt, i));
            lemma_first_maximal_index_is(s, gt, i);
        }
    }
    &list[largest]
}

/// The numeric order on `u32` is a strict weak order.
pub proof fn lemma_u32_orders_weakly()
    ensures
        orders_weakly::<u32>(),
{
}

/// Returns a reference to the largest integer of a non-empty slice.
pub fn get_largest_integer(list: &[u32]) -> (r: &u32)
    requires
        list@.len() > 0,
    ensures
        list@.contains(*r),
        forall|j: int| 0 <= j < list@.len() ==> list@[j] <= *r,
        *r == largest_of(list@, greater::<u32>()),
{
    proof {
        lemma_u32_orders_weakly();
    }
    let r = get_largest(list);
    proof {
        let i = first_maximal_index(list@, greater::<u32>());
        assert(is_first_maximal_at(list@, greater::<u32>(), i)) by {
            lemma_first_maximal_exists(list@, greater::<u32>());
        }
        assert forall|j: int| 0 <= j < list@.len() implies list@[j] <= *r by {
            assert(!greater::<u32>()(list@[j], list@[i]));
        }
    }
    r
}

/// Returns a reference to the largest character of a non-empty slice.
/// vstd gives `char`'s `PartialOrd` no specification, so the generic
/// `get_largest` would promise nothing here; this scan compares code points.
pub fn get_largest_char(list: &[char]) -> (r: &char)
    requires
        list@.len() > 0,
    ensures
        list@.contains(*r),
        forall|j: int| 0 <= j < list@.len() ==> list@[j] <= *r,
{
    let mut largest: usize = 0;
    let mut k: usize = 1;
    while k < list.len()
        invariant
            0 < list@.len(),
            largest < k <= list@.len(),
            forall|j: int| 0 <= j < k ==> list@[j] <= list@[largest as int],
        decreases list@.len() - k,
    {
        if list[k] > list[largest] {
            largest = k;
        }
        k = k + 1;
    }
    &list[largest]
}

/// Why no largest element could be given.
#[derive(Debug, Clone, Copy, PartialEq, Eq)]
pub enum MaxError {
    /// The slice has no element, so there is nothing to compare.
    EmptyInput,
}

/// Like `get_largest`, but reports an empty slice as `EmptyInput` instead of
/// requiring a non-empty one.
pub fn find_max<T: PartialOrd>(list: &[T]) -> (r: Result<&T, MaxError>)
    ensures
        list@.len() == 0 <==> r is Err,
        r matches Err(e) ==> e == MaxError::EmptyInput,
        r matches Ok(v) ==> list@.contains(*v),
        r matches Ok(v) ==> (orders_weakly::<T>() ==> *v == largest_of(list@, greater::<T>())),
{
    if list.len() == 0 {
        Err(MaxError::EmptyInput)
    } else {
        Ok(get_largest(list))
    }
}

} // verus!
