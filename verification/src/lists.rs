//! Lists and their elements' views.

use std::collections::VecDeque;
use vstd::prelude::*;

verus! {

/// The views of the elements of a list.
pub open spec fn each<T: View>(list: Seq<T>) -> Seq<T::V> {
    Seq::new(list.len(), |i: int| list[i]@)
}

/// The view of a value that may be absent.
pub open spec fn maybe<T: View>(value: Option<T>) -> Option<T::V> {
    match value {
        Some(v) => Some(v@),
        None => None,
    }
}

/// The position of the first element that satisfies a condition, or the list's length
/// if none does.
pub open spec fn first_where<A>(list: Seq<A>, wanted: spec_fn(A) -> bool) -> int
    decreases list.len(),
{
    if list.len() == 0 || wanted(list[0]) {
        0
    } else {
        1 + first_where(list.drop_first(), wanted)
    }
}

/// The list with its first element that satisfies a condition changed, if there is one.
pub open spec fn change_first<A>(
    list: Seq<A>,
    wanted: spec_fn(A) -> bool,
    change: spec_fn(A) -> A,
) -> Seq<A> {
    let at = first_where(list, wanted);
    if at < list.len() {
        list.update(at, change(list[at]))
    } else {
        list
    }
}

/// `first_where` is where the first such element stands.
pub proof fn lemma_first_where<A>(list: Seq<A>, wanted: spec_fn(A) -> bool)
    ensures
        0 <= first_where(list, wanted) <= list.len(),
        forall|k: int| 0 <= k < first_where(list, wanted) ==> !wanted(#[trigger] list[k]),
        first_where(list, wanted) < list.len() ==> wanted(list[first_where(list, wanted)]),
    decreases list.len(),
{
    if list.len() > 0 && !wanted(list[0]) {
        let rest = list.drop_first();
        lemma_first_where(rest, wanted);
        assert forall|k: int| 0 <= k < first_where(list, wanted) implies !wanted(
            #[trigger] list[k],
        ) by {
            if k > 0 {
                assert(list[k] == rest[k - 1]);
            }
        }
    }
}

/// The position before which no element satisfies the condition, and at which one does
/// or the list ends, is the first.
pub proof fn lemma_first_is<A>(list: Seq<A>, wanted: spec_fn(A) -> bool, at: int)
    requires
        0 <= at <= list.len(),
        forall|k: int| 0 <= k < at ==> !wanted(#[trigger] list[k]),
        at < list.len() ==> wanted(list[at]),
    ensures
        first_where(list, wanted) == at,
{
    lemma_first_where(list, wanted);
    let first = first_where(list, wanted);
    if first < at {
        assert(!wanted(list[first]));
    }
}

/// Whether a test decides a condition on views.
pub open spec fn decides<T: View, F: Fn(&T) -> bool>(
    test: F,
    wanted: spec_fn(T::V) -> bool,
) -> bool {
    &&& forall|x: &T| #[trigger] test.requires((x,))
    &&& forall|x: &T, r: bool| #[trigger] test.ensures((x,), r) ==> r == wanted(x@)
}

/// The position of the first element that satisfies a condition, or the list's length.
pub fn find_where<T: View, F: Fn(&T) -> bool>(
    list: &VecDeque<T>,
    test: F,
    Ghost(wanted): Ghost<spec_fn(T::V) -> bool>,
) -> (r: usize)
    requires
        decides(test, wanted),
    ensures
        r == first_where(each(list@), wanted),
        r <= list@.len(),
{
    let mut i: usize = 0;
    while i < list.len()
        invariant
            i <= list.len(),
            decides(test, wanted),
            forall|k: int| 0 <= k < i ==> !wanted(#[trigger] each(list@)[k]),
        decreases list.len() - i,
    {
        let one = &list[i];
        assert(each(list@)[i as int] == one@);
        if test(one) {
            proof {
                lemma_first_is(each(list@), wanted, i as int);
            }
            return i;
        }
        i = i + 1;
    }
    proof {
        lemma_first_is(each(list@), wanted, i as int);
    }
    i
}

/// The position of the first element that satisfies a condition, or the list's length.
pub fn find_in<T: View, F: Fn(&T) -> bool>(
    list: &Vec<T>,
    test: F,
    Ghost(wanted): Ghost<spec_fn(T::V) -> bool>,
) -> (r: usize)
    requires
        decides(test, wanted),
    ensures
        r == first_where(each(list@), wanted),
        r <= list@.len(),
{
    let mut i: usize = 0;
    while i < list.len()
        invariant
            i <= list.len(),
            decides(test, wanted),
            forall|k: int| 0 <= k < i ==> !wanted(#[trigger] each(list@)[k]),
        decreases list.len() - i,
    {
        assert(each(list@)[i as int] == list@[i as int]@);
        if test(&list[i]) {
            proof {
                lemma_first_is(each(list@), wanted, i as int);
            }
            return i;
        }
        i = i + 1;
    }
    proof {
        lemma_first_is(each(list@), wanted, i as int);
    }
    i
}

proof fn lemma_filter_first<A>(list: Seq<A>, wanted: spec_fn(A) -> bool)
    requires
        list.len() > 0,
    ensures
        list.filter(wanted) == (if wanted(list[0]) {
            seq![list[0]] + list.drop_first().filter(wanted)
        } else {
            list.drop_first().filter(wanted)
        }),
{
    let head = seq![list[0]];
    Seq::filter_distributes_over_add(head, list.drop_first(), wanted);
    assert(head + list.drop_first() =~= list);
    reveal_with_fuel(Seq::filter, 1);
    assert(head.drop_last() =~= Seq::<A>::empty());
    assert(Seq::<A>::empty().filter(wanted) =~= Seq::<A>::empty());
    if wanted(list[0]) {
        assert(head.filter(wanted) =~= head);
    } else {
        assert(head.filter(wanted) =~= Seq::<A>::empty());
        assert(Seq::<A>::empty() + list.drop_first().filter(wanted)
            =~= list.drop_first().filter(wanted));
    }
}

/// The elements that satisfy a condition, in their order.
pub fn keep_where<T: View, F: Fn(&T) -> bool>(
    list: VecDeque<T>,
    test: F,
    Ghost(wanted): Ghost<spec_fn(T::V) -> bool>,
) -> (r: VecDeque<T>)
    requires
        decides(test, wanted),
    ensures
        each(r@) == each(list@).filter(wanted),
{
    let mut list = list;
    let ghost all = each(list@);
    let mut out: VecDeque<T> = VecDeque::new();
    proof {
        assert(each(out@) + all.filter(wanted) =~= all.filter(wanted));
    }
    while list.len() > 0
        invariant
            decides(test, wanted),
            each(out@) + each(list@).filter(wanted) == all.filter(wanted),
        decreases list@.len(),
    {
        let ghost rest = each(list@);
        let ghost kept = each(out@);
        if let Some(one) = list.pop_front() {
            proof {
                lemma_filter_first(rest, wanted);
                assert(each(list@) =~= rest.drop_first());
                assert(rest[0] == one@);
            }
            if test(&one) {
                out.push_back(one);
                proof {
                    assert(each(out@) =~= kept.push(one@));
                    assert(kept + (seq![one@] + each(list@).filter(wanted)) =~= kept.push(one@)
                        + each(list@).filter(wanted));
                }
            }
        }
    }
    proof {
        reveal_with_fuel(Seq::filter, 1);
        assert(each(list@).filter(wanted) =~= Seq::<T::V>::empty());
        assert(each(out@) =~= all.filter(wanted));
    }
    out
}

/// The elements of a list that can be taken off at both ends.
pub fn as_queue<T>(list: Vec<T>) -> (r: VecDeque<T>)
    ensures
        r@ == list@,
{
    let mut list = list;
    let ghost all = list@;
    let mut out: VecDeque<T> = VecDeque::new();
    proof {
        assert(list@ + out@ =~= all);
    }
    while list.len() > 0
        invariant
            list@ + out@ == all,
        decreases list@.len(),
    {
        let ghost before = list@;
        let ghost have = out@;
        if let Some(last) = list.pop() {
            out.push_front(last);
            proof {
                assert(list@ + out@ =~= before + have);
            }
        }
    }
    proof {
        assert(out@ =~= all);
    }
    out
}

/// The elements of a queue as a list.
pub fn as_list<T>(queue: VecDeque<T>) -> (r: Vec<T>)
    ensures
        r@ == queue@,
{
    let mut queue = queue;
    let ghost all = queue@;
    let mut out: Vec<T> = Vec::new();
    proof {
        assert(out@ + queue@ =~= all);
    }
    while queue.len() > 0
        invariant
            out@ + queue@ == all,
        decreases queue@.len(),
    {
        let ghost before = queue@;
        let ghost have = out@;
        if let Some(first) = queue.pop_front() {
            out.push(first);
            proof {
                assert(out@ + queue@ =~= have + before);
            }
        }
    }
    proof {
        assert(out@ =~= all);
    }
    out
}

/// A copy of a list.
pub fn copy_list<T: Copy>(list: &Vec<T>) -> (r: Vec<T>)
    ensures
        r@ == list@,
{
    let mut out: Vec<T> = Vec::with_capacity(list.len());
    let mut i: usize = 0;
    while i < list.len()
        invariant
            i <= list.len(),
            out@ == list@.take(i as int),
        decreases list.len() - i,
    {
        out.push(list[i]);
        i = i + 1;
        proof {
            assert(out@ =~= list@.take(i as int));
        }
    }
    proof {
        assert(out@ =~= list@);
    }
    out
}

} // verus!
