use vstd::prelude::*;
use vstd::multiset::Multiset;
use super::{ItemSet, SetIter, SetManager};
use crate::seq_lemmas::{lemma_cons_to_multiset, lemma_push_to_multiset};

verus! {

#[derive(PartialEq, Debug)]
pub enum Error<ES, ESM> {
    ItemSet(ES),
    SetManager(ESM),
}

/// `pr` names the relation that the executable predicate decides: whenever
/// the predicate answers `r` on a pair, `r` agrees with `pr` on it.
pub open spec fn decides<T, F: Fn(&T, &T) -> bool>(pred: F, pr: spec_fn(T, T) -> bool) -> bool {
    forall|x: &T, y: &T, r: bool| call_ensures(pred, (x, y), r) ==> r == pr(*x, *y)
}

/// Adjacent order under a strict "before" relation: no element is strictly
/// before its predecessor.
pub open spec fn sorted_under<T>(s: Seq<T>, pr: spec_fn(T, T) -> bool) -> bool {
    forall|i: int, j: int| 0 <= i && i + 1 == j && j < s.len() ==> !(#[trigger] pr(s[j], s[i]))
}

/// What a strict "before" relation must satisfy for merging to sort: no two
/// elements are each strictly before the other, and "not after" is
/// transitive. Every strict weak ordering has both.
pub open spec fn strict_compat<T>(pr: spec_fn(T, T) -> bool) -> bool {
    &&& forall|x: T, y: T| !(#[trigger] pr(x, y) && pr(y, x))
    &&& forall|x: T, y: T, z: T|
        #![trigger pr(y, x), pr(z, y)]
        #![trigger pr(z, x), pr(y, x)]
        !pr(y, x) && !pr(z, y) ==> !pr(z, x)
}

/// The stable two-pointer merge of two sequences under `pr`: an element of
/// `b` moves ahead only where it is strictly before the head of `a`, so
/// where neither is before the other the element of `a` comes first.
pub open spec fn merge_seqs<T>(a: Seq<T>, b: Seq<T>, pr: spec_fn(T, T) -> bool) -> Seq<T>
    decreases a.len() + b.len(),
{
    if a.len() == 0 {
        b
    } else if b.len() == 0 {
        a
    } else if pr(b[0], a[0]) {
        seq![b[0]] + merge_seqs(a, b.drop_first(), pr)
    } else {
        seq![a[0]] + merge_seqs(a.drop_first(), b, pr)
    }
}

/// `c` interleaves `a` and `b` without reordering either.
pub open spec fn is_merge_of<T>(a: Seq<T>, b: Seq<T>, c: Seq<T>) -> bool
    decreases a.len() + b.len(),
{
    if a.len() == 0 {
        c == b
    } else if b.len() == 0 {
        c == a
    } else {
        &&& c.len() == a.len() + b.len()
        &&& {
            ||| (c[0] == a[0] && is_merge_of(a.drop_first(), b, c.drop_first()))
            ||| (c[0] == b[0] && is_merge_of(a, b.drop_first(), c.drop_first()))
        }
    }
}

pub proof fn lemma_merge_seqs_len<T>(a: Seq<T>, b: Seq<T>, pr: spec_fn(T, T) -> bool)
    ensures
        merge_seqs(a, b, pr).len() == a.len() + b.len(),
    decreases a.len() + b.len(),
{
    if a.len() == 0 || b.len() == 0 {
    } else if pr(b[0], a[0]) {
        lemma_merge_seqs_len(a, b.drop_first(), pr);
    } else {
        lemma_merge_seqs_len(a.drop_first(), b, pr);
    }
}

proof fn lemma_sorted_cons<T>(v: T, s: Seq<T>, pr: spec_fn(T, T) -> bool)
    requires
        s.len() > 0 ==> !pr(s[0], v),
        sorted_under(s, pr),
    ensures
        sorted_under(seq![v] + s, pr),
{
    let c = seq![v] + s;
    assert forall|i: int, j: int| 0 <= i && i + 1 == j && j < c.len() implies !(#[trigger] pr(
        c[j],
        c[i],
    )) by {
        if i == 0 {
            assert(c[0] == v);
            assert(c[1] == s[0]);
        } else {
            assert(c[i] == s[i - 1]);
            assert(c[j] == s[i]);
            assert(!pr(s[i], s[i - 1]));
        }
    }
}

proof fn lemma_sorted_drop_first<T>(s: Seq<T>, pr: spec_fn(T, T) -> bool)
    requires
        s.len() > 0,
        sorted_under(s, pr),
    ensures
        sorted_under(s.drop_first(), pr),
{
    let d = s.drop_first();
    assert forall|i: int, j: int| 0 <= i && i + 1 == j && j < d.len() implies !(#[trigger] pr(
        d[j],
        d[i],
    )) by {
        assert(d[i] == s[i + 1]);
        assert(d[j] == s[i + 2]);
        assert(!pr(s[i + 2], s[i + 1]));
    }
}

/// Law: merging two sequences that are already sorted under `pr` is a
/// stable merge. The result is sorted under `pr` and interleaves the two
/// inputs without reordering either; by the definition of [`merge_seqs`]
/// an element of the second input moves ahead only where it is strictly
/// before the head of the first, so ties keep the first input's element
/// in front.
pub proof fn lemma_merge_sorted<T>(a: Seq<T>, b: Seq<T>, pr: spec_fn(T, T) -> bool)
    requires
        strict_compat(pr),
        sorted_under(a, pr),
        sorted_under(b, pr),
    ensures
        sorted_under(merge_seqs(a, b, pr), pr),
        is_merge_of(a, b, merge_seqs(a, b, pr)),
    decreases a.len() + b.len(),
{
    lemma_merge_seqs_len(a, b, pr);
    if a.len() == 0 {
    } else if b.len() == 0 {
    } else if pr(b[0], a[0]) {
        let rb = b.drop_first();
        let rest = merge_seqs(a, rb, pr);
        lemma_sorted_drop_first(b, pr);
        lemma_merge_sorted(a, rb, pr);
        lemma_merge_seqs_len(a, rb, pr);
        assert(rest.len() > 0 ==> !pr(rest[0], b[0])) by {
            if rest.len() > 0 {
                if rb.len() == 0 {
                    assert(rest == a);
                    assert(!pr(a[0], b[0]));
                } else if pr(rb[0], a[0]) {
                    assert(rest[0] == rb[0]);
                    assert(rb[0] == b[1]);
                    assert(!pr(b[1], b[0]));
                } else {
                    assert(rest[0] == a[0]);
                    assert(!pr(a[0], b[0]));
                }
            }
        }
        lemma_sorted_cons(b[0], rest, pr);
        assert(merge_seqs(a, b, pr).drop_first() =~= rest);
    } else {
        let ra = a.drop_first();
        let rest = merge_seqs(ra, b, pr);
        lemma_sorted_drop_first(a, pr);
        lemma_merge_sorted(ra, b, pr);
        lemma_merge_seqs_len(ra, b, pr);
        assert(rest.len() > 0 ==> !pr(rest[0], a[0])) by {
            if rest.len() > 0 {
                if ra.len() == 0 {
                    assert(rest == b);
                    assert(!pr(b[0], a[0]));
                } else if b.len() == 0 {
                } else if pr(b[0], ra[0]) {
                    assert(rest[0] == b[0]);
                    assert(!pr(b[0], a[0]));
                } else {
                    assert(rest[0] == ra[0]);
                    assert(ra[0] == a[1]);
                    assert(!pr(a[1], a[0]));
                }
            }
        }
        lemma_sorted_cons(a[0], rest, pr);
        assert(merge_seqs(a, b, pr).drop_first() =~= rest);
    }
}

/// Helper over an optional held-back element of a consuming iterator.
pub open spec fn opt_seq<T>(curr: Option<T>) -> Seq<T> {
    match curr {
        Some(v) => seq![v],
        None => Seq::empty(),
    }
}

/// Classical two-pointer merge of two sets already sorted under the
/// relation that `pred` decides; `pred(x, y)` reads "`x` is strictly
/// before `y`". The result holds exactly the elements of both inputs; for
/// every relation `pr` that `pred` decides, it equals the stable
/// [`merge_seqs`] of the two inputs under `pr`. Fails only where a
/// component admits failure.
#[verifier::loop_isolation(false)]
#[verifier::rlimit(60)]
pub fn merge<T, S, SE, SM, SME, F>(set_manager: &mut SM, set_a: S, set_b: S, pred: F) -> (r: Result<
    S,
    Error<SE, SME>,
>) where
    S: ItemSet<T = T, E = SE>,
    SM: SetManager<S = S, E = SME>,
    F: Fn(&T, &T) -> bool,

    requires
        forall|x: &T, y: &T| call_requires(pred, (x, y)),
    ensures
        (match r {
            Ok(c) => {
                &&& c.items().to_multiset() == set_a.items().to_multiset().add(
                    set_b.items().to_multiset(),
                )
                &&& forall|pr: spec_fn(T, T) -> bool|
                    #[trigger] decides(pred, pr) ==> c.items() == merge_seqs(
                        set_a.items(),
                        set_b.items(),
                        pr,
                    )
            },
            Err(Error::ItemSet(_)) => S::add_can_fail() || <S::I as SetIter>::next_can_fail(),
            Err(Error::SetManager(_)) => SM::make_can_fail(),
        }),
        !(S::add_can_fail() || <S::I as SetIter>::next_can_fail() || SM::make_can_fail())
            ==> r matches Ok(_),
{
    broadcast use vstd::multiset::group_multiset_axioms;
    broadcast use vstd::multiset::lemma_multiset_empty_len;
    broadcast use vstd::seq_lib::group_to_multiset_ensures;

    let ghost items_a = set_a.items();
    let ghost items_b = set_b.items();
    let limit_a = set_a.size();
    let limit_b = set_b.size();
    let mut target = match set_manager.make_set(limit_a.checked_add(limit_b)) {
        Ok(t) => t,
        Err(e) => {
            return Err(Error::SetManager(e));
        },
    };
    let mut iter_a = set_a.into_iter();
    let mut iter_b = set_b.into_iter();
    let mut curr_a = match iter_a.next() {
        None => None,
        Some(Ok(v)) => Some(v),
        Some(Err(e)) => {
            return Err(Error::ItemSet(e));
        },
    };
    let mut curr_b = match iter_b.next() {
        None => None,
        Some(Ok(v)) => Some(v),
        Some(Err(e)) => {
            return Err(Error::ItemSet(e));
        },
    };
    proof {
        assert(opt_seq(curr_a) + iter_a.remaining() =~= items_a);
        assert(opt_seq(curr_b) + iter_b.remaining() =~= items_b);
        assert(target.items().to_multiset() =~= Multiset::<T>::empty());
        assert(target.items().to_multiset().add((opt_seq(curr_a) + iter_a.remaining()).to_multiset()).add(
            (opt_seq(curr_b) + iter_b.remaining()).to_multiset(),
        ) =~= items_a.to_multiset().add(items_b.to_multiset()));
    }
    loop
        invariant
            curr_a is None ==> iter_a.remaining().len() == 0,
            curr_b is None ==> iter_b.remaining().len() == 0,
            target.items().to_multiset().add(
                (opt_seq(curr_a) + iter_a.remaining()).to_multiset(),
            ).add((opt_seq(curr_b) + iter_b.remaining()).to_multiset()) == items_a.to_multiset().add(
                items_b.to_multiset(),
            ),
            forall|pr: spec_fn(T, T) -> bool|
                #[trigger] decides(pred, pr) ==> merge_seqs(items_a, items_b, pr) == target.items()
                    + merge_seqs(
                    opt_seq(curr_a) + iter_a.remaining(),
                    opt_seq(curr_b) + iter_b.remaining(),
                    pr,
                ),
        decreases (opt_seq(curr_a) + iter_a.remaining()).len() + (opt_seq(curr_b)
            + iter_b.remaining()).len(),
    {
        let ghost pend_a = opt_seq(curr_a) + iter_a.remaining();
        let ghost pend_b = opt_seq(curr_b) + iter_b.remaining();
        match (curr_a, curr_b) {
            (None, None) => {
                proof {
                    assert(pend_a =~= Seq::<T>::empty());
                    assert(pend_b =~= Seq::<T>::empty());
                    assert(pend_a.to_multiset() =~= Multiset::<T>::empty());
                    assert(pend_b.to_multiset() =~= Multiset::<T>::empty());
                    assert(target.items().to_multiset() =~= items_a.to_multiset().add(
                        items_b.to_multiset(),
                    ));
                    assert forall|pr: spec_fn(T, T) -> bool| #[trigger]
                        decides(pred, pr) implies target.items() == merge_seqs(
                        items_a,
                        items_b,
                        pr,
                    ) by {
                        assert(merge_seqs(pend_a, pend_b, pr) == pend_b);
                        assert(target.items() + pend_b =~= target.items());
                    }
                }
                return Ok(target);
            },
            (Some(va), None) => {
                let ghost pre = target.items();
                match target.add(va) {
                    Ok(_) => {},
                    Err(e) => {
                        return Err(Error::ItemSet(e));
                    },
                }
                curr_a = match iter_a.next() {
                    None => None,
                    Some(Ok(v)) => Some(v),
                    Some(Err(e)) => {
                        return Err(Error::ItemSet(e));
                    },
                };
                curr_b = None;
                proof {
                    let pend_a2 = opt_seq(curr_a) + iter_a.remaining();
                    assert(pend_a2 =~= pend_a.drop_first());
                    lemma_push_to_multiset(pre, va);
                    lemma_cons_to_multiset(va, pend_a.drop_first());
                    assert(seq![va] + pend_a.drop_first() =~= pend_a);
                    assert(target.items().to_multiset().add(pend_a2.to_multiset()).add(
                        (opt_seq(curr_b) + iter_b.remaining()).to_multiset(),
                    ) =~= items_a.to_multiset().add(items_b.to_multiset()));
                    assert forall|pr: spec_fn(T, T) -> bool| #[trigger]
                        decides(pred, pr) implies merge_seqs(items_a, items_b, pr)
                        == target.items() + merge_seqs(
                        pend_a2,
                        opt_seq(curr_b) + iter_b.remaining(),
                        pr,
                    ) by {
                        assert(pend_b.len() == 0);
                        assert(merge_seqs(pend_a, pend_b, pr) == pend_a);
                        assert(merge_seqs(pend_a2, pend_b, pr) == pend_a2);
                        assert(pre + pend_a =~= target.items() + pend_a2);
                    }
                }
            },
            (None, Some(vb)) => {
                let ghost pre = target.items();
                match target.add(vb) {
                    Ok(_) => {},
                    Err(e) => {
                        return Err(Error::ItemSet(e));
                    },
                }
                curr_b = match iter_b.next() {
                    None => None,
                    Some(Ok(v)) => Some(v),
                    Some(Err(e)) => {
                        return Err(Error::ItemSet(e));
                    },
                };
                curr_a = None;
                proof {
                    let pend_b2 = opt_seq(curr_b) + iter_b.remaining();
                    assert(pend_b2 =~= pend_b.drop_first());
                    lemma_push_to_multiset(pre, vb);
                    lemma_cons_to_multiset(vb, pend_b.drop_first());
                    assert(seq![vb] + pend_b.drop_first() =~= pend_b);
                    assert(target.items().to_multiset().add(
                        (opt_seq(curr_a) + iter_a.remaining()).to_multiset(),
                    ).add(pend_b2.to_multiset()) =~= items_a.to_multiset().add(
                        items_b.to_multiset(),
                    ));
                    assert forall|pr: spec_fn(T, T) -> bool| #[trigger]
                        decides(pred, pr) implies merge_seqs(items_a, items_b, pr)
                        == target.items() + merge_seqs(
                        opt_seq(curr_a) + iter_a.remaining(),
                        pend_b2,
                        pr,
                    ) by {
                        assert(pend_a.len() == 0);
                        assert(merge_seqs(pend_a, pend_b, pr) == pend_b);
                        assert(merge_seqs(pend_a, pend_b2, pr) == pend_b2);
                        assert(pre + pend_b =~= target.items() + pend_b2);
                    }
                }
            },
            (Some(va), Some(vb)) => {
                let take_b = pred(&vb, &va);
                if take_b {
                    let ghost pre = target.items();
                    match target.add(vb) {
                        Ok(_) => {},
                        Err(e) => {
                            return Err(Error::ItemSet(e));
                        },
                    }
                    curr_b = match iter_b.next() {
                        None => None,
                        Some(Ok(v)) => Some(v),
                        Some(Err(e)) => {
                            return Err(Error::ItemSet(e));
                        },
                    };
                    curr_a = Some(va);
                    proof {
                        let pend_b2 = opt_seq(curr_b) + iter_b.remaining();
                        assert(pend_b2 =~= pend_b.drop_first());
                        lemma_push_to_multiset(pre, vb);
                        lemma_cons_to_multiset(vb, pend_b.drop_first());
                        assert(seq![vb] + pend_b.drop_first() =~= pend_b);
                        assert(target.items().to_multiset().add(pend_a.to_multiset()).add(
                            pend_b2.to_multiset(),
                        ) =~= items_a.to_multiset().add(items_b.to_multiset()));
                        assert forall|pr: spec_fn(T, T) -> bool| #[trigger]
                            decides(pred, pr) implies merge_seqs(items_a, items_b, pr)
                            == target.items() + merge_seqs(pend_a, pend_b2, pr) by {
                            assert(call_ensures(pred, (&vb, &va), take_b));
                            assert(pr(vb, va));
                            assert(pend_a[0] == va);
                            assert(pend_b[0] == vb);
                            assert(merge_seqs(pend_a, pend_b, pr) == seq![vb] + merge_seqs(
                                pend_a,
                                pend_b.drop_first(),
                                pr,
                            ));
                            assert(pre + (seq![vb] + merge_seqs(pend_a, pend_b2, pr))
                                =~= target.items() + merge_seqs(pend_a, pend_b2, pr));
                        }
                    }
                } else {
                    let ghost pre = target.items();
                    match target.add(va) {
                        Ok(_) => {},
                        Err(e) => {
                            return Err(Error::ItemSet(e));
                        },
                    }
                    curr_a = match iter_a.next() {
                        None => None,
                        Some(Ok(v)) => Some(v),
                        Some(Err(e)) => {
                            return Err(Error::ItemSet(e));
                        },
                    };
                    curr_b = Some(vb);
                    proof {
                        let pend_a2 = opt_seq(curr_a) + iter_a.remaining();
                        assert(pend_a2 =~= pend_a.drop_first());
                        lemma_push_to_multiset(pre, va);
                        lemma_cons_to_multiset(va, pend_a.drop_first());
                        assert(seq![va] + pend_a.drop_first() =~= pend_a);
                        assert(target.items().to_multiset().add(pend_a2.to_multiset()).add(
                            pend_b.to_multiset(),
                        ) =~= items_a.to_multiset().add(items_b.to_multiset()));
                        assert forall|pr: spec_fn(T, T) -> bool| #[trigger]
                            decides(pred, pr) implies merge_seqs(items_a, items_b, pr)
                            == target.items() + merge_seqs(pend_a2, pend_b, pr) by {
                            assert(call_ensures(pred, (&vb, &va), take_b));
                            assert(!pr(vb, va));
                            assert(pend_a[0] == va);
                            assert(pend_b[0] == vb);
                            assert(merge_seqs(pend_a, pend_b, pr) == seq![va] + merge_seqs(
                                pend_a.drop_first(),
                                pend_b,
                                pr,
                            ));
                            assert(pre + (seq![va] + merge_seqs(pend_a2, pend_b, pr))
                                =~= target.items() + merge_seqs(pend_a2, pend_b, pr));
                        }
                    }
                }
            },
        }
    }
}

} // verus!
