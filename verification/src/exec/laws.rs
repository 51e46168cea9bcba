use vstd::prelude::*;
use vstd::multiset::Multiset;
use super::{dispatched, flat, folds_to, nonempty_parts, range_seq, tree_folds_to, Job, WorkAmount};

verus! {

/// The reducer computes `op` on the `alpha`-abstraction of the partials.
pub open spec fn respects<J: Job, A>(
    job: &J,
    alpha: spec_fn(J::P) -> A,
    op: spec_fn(A, A) -> A,
) -> bool {
    forall|a: J::P, b: J::P, c: J::P|
        #[trigger] job.red_ok(a, b, c) ==> alpha(c) == op(alpha(a), alpha(b))
}

pub open spec fn op_associative<A>(op: spec_fn(A, A) -> A) -> bool {
    forall|x: A, y: A, z: A| #[trigger] op(op(x, y), z) == op(x, op(y, z))
}

/// Left fold of a nonempty sequence under `op`.
pub open spec fn fold1<A>(s: Seq<A>, op: spec_fn(A, A) -> A) -> A
    recommends
        s.len() > 0,
    decreases s.len(),
{
    if s.len() <= 1 {
        s[0]
    } else {
        op(fold1(s.drop_last(), op), s.last())
    }
}

/// Concatenation as an operation on sequences.
pub open spec fn concat_op<T>() -> spec_fn(Seq<T>, Seq<T>) -> Seq<T> {
    |x: Seq<T>, y: Seq<T>| x + y
}

pub proof fn lemma_concat_op_associative<T>()
    ensures
        op_associative(concat_op::<T>()),
{
    let op = concat_op::<T>();
    assert forall|x: Seq<T>, y: Seq<T>, z: Seq<T>| #[trigger] op(op(x, y), z) == op(x, op(y, z)) by {
        assert((x + y) + z =~= x + (y + z));
    }
}

/// Folding under an associative operation splits over concatenation.
pub proof fn lemma_fold1_concat<A>(s: Seq<A>, t: Seq<A>, op: spec_fn(A, A) -> A)
    requires
        s.len() > 0,
        t.len() > 0,
        op_associative(op),
    ensures
        fold1(s + t, op) == op(fold1(s, op), fold1(t, op)),
    decreases t.len(),
{
    if t.len() == 1 {
        assert((s + t).drop_last() =~= s);
        assert((s + t).last() == t[0]);
    } else {
        assert((s + t).drop_last() =~= s + t.drop_last());
        lemma_fold1_concat(s, t.drop_last(), op);
        assert((s + t).last() == t.last());
    }
}

/// A left fold through the reducer computes the left fold of the
/// abstraction of the partials.
pub proof fn lemma_fold_abstraction<J: Job, A>(
    job: &J,
    outs: Seq<J::P>,
    result: J::P,
    alpha: spec_fn(J::P) -> A,
    op: spec_fn(A, A) -> A,
)
    requires
        outs.len() > 0,
        folds_to(job, outs, result),
        respects(job, alpha, op),
    ensures
        alpha(result) == fold1(outs.map_values(alpha), op),
    decreases outs.len(),
{
    if outs.len() == 1 {
        assert(outs.map_values(alpha)[0] == alpha(outs[0]));
    } else {
        let mid = choose|mid: J::P|
            folds_to(job, outs.drop_last(), mid) && #[trigger] job.red_ok(
                mid,
                outs.last(),
                result,
            );
        lemma_fold_abstraction(job, outs.drop_last(), mid, alpha, op);
        assert(outs.map_values(alpha).drop_last() =~= outs.drop_last().map_values(alpha));
        assert(outs.map_values(alpha).last() == alpha(outs.last()));
    }
}

/// Any reduction tree computes the same left fold of the abstraction,
/// when the abstract operation is associative.
pub proof fn lemma_tree_fold_abstraction<J: Job, A>(
    job: &J,
    outs: Seq<J::P>,
    result: J::P,
    alpha: spec_fn(J::P) -> A,
    op: spec_fn(A, A) -> A,
)
    requires
        outs.len() > 0,
        tree_folds_to(job, outs, result),
        respects(job, alpha, op),
        op_associative(op),
    ensures
        alpha(result) == fold1(outs.map_values(alpha), op),
    decreases outs.len(),
{
    if outs.len() == 1 {
        assert(outs.map_values(alpha)[0] == alpha(outs[0]));
    } else {
        let (k, l, r) = choose|k: int, l: J::P, r: J::P|
            #![trigger outs.take(k), job.red_ok(l, r, result)]
            0 < k < outs.len() && tree_folds_to(job, outs.take(k), l) && tree_folds_to(
                job,
                outs.skip(k),
                r,
            ) && job.red_ok(l, r, result);
        lemma_tree_fold_abstraction(job, outs.take(k), l, alpha, op);
        lemma_tree_fold_abstraction(job, outs.skip(k), r, alpha, op);
        let mapped = outs.map_values(alpha);
        assert(outs.take(k).map_values(alpha) =~= mapped.take(k));
        assert(outs.skip(k).map_values(alpha) =~= mapped.skip(k));
        lemma_fold1_concat(mapped.take(k), mapped.skip(k), op);
        assert(mapped.take(k) + mapped.skip(k) =~= mapped);
    }
}

/// A left fold is one reduction tree.
pub proof fn lemma_folds_to_tree<J: Job>(job: &J, outs: Seq<J::P>, result: J::P)
    requires
        outs.len() > 0,
        folds_to(job, outs, result),
    ensures
        tree_folds_to(job, outs, result),
    decreases outs.len(),
{
    if outs.len() == 1 {
    } else {
        let mid = choose|mid: J::P|
            folds_to(job, outs.drop_last(), mid) && #[trigger] job.red_ok(
                mid,
                outs.last(),
                result,
            );
        lemma_folds_to_tree(job, outs.drop_last(), mid);
        let k = outs.len() - 1;
        assert(outs.take(k) =~= outs.drop_last());
        assert(outs.skip(k) =~= seq![outs.last()]);
        assert(tree_folds_to(job, outs.skip(k), outs.last()));
    }
}

/// Law: with a reducer that computes an associative operation on an
/// abstraction of the partials, the reduced result is independent of the
/// reduction order: any two reduction trees over the same partials agree
/// on the abstraction.
pub proof fn lemma_reduction_order_independent<J: Job, A>(
    job: &J,
    outs: Seq<J::P>,
    x: J::P,
    y: J::P,
    alpha: spec_fn(J::P) -> A,
    op: spec_fn(A, A) -> A,
)
    requires
        outs.len() > 0,
        respects(job, alpha, op),
        op_associative(op),
        tree_folds_to(job, outs, x),
        tree_folds_to(job, outs, y),
    ensures
        alpha(x) == alpha(y),
{
    lemma_tree_fold_abstraction(job, outs, x, alpha, op);
    lemma_tree_fold_abstraction(job, outs, y, alpha, op);
}

/// Law: with a single partial the reducer plays no part: the reduced
/// result is that partial itself.
pub proof fn lemma_single_partial<J: Job>(job: &J, outs: Seq<J::P>, result: J::P)
    requires
        outs.len() == 1,
        folds_to(job, outs, result),
    ensures
        result == outs[0],
{
}

/// Law: with a single worker the whole range is one share, dispatched to
/// that worker alone; together with [`lemma_single_partial`], the job's
/// result is that worker's partial and the reducer plays no part.
pub proof fn lemma_single_worker_dispatch<WA: WorkAmount>(amount: &WA)
    ensures
        dispatched(amount, 1).len() <= 1,
        amount.total_spec() > 0 ==> dispatched(amount, 1) == seq![amount.part(0, 1)],
{
    broadcast use vstd::seq_lib::group_to_multiset_ensures;

    amount.lemma_partition(1);
    let ap = super::all_parts(amount, 1);
    assert(ap =~= Seq::new(1, |k: int| amount.part(k, 1)));
    assert(ap.drop_last() =~= Seq::<Seq<usize>>::empty());
    assert(flat(ap.drop_last()) =~= Seq::<usize>::empty());
    assert(flat(ap) == flat(ap.drop_last()) + ap.last());
    assert(flat(ap) =~= amount.part(0, 1));
    assert(nonempty_parts(ap.drop_last()) =~= Seq::<Seq<usize>>::empty());
    if amount.total_spec() > 0 {
        assert(flat(ap).to_multiset().len() == range_seq(amount.total_spec()).to_multiset().len());
        assert(amount.part(0, 1).len() > 0);
        assert(dispatched(amount, 1) =~= seq![amount.part(0, 1)]);
    } else {
        if ap.last().len() > 0 {
            assert(flat(ap).to_multiset().len() == range_seq(
                amount.total_spec(),
            ).to_multiset().len());
            assert(flat(ap).len() == 0);
        }
        assert(dispatched(amount, 1) =~= Seq::<Seq<usize>>::empty());
    }
}

/// Two pointwise length-equal nests flatten to the same length.
pub proof fn lemma_flat_len_pointwise<T, U>(vs: Seq<Seq<T>>, ps: Seq<Seq<U>>)
    requires
        vs.len() == ps.len(),
        forall|i: int| #![trigger vs[i]] 0 <= i < vs.len() ==> vs[i].len() == ps[i].len(),
    ensures
        flat(vs).len() == flat(ps).len(),
    decreases vs.len(),
{
    if vs.len() == 0 {
    } else {
        assert forall|i: int| #![trigger vs.drop_last()[i]] 0 <= i < vs.drop_last().len() implies vs.drop_last()[i].len()
            == ps.drop_last()[i].len() by {
            assert(vs.drop_last()[i] == vs[i]);
            assert(ps.drop_last()[i] == ps[i]);
        }
        lemma_flat_len_pointwise(vs.drop_last(), ps.drop_last());
        assert(vs.last() == vs[vs.len() - 1]);
        assert(ps.last() == ps[ps.len() - 1]);
    }
}

/// Mapping each inner sequence pointwise maps the flattening.
pub proof fn lemma_flat_map_pointwise<T, U>(vs: Seq<Seq<T>>, ps: Seq<Seq<U>>, f: spec_fn(T) -> U)
    requires
        vs.len() == ps.len(),
        forall|i: int| #![trigger vs[i]] 0 <= i < vs.len() ==> vs[i].map_values(f) == ps[i],
    ensures
        flat(vs).map_values(f) == flat(ps),
    decreases vs.len(),
{
    if vs.len() == 0 {
        assert(flat(vs).map_values(f) =~= flat(ps));
    } else {
        assert forall|i: int| #![trigger vs.drop_last()[i]] 0 <= i < vs.drop_last().len() implies vs.drop_last()[i].map_values(
            f,
        ) == ps.drop_last()[i] by {
            assert(vs.drop_last()[i] == vs[i]);
            assert(ps.drop_last()[i] == ps[i]);
        }
        lemma_flat_map_pointwise(vs.drop_last(), ps.drop_last(), f);
        assert(vs.last() == vs[vs.len() - 1]);
        assert(ps.last() == ps[ps.len() - 1]);
        assert((flat(vs.drop_last()) + vs.last()).map_values(f) =~= flat(
            vs.drop_last(),
        ).map_values(f) + vs.last().map_values(f));
        assert(flat(vs.drop_last()).map_values(f) + vs.last().map_values(f) =~= flat(ps));
    }
}

/// Folding sequences under concatenation flattens them.
pub proof fn lemma_fold1_concat_is_flat<T>(vs: Seq<Seq<T>>)
    requires
        vs.len() > 0,
    ensures
        fold1(vs, concat_op::<T>()) == flat(vs),
    decreases vs.len(),
{
    let op = concat_op::<T>();
    if vs.len() == 1 {
        assert(vs.drop_last().len() == 0);
        assert(flat(vs.drop_last()) =~= Seq::<T>::empty());
        assert(flat(vs) == flat(vs.drop_last()) + vs.last());
        assert(flat(vs.drop_last()) + vs.last() =~= vs[0]);
        assert(fold1(vs, op) == vs[0]);
    } else {
        lemma_fold1_concat_is_flat(vs.drop_last());
        assert(fold1(vs, op) == op(fold1(vs.drop_last(), op), vs.last()));
        assert(op(flat(vs.drop_last()), vs.last()) == flat(vs.drop_last()) + vs.last());
    }
}

/// Dropping the empty shares leaves the flattening untouched.
pub proof fn lemma_nonempty_parts_flat(ps: Seq<Seq<usize>>)
    ensures
        flat(nonempty_parts(ps)) == flat(ps),
    decreases ps.len(),
{
    if ps.len() == 0 {
    } else {
        lemma_nonempty_parts_flat(ps.drop_last());
        let rest = nonempty_parts(ps.drop_last());
        if ps.last().len() > 0 {
            assert(rest.push(ps.last()).drop_last() =~= rest);
            assert(rest.push(ps.last()).last() == ps.last());
        } else {
            assert(flat(ps.drop_last()) + ps.last() =~= flat(ps.drop_last()));
        }
    }
}

/// Where there is any work at all, something is dispatched.
pub proof fn lemma_nonempty_parts_len_pos(ps: Seq<Seq<usize>>)
    requires
        flat(ps).len() > 0,
    ensures
        nonempty_parts(ps).len() > 0,
{
    lemma_nonempty_parts_flat(ps);
    if nonempty_parts(ps).len() == 0 {
        assert(flat(nonempty_parts(ps)).len() == 0);
    }
}

/// Every dispatched share is nonempty.
pub proof fn lemma_nonempty_parts_all_nonempty(ps: Seq<Seq<usize>>)
    ensures
        forall|i: int|
            0 <= i < nonempty_parts(ps).len() ==> (#[trigger] nonempty_parts(ps)[i]).len() > 0,
    decreases ps.len(),
{
    if ps.len() == 0 {
    } else {
        lemma_nonempty_parts_all_nonempty(ps.drop_last());
        let ne = nonempty_parts(ps);
        let rest = nonempty_parts(ps.drop_last());
        assert forall|i: int| 0 <= i < ne.len() implies (#[trigger] ne[i]).len() > 0 by {
            if ps.last().len() > 0 && i == ne.len() - 1 {
                assert(ne[i] == ps.last());
            } else {
                assert(ne[i] == rest[i]);
            }
        }
    }
}

/// Every dispatched share is one of the dealt shares.
pub proof fn lemma_nonempty_parts_membership(ps: Seq<Seq<usize>>)
    ensures
        forall|i: int|
            0 <= i < nonempty_parts(ps).len() ==> ps.contains(#[trigger] nonempty_parts(ps)[i]),
    decreases ps.len(),
{
    if ps.len() == 0 {
    } else {
        lemma_nonempty_parts_membership(ps.drop_last());
        assert forall|i: int| 0 <= i < nonempty_parts(ps).len() implies ps.contains(
            #[trigger] nonempty_parts(ps)[i],
        ) by {
            let ne = nonempty_parts(ps);
            let rest = nonempty_parts(ps.drop_last());
            if ps.last().len() > 0 && i == ne.len() - 1 {
                assert(ne[i] == ps.last());
                assert(ps[ps.len() - 1] == ps.last());
            } else {
                assert(ne[i] == rest[i]);
                assert(ps.drop_last().contains(rest[i]));
                let j = choose|j: int|
                    0 <= j < ps.drop_last().len() && ps.drop_last()[j] == rest[i];
                assert(ps[j] == rest[i]);
            }
        }
    }
}

/// One step of dealing: the dispatched prefix grows by the worker's share
/// exactly where that share is nonempty.
pub proof fn lemma_nonempty_parts_step(ps: Seq<Seq<usize>>, k: int)
    requires
        0 <= k < ps.len(),
    ensures
        nonempty_parts(ps.take(k + 1)) == (if ps[k].len() > 0 {
            nonempty_parts(ps.take(k)).push(ps[k])
        } else {
            nonempty_parts(ps.take(k))
        }),
{
    assert(ps.take(k + 1).drop_last() =~= ps.take(k));
    assert(ps.take(k + 1).last() == ps[k]);
}

/// An element of a member of a nest occurs in its flattening.
pub proof fn lemma_flat_member_elements<T>(ps: Seq<Seq<T>>, q: Seq<T>, j: int)
    requires
        ps.contains(q),
        0 <= j < q.len(),
    ensures
        flat(ps).contains(q[j]),
    decreases ps.len(),
{
    let i = choose|i: int| 0 <= i < ps.len() && ps[i] == q;
    if i == ps.len() - 1 {
        assert(flat(ps) == flat(ps.drop_last()) + ps.last());
        assert(flat(ps)[flat(ps.drop_last()).len() + j] == q[j]);
    } else {
        assert(ps.drop_last()[i] == q);
        assert(ps.drop_last().contains(q));
        lemma_flat_member_elements(ps.drop_last(), q, j);
        let v = q[j];
        let t = choose|t: int| 0 <= t < flat(ps.drop_last()).len() && flat(ps.drop_last())[t] == v;
        assert(flat(ps) == flat(ps.drop_last()) + ps.last());
        assert(flat(ps)[t] == v);
    }
}

/// A value that a partition's flattening holds is below the total.
pub proof fn lemma_partition_value_bound(parts: Seq<Seq<usize>>, total: nat, v: usize)
    requires
        flat(parts).to_multiset() == range_seq(total).to_multiset(),
        flat(parts).contains(v),
    ensures
        (v as nat) < total,
{
    broadcast use vstd::seq_lib::group_to_multiset_ensures;

    assert(flat(parts).to_multiset().count(v) > 0);
    assert(range_seq(total).contains(v));
    let i = choose|i: int| 0 <= i < range_seq(total).len() && range_seq(total)[i] == v;
}

/// Multiset union as an operation.
pub open spec fn madd_op<T>() -> spec_fn(Multiset<T>, Multiset<T>) -> Multiset<T> {
    |a: Multiset<T>, b: Multiset<T>| a.add(b)
}

pub proof fn lemma_madd_op_associative<T>()
    ensures
        op_associative(madd_op::<T>()),
{
    let op = madd_op::<T>();
    assert forall|x: Multiset<T>, y: Multiset<T>, z: Multiset<T>| #[trigger] op(op(x, y), z) == op(
        x,
        op(y, z),
    ) by {
        broadcast use vstd::multiset::group_multiset_axioms;

        assert(x.add(y).add(z) =~= x.add(y.add(z)));
    }
}

/// Folding the multisets of the members unions them into the multiset of
/// the flattening.
pub proof fn lemma_fold1_multisets<T>(vs: Seq<Seq<T>>, ms: Seq<Multiset<T>>)
    requires
        vs.len() > 0,
        ms.len() == vs.len(),
        forall|i: int| 0 <= i < vs.len() ==> #[trigger] ms[i] == vs[i].to_multiset(),
    ensures
        fold1(ms, madd_op::<T>()) == flat(vs).to_multiset(),
    decreases vs.len(),
{
    broadcast use vstd::multiset::group_multiset_axioms;
    broadcast use vstd::seq_lib::group_to_multiset_ensures;

    let op = madd_op::<T>();
    vstd::seq_lib::lemma_multiset_commutative(flat(vs.drop_last()), vs.last());
    if vs.len() == 1 {
        assert(vs.drop_last().len() == 0);
        assert(flat(vs.drop_last()) =~= Seq::<T>::empty());
        assert(flat(vs.drop_last()).to_multiset().len() == 0);
        assert(flat(vs).to_multiset() =~= vs.last().to_multiset());
        assert(fold1(ms, op) == ms[0]);
        assert(ms[0] == vs[0].to_multiset());
    } else {
        assert forall|i: int| 0 <= i < vs.drop_last().len() implies #[trigger] ms.drop_last()[i]
            == vs.drop_last()[i].to_multiset() by {
            assert(ms.drop_last()[i] == ms[i]);
            assert(vs.drop_last()[i] == vs[i]);
        }
        lemma_fold1_multisets(vs.drop_last(), ms.drop_last());
        assert(ms.last() == ms[ms.len() - 1]);
        assert(vs.last() == vs[vs.len() - 1]);
        assert(fold1(ms, op) == op(fold1(ms.drop_last(), op), ms.last()));
    }
}

/// A property of partials that every share's partial has, and that the
/// reducer preserves, holds of the reduced result.
pub proof fn lemma_fold_invariant<J: Job>(
    job: &J,
    outs: Seq<J::P>,
    result: J::P,
    q: spec_fn(J::P) -> bool,
)
    requires
        outs.len() > 0,
        folds_to(job, outs, result),
        forall|i: int| 0 <= i < outs.len() ==> q(#[trigger] outs[i]),
        forall|a: J::P, b: J::P, c: J::P| q(a) && q(b) && #[trigger] job.red_ok(a, b, c) ==> q(c),
    ensures
        q(result),
    decreases outs.len(),
{
    if outs.len() == 1 {
    } else {
        let mid = choose|mid: J::P|
            folds_to(job, outs.drop_last(), mid) && #[trigger] job.red_ok(
                mid,
                outs.last(),
                result,
            );
        assert forall|i: int| 0 <= i < outs.drop_last().len() implies q(
            #[trigger] outs.drop_last()[i],
        ) by {
            assert(outs.drop_last()[i] == outs[i]);
        }
        lemma_fold_invariant(job, outs.drop_last(), mid, q);
        assert(q(outs.last()));
    }
}

/// A pointwise relation between the members of two nests carries over to
/// their flattenings.
pub proof fn lemma_flat_pointwise<A, B>(ps: Seq<Seq<A>>, vs: Seq<Seq<B>>, rel: spec_fn(A, B) -> bool)
    requires
        ps.len() == vs.len(),
        forall|i: int| #![trigger ps[i]]
            0 <= i < ps.len() ==> ps[i].len() == vs[i].len() && (forall|j: int|
                0 <= j < ps[i].len() ==> rel(#[trigger] ps[i][j], vs[i][j])),
    ensures
        flat(ps).len() == flat(vs).len(),
        forall|t: int| 0 <= t < flat(ps).len() ==> rel(#[trigger] flat(ps)[t], flat(vs)[t]),
    decreases ps.len(),
{
    if ps.len() == 0 {
    } else {
        assert forall|i: int| #![trigger ps.drop_last()[i]]
            0 <= i < ps.drop_last().len() implies ps.drop_last()[i].len()
            == vs.drop_last()[i].len() && (forall|j: int|
            0 <= j < ps.drop_last()[i].len() ==> rel(
                #[trigger] ps.drop_last()[i][j],
                vs.drop_last()[i][j],
            )) by {
            assert(ps.drop_last()[i] == ps[i]);
            assert(vs.drop_last()[i] == vs[i]);
        }
        lemma_flat_pointwise(ps.drop_last(), vs.drop_last(), rel);
        assert(ps.last() == ps[ps.len() - 1]);
        assert(vs.last() == vs[vs.len() - 1]);
        let off = flat(ps.drop_last()).len() as int;
        assert forall|t: int| 0 <= t < flat(ps).len() implies rel(
            #[trigger] flat(ps)[t],
            flat(vs)[t],
        ) by {
            if t < off {
                assert(flat(ps)[t] == flat(ps.drop_last())[t]);
                assert(flat(vs)[t] == flat(vs.drop_last())[t]);
            } else {
                assert(flat(ps)[t] == ps.last()[t - off]);
                assert(flat(vs)[t] == vs.last()[t - off]);
                assert(rel(ps[ps.len() - 1][t - off], vs[vs.len() - 1][t - off]));
            }
        }
    }
}

} // verus!
