use vstd::prelude::*;
use vstd::multiset::Multiset;
use core::marker::PhantomData;
use super::{ItemSet, SetIter, SetManager};
use super::merge as set_merge;
use super::merge::{decides, lemma_merge_sorted, merge_seqs, sorted_under, strict_compat};
use crate::exec::{
    dispatched, flat, folds_to, parts_mapped, range_seq, red_err_possible, Executor,
    ExecutorJobError, Job, JobExecuteError, WorkAmount,
};
use crate::exec::laws::{
    lemma_fold1_multisets, lemma_fold_abstraction, lemma_fold_invariant, lemma_madd_op_associative,
    lemma_nonempty_parts_flat, madd_op, respects,
};

verus! {

/// `pr` names the relation over indices that the executable predicate
/// decides: whenever the predicate answers `r` on a pair, `r` agrees
/// with `pr` on it.
pub open spec fn decides_index<F: Fn(usize, usize) -> bool>(
    pred: F,
    pr: spec_fn(usize, usize) -> bool,
) -> bool {
    forall|a: usize, b: usize, r: bool| call_ensures(pred, (a, b), r) ==> r == pr(a, b)
}

/// Sorts a set of work indices in place under an index predicate;
/// `pred(a, b)` reads "`a` is strictly before `b`".
pub trait SortManager {
    type S: ItemSet<T = usize>;

    type E;

    /// Whether `sort` is ever allowed to fail for this implementation.
    spec fn sort_can_fail() -> bool;

    fn sort<SF: Fn(usize, usize) -> bool>(&mut self, set: &mut Self::S, pred: &SF) -> (r: Result<
        (),
        Self::E,
    >)
        requires
            forall|a: usize, b: usize| call_requires(*pred, (a, b)),
        ensures
            (match r {
                Ok(_) => final(set).items().to_multiset() == old(set).items().to_multiset() && (
                forall|pr: spec_fn(usize, usize) -> bool|
                    #[trigger] decides_index(*pred, pr) && strict_compat(pr) ==> sorted_under(
                        final(set).items(),
                        pr,
                    )),
                Err(_) => Self::sort_can_fail(),
            }),
    ;
}

/// A value that can hand out its sort manager for mutation.
pub trait RetrieveSortManager {
    type SortM;

    fn retrieve(&mut self) -> &mut Self::SortM;
}

/// A value that can hand out its set manager for mutation.
pub trait RetrieveSetManager {
    type SetM;

    fn retrieve(&mut self) -> &mut Self::SetM;
}

/// Failure inside one worker's share of a sort job.
#[derive(Debug)]
pub enum SortError<SE, SME, SRE> {
    ItemSet(SE),
    SetManager(SME),
    Sort(SRE),
}

/// Failure of the whole sort stage.
#[derive(Debug)]
pub enum Error<ExecE, SE, SME, SRE> {
    EmptySet,
    Executor(
        ExecutorJobError<ExecE, JobExecuteError<SortError<SE, SME, SRE>, set_merge::Error<SE, SME>>>,
    ),
}

/// The sort stage's job: map materializes one worker's share of indices
/// and sorts it with the worker's sort manager; reduce merges two sorted
/// shares under the same predicate.
struct SortJob<LC, S, SetM, SortM, F> {
    pred: F,
    _marker: PhantomData<(LC, S, SetM, SortM)>,
}

impl<LC, S, SE, SetM, SME, SortM, SRE, F> Job for SortJob<LC, S, SetM, SortM, F> where
    LC: RetrieveSortManager<SortM = SortM> + RetrieveSetManager<SetM = SetM>,
    S: ItemSet<T = usize, E = SE>,
    SetM: SetManager<S = S, E = SME>,
    SortM: SortManager<S = S, E = SRE>,
    F: Fn(usize, usize) -> bool,
 {
    type LC = LC;

    type P = S;

    type ME = SortError<SE, SME, SRE>;

    type RE = set_merge::Error<SE, SME>;

    closed spec fn wf(&self) -> bool {
        forall|a: usize, b: usize| call_requires(self.pred, (a, b))
    }

    closed spec fn map_ok(&self, indices: Seq<usize>, out: S) -> bool {
        &&& out.items().to_multiset() == indices.to_multiset()
        &&& forall|pr: spec_fn(usize, usize) -> bool|
            #[trigger] decides_index(self.pred, pr) && strict_compat(pr) ==> sorted_under(
                out.items(),
                pr,
            )
    }

    closed spec fn map_fail(&self, indices: Seq<usize>, err: SortError<SE, SME, SRE>) -> bool {
        match err {
            SortError::ItemSet(_) => S::add_can_fail() || <S::I as SetIter>::next_can_fail(),
            SortError::SetManager(_) => SetM::make_can_fail(),
            SortError::Sort(_) => SortM::sort_can_fail(),
        }
    }

    closed spec fn red_ok(&self, a: S, b: S, out: S) -> bool {
        &&& out.items().to_multiset() == a.items().to_multiset().add(b.items().to_multiset())
        &&& forall|pr: spec_fn(usize, usize) -> bool|
            #[trigger] decides_index(self.pred, pr) && strict_compat(pr) && sorted_under(
                a.items(),
                pr,
            ) && sorted_under(b.items(), pr) ==> sorted_under(out.items(), pr)
    }

    closed spec fn red_fail(&self, a: S, b: S, err: set_merge::Error<SE, SME>) -> bool {
        match err {
            set_merge::Error::ItemSet(_) => S::add_can_fail() || <S::I as SetIter>::next_can_fail(),
            set_merge::Error::SetManager(_) => SetM::make_can_fail(),
        }
    }

    #[verifier::loop_isolation(false)]
    fn map(&self, lc: &mut LC, indices: &Vec<usize>) -> (r: Result<S, SortError<SE, SME, SRE>>) {
        let mut chunk = match <LC as RetrieveSetManager>::retrieve(lc).make_set(None) {
            Ok(s) => s,
            Err(e) => {
                return Err(SortError::SetManager(e));
            },
        };
        let mut j: usize = 0;
        while j < indices.len()
            invariant
                0 <= j <= indices@.len(),
                chunk.items() == indices@.take(j as int),
            decreases indices@.len() - j,
        {
            match chunk.add(indices[j]) {
                Ok(_) => {},
                Err(e) => {
                    return Err(SortError::ItemSet(e));
                },
            }
            j = j + 1;
            proof {
                assert(chunk.items() =~= indices@.take(j as int));
            }
        }
        proof {
            assert(chunk.items() =~= indices@);
        }
        match <LC as RetrieveSortManager>::retrieve(lc).sort(&mut chunk, &self.pred) {
            Ok(_) => Ok(chunk),
            Err(e) => Err(SortError::Sort(e)),
        }
    }

    fn reduce(&self, lc: &mut LC, a: S, b: S) -> (r: Result<S, set_merge::Error<SE, SME>>) {
        let ghost items_a = a.items();
        let ghost items_b = b.items();
        let pred_ref = &self.pred;
        let cmp = |x: &usize, y: &usize| -> (rr: bool)
            requires
                call_requires(pred_ref, (*x, *y)),
            ensures
                call_ensures(pred_ref, (*x, *y), rr),
            { pred_ref(*x, *y) };
        let merged = set_merge::merge(<LC as RetrieveSetManager>::retrieve(lc), a, b, cmp);
        match merged {
            Ok(out) => {
                proof {
                    assert forall|pr: spec_fn(usize, usize) -> bool|
                        #[trigger] decides_index(self.pred, pr) && strict_compat(pr)
                            && sorted_under(items_a, pr) && sorted_under(items_b, pr)
                        implies sorted_under(out.items(), pr) by {
                        assert(decides(cmp, pr)) by {
                            assert forall|x: &usize, y: &usize, rr: bool|
                                call_ensures(cmp, (x, y), rr) implies rr == pr(*x, *y) by {
                                assert(call_ensures(&self.pred, (*x, *y), rr));
                                assert(call_ensures(self.pred, (*x, *y), rr));
                            }
                        }
                        assert(out.items() == merge_seqs(items_a, items_b, pr));
                        lemma_merge_sorted(items_a, items_b, pr);
                    }
                }
                Ok(out)
            },
            Err(e) => Err(e),
        }
    }
}

/// Sort stage: every index in `0..total` is dealt to a worker, each
/// worker materializes and sorts its share, and the sorted shares are
/// merged. On success the result holds each index of `0..total` exactly
/// once and is sorted under every strict-weak-order relation that `pred`
/// decides. With no work at all the stage reports `EmptySet`, and the
/// workers receive nothing.
pub fn sort<Exec, LC, S, SE, SetM, SME, SortM, SRE, WA, F>(amount: WA, pred: F, exec: &mut Exec) -> (r:
    Result<S, Error<Exec::E, SE, SME, SRE>>) where
    LC: RetrieveSortManager<SortM = SortM> + RetrieveSetManager<SetM = SetM>,
    Exec: Executor<LC = LC>,
    S: ItemSet<T = usize, E = SE>,
    SetM: SetManager<S = S, E = SME>,
    SortM: SortManager<S = S, E = SRE>,
    WA: WorkAmount,
    F: Fn(usize, usize) -> bool,

    requires
        forall|a: usize, b: usize| call_requires(pred, (a, b)),
    ensures
        final(exec).workers() == old(exec).workers(),
        (match r {
            Ok(s) => {
                &&& s.items().to_multiset() == range_seq(amount.total_spec()).to_multiset()
                &&& s.items().len() == amount.total_spec()
                &&& forall|pr: spec_fn(usize, usize) -> bool|
                    #[trigger] decides_index(pred, pr) && strict_compat(pr) ==> sorted_under(
                        s.items(),
                        pr,
                    )
            },
            Err(Error::EmptySet) => amount.total_spec() == 0 || old(exec).workers() == 0,
            Err(Error::Executor(_)) => S::add_can_fail() || <S::I as SetIter>::next_can_fail()
                || SetM::make_can_fail() || SortM::sort_can_fail() || Exec::exec_can_fail(),
        }),
        (amount.total_spec() == 0 || old(exec).workers() == 0) <==> r matches Err(
            Error::EmptySet,
        ),
        (r matches Err(Error::Executor(ExecutorJobError::Several(errs))) ==> errs@.len() >= 2),
        !(S::add_can_fail() || <S::I as SetIter>::next_can_fail() || SetM::make_can_fail()
            || SortM::sort_can_fail() || Exec::exec_can_fail()) && amount.total_spec() > 0
            && old(exec).workers() > 0 ==> r matches Ok(_),
{
    broadcast use vstd::seq_lib::group_to_multiset_ensures;
    broadcast use vstd::multiset::group_multiset_axioms;

    let job: SortJob<LC, S, SetM, SortM, F> = SortJob { pred, _marker: PhantomData };
    proof {
        assert(job.wf());
    }
    let ghost wi = old(exec).workers() as int;
    let ghost total = amount.total_spec();
    let outcome = exec.try_execute_job(amount, &job);
    match outcome {
        Ok(None) => Err(Error::EmptySet),
        Ok(Some(sorted_set)) => {
            proof {
                let disp = dispatched(&amount, wi);
                let outs = choose|outs: Seq<S>|
                    #[trigger] parts_mapped(&job, disp, outs) && folds_to(&job, outs, sorted_set);
                let alpha = |s: S| s.items().to_multiset();
                let op = madd_op::<usize>();
                lemma_madd_op_associative::<usize>();
                assert(respects(&job, alpha, op)) by {
                    assert forall|x: S, y: S, z: S| #[trigger] job.red_ok(x, y, z) implies alpha(z)
                        == op(alpha(x), alpha(y)) by {}
                }
                lemma_fold_abstraction(&job, outs, sorted_set, alpha, op);
                let vs = outs.map_values(|s: S| s.items());
                let ms = outs.map_values(alpha);
                assert forall|i: int| 0 <= i < vs.len() implies #[trigger] ms[i]
                    == vs[i].to_multiset() by {
                    assert(vs[i] == outs[i].items());
                    assert(ms[i] == alpha(outs[i]));
                }
                lemma_fold1_multisets(vs, ms);
                assert(flat(vs).to_multiset() == flat(disp).to_multiset()) by {
                    assert forall|i: int| 0 <= i < vs.len() implies (#[trigger] vs[i]).to_multiset()
                        == disp[i].to_multiset() by {
                        assert(job.map_ok(disp[i], outs[i]));
                    }
                    lemma_flat_multisets_pointwise(vs, disp);
                }
                lemma_nonempty_parts_flat(crate::exec::all_parts(&amount, wi));
                amount.lemma_partition(wi);
                assert(crate::exec::all_parts(&amount, wi) =~= Seq::new(
                    wi as nat,
                    |k: int| amount.part(k, wi),
                ));
                assert(sorted_set.items().to_multiset() == range_seq(total).to_multiset());
                assert(sorted_set.items().len() == range_seq(total).to_multiset().len());
                assert(range_seq(total).len() == total);
                let q = |s: S|
                    forall|pr: spec_fn(usize, usize) -> bool|
                        #[trigger] decides_index(pred, pr) && strict_compat(pr) ==> sorted_under(
                            s.items(),
                            pr,
                        );
                assert forall|i: int| 0 <= i < outs.len() implies q(#[trigger] outs[i]) by {
                    assert(job.map_ok(disp[i], outs[i]));
                    assert forall|pr: spec_fn(usize, usize) -> bool|
                        #[trigger] decides_index(pred, pr) && strict_compat(pr)
                        implies sorted_under(outs[i].items(), pr) by {
                        assert(decides_index(job.pred, pr));
                    }
                }
                assert forall|x: S, y: S, z: S| q(x) && q(y) && #[trigger] job.red_ok(x, y, z)
                    implies q(z) by {
                    assert forall|pr: spec_fn(usize, usize) -> bool|
                        #[trigger] decides_index(pred, pr) && strict_compat(pr)
                        implies sorted_under(z.items(), pr) by {
                        assert(decides_index(job.pred, pr));
                        assert(sorted_under(x.items(), pr));
                        assert(sorted_under(y.items(), pr));
                    }
                }
                lemma_fold_invariant(&job, outs, sorted_set, q);
            }
            Ok(sorted_set)
        },
        Err(e) => {
            proof {
                match &e {
                    ExecutorJobError::Executor(_) => {},
                    ExecutorJobError::Job(je) => {
                        lemma_sort_job_err::<LC, S, SE, SetM, SME, SortM, SRE, F>(&job, &amount, wi, *je);
                    },
                    ExecutorJobError::Several(errs) => {
                        assert(crate::exec::job_err_possible(
                            &job,
                            dispatched(&amount, wi),
                            errs@[0],
                        ));
                        lemma_sort_job_err::<LC, S, SE, SetM, SME, SortM, SRE, F>(&job, &amount, wi, errs@[0]);
                    },
                }
            }
            Err(Error::Executor(e))
        },
    }
}

proof fn lemma_flat_multisets_pointwise<T>(vs: Seq<Seq<T>>, ps: Seq<Seq<T>>)
    requires
        vs.len() == ps.len(),
        forall|i: int| #![trigger vs[i]] 0 <= i < vs.len() ==> vs[i].to_multiset() == ps[i].to_multiset(),
    ensures
        flat(vs).to_multiset() == flat(ps).to_multiset(),
    decreases vs.len(),
{
    broadcast use vstd::multiset::group_multiset_axioms;

    if vs.len() == 0 {
        assert(flat(vs) =~= flat(ps));
    } else {
        assert forall|i: int| #![trigger vs.drop_last()[i]]
            0 <= i < vs.drop_last().len() implies vs.drop_last()[i].to_multiset()
            == ps.drop_last()[i].to_multiset() by {
            assert(vs.drop_last()[i] == vs[i]);
            assert(ps.drop_last()[i] == ps[i]);
        }
        lemma_flat_multisets_pointwise(vs.drop_last(), ps.drop_last());
        vstd::seq_lib::lemma_multiset_commutative(flat(vs.drop_last()), vs.last());
        vstd::seq_lib::lemma_multiset_commutative(flat(ps.drop_last()), ps.last());
        assert(vs.last() == vs[vs.len() - 1]);
        assert(ps.last() == ps[ps.len() - 1]);
        assert(flat(vs).to_multiset() =~= flat(ps).to_multiset());
    }
}

proof fn lemma_sort_job_err<LC, S, SE, SetM, SME, SortM, SRE, F>(
    job: &SortJob<LC, S, SetM, SortM, F>,
    amount: &impl WorkAmount,
    wi: int,
    je: JobExecuteError<SortError<SE, SME, SRE>, set_merge::Error<SE, SME>>,
)
    where
        LC: RetrieveSortManager<SortM = SortM> + RetrieveSetManager<SetM = SetM>,
        S: ItemSet<T = usize, E = SE>,
        SetM: SetManager<S = S, E = SME>,
        SortM: SortManager<S = S, E = SRE>,
        F: Fn(usize, usize) -> bool,
    requires
        crate::exec::job_err_possible(job, dispatched(amount, wi), je),
    ensures
        S::add_can_fail() || <S::I as SetIter>::next_can_fail() || SetM::make_can_fail()
            || SortM::sort_can_fail(),
{
    match je {
        JobExecuteError::Mapping(e) => {
            let i = choose|i: int|
                0 <= i < dispatched(amount, wi).len() && job.map_fail(
                    #[trigger] dispatched(amount, wi)[i],
                    e,
                );
        },
        JobExecuteError::Reducing(e) => {
            let (a, b) = choose|a: S, b: S| #[trigger] job.red_fail(a, b, e);
        },
    }
}

} // verus!
