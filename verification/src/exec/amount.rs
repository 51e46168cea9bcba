use vstd::prelude::*;
use vstd::multiset::Multiset;
use vstd::arithmetic::div_mod::{
    lemma_fundamental_div_mod, lemma_fundamental_div_mod_converse, lemma_mod_division_less_than_divisor,
};
use vstd::seq_lib::lemma_multiset_commutative;
use super::{flat, range_seq, strictly_ascending, WorkAmount};
use crate::seq_lemmas::lemma_push_to_multiset;

verus! {

/// Share size under the contiguous strategy: `total / workers` rounded up
/// for the first `total % workers` workers, rounded down for the rest.
pub open spec fn chunk_len(total: int, k: int, workers: int) -> int {
    let q = total / workers;
    let r = total % workers;
    if k < r {
        q + 1
    } else {
        q
    }
}

/// Start of a worker's chunk: the chunks are laid end to end from zero.
pub open spec fn chunk_start(total: int, k: int, workers: int) -> int
    decreases k,
{
    if k <= 0 {
        0
    } else {
        chunk_start(total, k - 1, workers) + chunk_len(total, k - 1, workers)
    }
}

/// The contiguous chunk dealt to one worker.
pub open spec fn chunk_part(total: int, k: int, workers: int) -> Seq<usize> {
    Seq::new(
        chunk_len(total, k, workers) as nat,
        |j: int| (chunk_start(total, k, workers) + j) as usize,
    )
}

/// The strided share dealt to one worker: `k, k + w, k + 2w, ...` below
/// the total.
pub open spec fn alt_len(total: int, k: int, workers: int) -> int {
    if k < total {
        (total - 1 - k) / workers + 1
    } else {
        0
    }
}

pub open spec fn alt_part(total: int, k: int, workers: int) -> Seq<usize> {
    Seq::new(alt_len(total, k, workers) as nat, |j: int| (k + j * workers) as usize)
}

proof fn lemma_chunk_start_bounds(total: int, k: int, workers: int)
    requires
        workers >= 1,
        total >= 0,
        0 <= k <= workers,
    ensures
        chunk_start(total, k, workers) == k * (total / workers) + (if k < total % workers {
            k
        } else {
            total % workers
        }),
        0 <= chunk_start(total, k, workers) <= total,
        k == workers ==> chunk_start(total, k, workers) == total,
    decreases k,
{
    let q = total / workers;
    let r = total % workers;
    lemma_fundamental_div_mod(total, workers);
    lemma_mod_division_less_than_divisor(total, workers);
    assert(total == workers * q + r);
    if k == 0 {
    } else {
        lemma_chunk_start_bounds(total, k - 1, workers);
        assert(chunk_start(total, k, workers) == chunk_start(total, k - 1, workers) + chunk_len(
            total,
            k - 1,
            workers,
        ));
        assert(chunk_start(total, k, workers) == k * q + (if k < r {
            k
        } else {
            r
        })) by (nonlinear_arith)
            requires
                1 <= k,
                0 <= r,
                chunk_start(total, k, workers) == chunk_start(total, k - 1, workers) + chunk_len(
                    total,
                    k - 1,
                    workers,
                ),
                chunk_start(total, k - 1, workers) == (k - 1) * q + (if k - 1 < r {
                    k - 1
                } else {
                    r
                }),
                chunk_len(total, k - 1, workers) == (if k - 1 < r {
                    q + 1
                } else {
                    q
                }),
        ;
        if k == workers {
            assert(workers * q == q * workers) by (nonlinear_arith);
        }
        assert(0 <= k * q <= workers * q) by (nonlinear_arith)
            requires
                0 <= q,
                0 <= k <= workers,
        ;
    }
}

proof fn lemma_chunk_flat_prefix(total: int, k: int, workers: int)
    requires
        workers >= 1,
        0 <= total <= usize::MAX,
        0 <= k <= workers,
    ensures
        flat(Seq::new(k as nat, |i: int| chunk_part(total, i, workers))) =~= Seq::new(
            chunk_start(total, k, workers) as nat,
            |i: int| i as usize,
        ),
    decreases k,
{
    lemma_chunk_start_bounds(total, k, workers);
    if k == 0 {
    } else {
        lemma_chunk_flat_prefix(total, k - 1, workers);
        lemma_chunk_start_bounds(total, k - 1, workers);
        let parts = Seq::new(k as nat, |i: int| chunk_part(total, i, workers));
        assert(parts.drop_last() =~= Seq::new((k - 1) as nat, |i: int| chunk_part(total, i, workers)));
        assert(parts.last() == chunk_part(total, k - 1, workers));
        assert(flat(parts) == flat(parts.drop_last()) + parts.last());
    }
}

/// Contiguous equal chunks: the range `0..amount` is cut into one
/// contiguous piece per worker, of size `amount / workers` rounded up or
/// down, dealt in worker order.
pub struct ByEqualChunks {
    amount: usize,
}

impl WorkAmount for ByEqualChunks {
    closed spec fn total_spec(&self) -> nat {
        self.amount as nat
    }

    closed spec fn part(&self, worker: int, workers: int) -> Seq<usize> {
        chunk_part(self.amount as int, worker, workers)
    }

    fn new(amount: usize) -> (r: Self) {
        ByEqualChunks { amount }
    }

    fn total(&self) -> (r: usize) {
        self.amount
    }

    #[verifier::loop_isolation(false)]
    fn indices(&self, worker: usize, workers: usize) -> (r: Vec<usize>) {
        let total = self.amount;
        let q = total / workers;
        let rem = total % workers;
        proof {
            lemma_chunk_start_bounds(total as int, worker as int, workers as int);
            lemma_chunk_start_bounds(total as int, worker as int + 1, workers as int);
        }
        let mut start: usize = 0;
        let mut i: usize = 0;
        while i < worker
            invariant
                0 <= i <= worker,
                start == chunk_start(total as int, i as int, workers as int),
            decreases worker - i,
        {
            proof {
                lemma_chunk_start_bounds(total as int, i as int + 1, workers as int);
            }
            if i < rem {
                start = start + q + 1;
            } else {
                start = start + q;
            }
            i = i + 1;
        }
        let len: usize = if worker < rem {
            q + 1
        } else {
            q
        };
        let mut r: Vec<usize> = Vec::new();
        let mut j: usize = 0;
        while j < len
            invariant
                0 <= j <= len,
                r@.len() == j,
                forall|t: int| 0 <= t < j ==> r@[t] == (start + t) as usize,
            decreases len - j,
        {
            r.push(start + j);
            j = j + 1;
        }
        proof {
            assert(r@ =~= self.part(worker as int, workers as int));
        }
        r
    }

    proof fn lemma_partition(&self, workers: int)
    {
        let total = self.amount as int;
        lemma_chunk_flat_prefix(total, workers, workers);
        lemma_chunk_start_bounds(total, workers, workers);
        let parts = Seq::new(workers as nat, |k: int| self.part(k, workers));
        assert(parts =~= Seq::new(workers as nat, |i: int| chunk_part(total, i, workers)));
        assert(flat(parts) =~= range_seq(self.total_spec()));
        assert forall|k: int| 0 <= k < workers implies strictly_ascending(
            #[trigger] self.part(k, workers),
        ) by {
            lemma_chunk_start_bounds(total, k, workers);
            lemma_chunk_start_bounds(total, k + 1, workers);
        }
    }
}

proof fn lemma_div_step_down(d: int, w: int)
    requires
        d >= 1,
        w >= 1,
    ensures
        d % w == 0 ==> (d - 1) / w == d / w - 1,
        d % w != 0 ==> (d - 1) / w == d / w,
{
    lemma_fundamental_div_mod(d, w);
    lemma_mod_division_less_than_divisor(d, w);
    let q = d / w;
    let s = d % w;
    if s == 0 {
        assert(d == w * q);
        assert(q >= 1) by (nonlinear_arith)
            requires
                d >= 1,
                w >= 1,
                d == w * q,
        ;
        assert(d - 1 == w * (q - 1) + (w - 1)) by (nonlinear_arith)
            requires
                d == w * q,
        ;
        assert(w * (q - 1) == (q - 1) * w) by (nonlinear_arith);
        lemma_fundamental_div_mod_converse(d - 1, w, q - 1, w - 1);
    } else {
        assert(d - 1 == w * q + (s - 1));
        assert(w * q == q * w) by (nonlinear_arith);
        lemma_fundamental_div_mod_converse(d - 1, w, q, s - 1);
    }
}

/// How each strided share changes when the total shrinks by one: only the
/// worker that owns index `total - 1` loses it, as the last element of
/// its share.
proof fn lemma_alt_part_step(total: int, k: int, workers: int)
    requires
        workers >= 1,
        total >= 1,
        0 <= k < workers,
    ensures
        k == (total - 1) % workers ==> alt_part(total, k, workers) == alt_part(
            total - 1,
            k,
            workers,
        ).push((total - 1) as usize),
        k != (total - 1) % workers ==> alt_part(total, k, workers) == alt_part(
            total - 1,
            k,
            workers,
        ),
{
    lemma_fundamental_div_mod(total - 1, workers);
    lemma_mod_division_less_than_divisor(total - 1, workers);
    let k0 = (total - 1) % workers;
    let q0 = (total - 1) / workers;
    assert(total - 1 == workers * q0 + k0);
    if k == k0 {
        // this worker's share gains exactly the index total - 1
        assert(k < total);
        let d = total - 1 - k;
        assert(d == workers * q0);
        if d == 0 {
            assert(alt_len(total, k, workers) == 1);
            assert(alt_len(total - 1, k, workers) == 0);
            assert(alt_part(total, k, workers) =~= alt_part(total - 1, k, workers).push(
                (total - 1) as usize,
            )) by {
                assert(alt_part(total, k, workers)[0] == (k + 0 * workers) as usize);
            }
        } else {
            assert(d >= 1);
            assert(workers * q0 == q0 * workers) by (nonlinear_arith);
            lemma_fundamental_div_mod_converse(d, workers, q0, 0);
            assert(d % workers == 0);
            assert(d / workers == q0);
            lemma_div_step_down(d, workers);
            assert(alt_len(total, k, workers) == q0 + 1);
            assert(k < total - 1);
            assert(alt_len(total - 1, k, workers) == (d - 1) / workers + 1);
            assert(alt_len(total - 1, k, workers) == q0);
            assert(alt_part(total, k, workers) =~= alt_part(total - 1, k, workers).push(
                (total - 1) as usize,
            )) by {
                assert(alt_part(total, k, workers)[q0] == (k + q0 * workers) as usize);
                assert(k + q0 * workers == total - 1) by (nonlinear_arith)
                    requires
                        total - 1 == workers * q0 + k,
                ;
            }
        }
    } else {
        if k >= total {
            assert(k >= total - 1);
            assert(alt_len(total, k, workers) == 0);
            assert(alt_len(total - 1, k, workers) == 0);
            assert(alt_part(total, k, workers) =~= alt_part(total - 1, k, workers));
        } else if k == total - 1 {
            // then k % workers == k, and q0 == ... contradiction unless k == k0
            let d = total - 1 - k;
            assert(d == 0);
            assert(0 * workers == 0) by (nonlinear_arith);
            lemma_fundamental_div_mod_converse(total - 1, workers, 0, k);
            assert(k == k0);
            assert(false);
        } else {
            let d = total - 1 - k;
            assert(d >= 1);
            assert(d % workers != 0) by {
                if d % workers == 0 {
                    let qd = d / workers;
                    lemma_fundamental_div_mod(d, workers);
                    assert(d == workers * qd);
                    assert(total - 1 == workers * qd + k);
                    assert(workers * qd == qd * workers) by (nonlinear_arith);
                    lemma_fundamental_div_mod_converse(total - 1, workers, qd, k);
                    assert(k == k0);
                }
            }
            lemma_div_step_down(d, workers);
            assert(alt_len(total, k, workers) == alt_len(total - 1, k, workers));
            assert(alt_part(total, k, workers) =~= alt_part(total - 1, k, workers));
        }
    }
}

/// Changing one member of a nest by one pushed element inserts that
/// element into the flattening's multiset.
proof fn lemma_flat_multiset_push_one(
    ps: Seq<Seq<usize>>,
    qs: Seq<Seq<usize>>,
    k0: int,
    v: usize,
)
    requires
        ps.len() == qs.len(),
        0 <= k0 < ps.len(),
        forall|k: int| #![trigger ps[k]] 0 <= k < ps.len() && k != k0 ==> ps[k] == qs[k],
        qs[k0] == ps[k0].push(v),
    ensures
        flat(qs).to_multiset() == flat(ps).to_multiset().insert(v),
    decreases ps.len(),
{
    broadcast use vstd::multiset::group_multiset_axioms;

    lemma_multiset_commutative(flat(ps.drop_last()), ps.last());
    lemma_multiset_commutative(flat(qs.drop_last()), qs.last());
    if k0 == ps.len() - 1 {
        assert(ps.drop_last() =~= qs.drop_last());
        assert(qs.last() == ps.last().push(v));
        lemma_push_to_multiset(ps.last(), v);
        assert(flat(qs).to_multiset() =~= flat(ps).to_multiset().insert(v));
    } else {
        assert forall|k: int| #![trigger ps.drop_last()[k]]
            0 <= k < ps.drop_last().len() && k != k0 implies ps.drop_last()[k]
            == qs.drop_last()[k] by {
            assert(ps.drop_last()[k] == ps[k]);
            assert(qs.drop_last()[k] == qs[k]);
        }
        assert(qs.drop_last()[k0] == ps.drop_last()[k0].push(v));
        lemma_flat_multiset_push_one(ps.drop_last(), qs.drop_last(), k0, v);
        assert(ps.last() == qs.last());
        assert(flat(qs).to_multiset() =~= flat(ps).to_multiset().insert(v));
    }
}

proof fn lemma_alt_flat_multiset(total: int, workers: int)
    requires
        workers >= 1,
        0 <= total <= usize::MAX,
    ensures
        flat(Seq::new(workers as nat, |k: int| alt_part(total, k, workers))).to_multiset()
            == range_seq(total as nat).to_multiset(),
    decreases total,
{
    broadcast use vstd::seq_lib::group_to_multiset_ensures;

    let parts = Seq::new(workers as nat, |k: int| alt_part(total, k, workers));
    if total == 0 {
        assert forall|k: int| 0 <= k < workers implies (#[trigger] parts[k]).len() == 0 by {
            assert(alt_len(0, k, workers) == 0);
        }
        lemma_flat_all_empty(parts);
        assert(range_seq(0) =~= Seq::<usize>::empty());
        assert(flat(parts).to_multiset() =~= range_seq(0).to_multiset());
    } else {
        lemma_alt_flat_multiset(total - 1, workers);
        let prev = Seq::new(workers as nat, |k: int| alt_part(total - 1, k, workers));
        let k0 = (total - 1) % workers;
        lemma_mod_division_less_than_divisor(total - 1, workers);
        lemma_fundamental_div_mod(total - 1, workers);
        assert forall|k: int| #![trigger prev[k]] 0 <= k < workers && k != k0 implies prev[k]
            == parts[k] by {
            lemma_alt_part_step(total, k, workers);
        }
        assert(parts[k0] == prev[k0].push((total - 1) as usize)) by {
            lemma_alt_part_step(total, k0, workers);
        }
        lemma_flat_multiset_push_one(prev, parts, k0, (total - 1) as usize);
        assert(range_seq(total as nat).drop_last() =~= range_seq((total - 1) as nat));
        assert(range_seq(total as nat) == range_seq((total - 1) as nat).push(
            (total - 1) as usize,
        )) by {
            assert(range_seq(total as nat) =~= range_seq((total - 1) as nat).push(
                (total - 1) as usize,
            ));
        }
        lemma_push_to_multiset(range_seq((total - 1) as nat), (total - 1) as usize);
    }
}

proof fn lemma_flat_all_empty(ps: Seq<Seq<usize>>)
    requires
        forall|k: int| 0 <= k < ps.len() ==> (#[trigger] ps[k]).len() == 0,
    ensures
        flat(ps).len() == 0,
    decreases ps.len(),
{
    if ps.len() == 0 {
    } else {
        assert forall|k: int| 0 <= k < ps.drop_last().len() implies (#[trigger] ps.drop_last()[k]).len()
            == 0 by {
            assert(ps.drop_last()[k] == ps[k]);
        }
        lemma_flat_all_empty(ps.drop_last());
    }
}

/// Round-robin alternation: worker `k` of `w` receives the indices
/// `k, k + w, k + 2w, ...` below the total, in ascending order.
pub struct Alternately {
    amount: usize,
}

impl WorkAmount for Alternately {
    closed spec fn total_spec(&self) -> nat {
        self.amount as nat
    }

    closed spec fn part(&self, worker: int, workers: int) -> Seq<usize> {
        alt_part(self.amount as int, worker, workers)
    }

    fn new(amount: usize) -> (r: Self) {
        Alternately { amount }
    }

    fn total(&self) -> (r: usize) {
        self.amount
    }

    fn indices(&self, worker: usize, workers: usize) -> (r: Vec<usize>) {
        let total = self.amount;
        let mut r: Vec<usize> = Vec::new();
        if worker >= total {
            proof {
                assert(alt_len(total as int, worker as int, workers as int) == 0);
                assert(r@ =~= self.part(worker as int, workers as int));
            }
            return r;
        }
        let mut i: usize = worker;
        proof {
            assert(r@.len() * workers == 0) by (nonlinear_arith)
                requires
                    r@.len() == 0,
            ;
        }
        loop
            invariant_except_break
                i == worker + r@.len() * workers,
            invariant
                0 < workers,
                worker < total,
                i < total,
                forall|t: int| 0 <= t < r@.len() ==> r@[t] == (worker + t * workers) as usize,
            ensures
                r@.len() >= 1,
                i == worker + (r@.len() - 1) * workers,
                forall|t: int| 0 <= t < r@.len() ==> r@[t] == (worker + t * workers) as usize,
                total <= i + workers,
                i < total,
            decreases total - i,
        {
            let ghost j = r@.len() as int;
            r.push(i);
            proof {
                assert((j + 1) * workers == j * workers + workers) by (nonlinear_arith);
            }
            if total - i <= workers {
                break ;
            }
            i = i + workers;
        }
        proof {
            let tt = total as int;
            let ww = workers as int;
            let kk = worker as int;
            let n = r@.len() as int;
            assert(kk + (n - 1) * ww <= tt - 1 < kk + n * ww) by {
                assert(n * ww == (n - 1) * ww + ww) by (nonlinear_arith);
            }
            let d = tt - 1 - kk;
            assert(ww * (n - 1) <= d < ww * (n - 1) + ww) by (nonlinear_arith)
                requires
                    kk + (n - 1) * ww <= tt - 1 < kk + n * ww,
                    d == tt - 1 - kk,
            ;
            assert(ww * (n - 1) == (n - 1) * ww) by (nonlinear_arith);
            lemma_fundamental_div_mod_converse(d, ww, n - 1, d - ww * (n - 1));
            assert(alt_len(tt, kk, ww) == n);
            assert(r@ =~= self.part(kk, ww));
        }
        r
    }

    proof fn lemma_partition(&self, workers: int)
    {
        let total = self.amount as int;
        lemma_alt_flat_multiset(total, workers);
        let parts = Seq::new(workers as nat, |k: int| self.part(k, workers));
        assert(parts =~= Seq::new(workers as nat, |k: int| alt_part(total, k, workers)));
        assert forall|k: int| 0 <= k < workers implies strictly_ascending(
            #[trigger] self.part(k, workers),
        ) by {
            let p = self.part(k, workers);
            assert forall|i: int, j: int| #![trigger p[i], p[j]] 0 <= i < j < p.len() implies p[i]
                < p[j] by {
                assert(k < total);
                let d = total - 1 - k;
                let qd = d / workers;
                lemma_fundamental_div_mod(d, workers);
                lemma_mod_division_less_than_divisor(d, workers);
                assert(j <= qd);
                assert(i * workers < j * workers && j * workers <= qd * workers)
                    by (nonlinear_arith)
                    requires
                        0 <= i < j <= qd,
                        workers >= 1,
                ;
                assert(qd * workers == workers * qd) by (nonlinear_arith);
                assert(k + j * workers <= total - 1);
            }
        }
    }
}

} // verus!
