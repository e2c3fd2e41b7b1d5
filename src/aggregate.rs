//! Splitting a run over workers and combining what the workers counted.
use crate::sampler::{all_in_square, hit_count, lemma_hit_count_concat, sample_hits, Generator};
use vstd::prelude::*;

verus! {

/// How a run is carried out: one partition on the calling thread, or one
/// partition per worker.
#[derive(Clone, Copy, Debug, PartialEq, Eq, Structural)]
pub enum Mode {
    Single,
    Multi,
}

/// The label that the report gives each mode.
pub open spec fn mode_label(mode: Mode) -> Seq<char> {
    match mode {
        Mode::Single => "single threaded"@,
        Mode::Multi => "multi threaded"@,
    }
}

impl Mode {
    /// The report's label for this mode.
    pub fn label(&self) -> (r: &'static str)
        ensures
            r@ == mode_label(*self),
    {
        match self {
            Mode::Single => "single threaded",
            Mode::Multi => "multi threaded",
        }
    }
}

/// What a finished run reports, apart from its timing: the mode, the number
/// of workers, the sample count that was asked for, and the hits counted.
/// The estimate of π is `4 * hits / sample`.
#[derive(Clone, Copy, Debug, PartialEq, Eq, Structural)]
pub struct RunSummary {
    pub mode: Mode,
    pub cores: usize,
    pub sample: u64,
    pub hits: u64,
}

/// The per-worker share of a multi-worker run.
#[derive(Clone, Copy, Debug, PartialEq, Eq, Structural)]
pub struct Partition {
    pub workers: usize,
    pub block: u64,
}

impl Partition {
    /// A partition has at least one worker.
    pub open spec fn wf(&self) -> bool {
        self.workers >= 1
    }

    /// How many points the workers draw together.
    pub open spec fn sampled(&self) -> nat {
        (self.workers * self.block) as nat
    }
}

/// The sum of a sequence of counts.
pub open spec fn sum_of(s: Seq<u64>) -> nat
    decreases s.len(),
{
    if s.len() == 0 {
        0
    } else {
        sum_of(s.drop_last()) + s.last() as nat
    }
}

/// The worker count used for a reported degree of parallelism: a report of
/// zero counts as one.
pub open spec fn workers_for(reported: usize) -> usize {
    if reported == 0 {
        1
    } else {
        reported
    }
}

/// Relies on num_cpus::get: the number of logical CPUs available to this
/// process, which its documentation states is always at least one.
pub assume_specification[ num_cpus::get ]() -> (r: usize)
    ensures
        r >= 1,
;

/// The worker count for a reported degree of parallelism.
pub fn worker_count(reported: usize) -> (r: usize)
    ensures
        r == workers_for(reported),
        r >= 1,
{
    if reported == 0 {
        1
    } else {
        reported
    }
}

/// The worker count of a multi-worker run on this host: its detected
/// parallelism, and never less than one.
pub fn detected_workers() -> (r: usize)
    ensures
        r >= 1,
{
    worker_count(num_cpus::get())
}

/// Splits `sample` points evenly over `workers`; the remainder of the
/// division is not drawn, while the estimate still divides by `sample`, so
/// that runs of both modes over one count stay comparable.
pub fn partition(sample: u64, workers: usize) -> (p: Partition)
    requires
        workers >= 1,
    ensures
        p.wf(),
        p.workers == workers,
        p.block == (sample as int) / (workers as int),
{
    let count: u64 = workers as u64;
    Partition { workers, block: sample / count }
}

/// Runs the sampler once over all `sample` points, drawn from `g`, on the
/// calling thread.
pub fn monte_carlo_pi(g: &mut Generator, sample: u64) -> (r: RunSummary)
    ensures
        r.mode == Mode::Single,
        r.cores == 1,
        r.sample == sample,
        final(g).history().len() == old(g).history().len() + sample,
        final(g).history().take(old(g).history().len() as int) == old(g).history(),
        all_in_square(final(g).history().skip(old(g).history().len() as int)),
        r.hits == hit_count(final(g).history().skip(old(g).history().len() as int)),
{
    let hits = sample_hits(g, sample);
    RunSummary { mode: Mode::Single, cores: 1, sample, hits }
}

/// The sum of the first `i` counts never exceeds the sum of all of them.
proof fn lemma_prefix_sum_bounded(s: Seq<u64>, i: int)
    requires
        0 <= i <= s.len(),
    ensures
        sum_of(s.take(i)) <= sum_of(s),
    decreases s.len(),
{
    if i < s.len() {
        assert(s.take(i) =~= s.drop_last().take(i));
        lemma_prefix_sum_bounded(s.drop_last(), i);
    } else {
        assert(s.take(i) =~= s);
    }
}

/// The total of the workers' hit counts, or `None` where it does not fit in
/// a `u64`.
pub fn total_hits(partials: &Vec<u64>) -> (r: Option<u64>)
    ensures
        r is Some <==> sum_of(partials@) <= u64::MAX,
        r is Some ==> r->0 == sum_of(partials@),
{
    let mut acc: u64 = 0;
    let mut i: usize = 0;
    while i < partials.len()
        invariant
            i <= partials.len(),
            acc == sum_of(partials@.take(i as int)),
        decreases partials.len() - i,
    {
        let p = partials[i];
        assert(partials@.take(i as int + 1).drop_last() =~= partials@.take(i as int));
        if acc > u64::MAX - p {
            proof {
                lemma_prefix_sum_bounded(partials@, i as int + 1);
            }
            return None;
        }
        acc = acc + p;
        i = i + 1;
    }
    assert(partials@.take(i as int) =~= partials@);
    Some(acc)
}

/// Combines the hit counts of the workers of a multi-worker run over
/// `sample` points, one count per worker; `None` where their total does not
/// fit in a `u64`.
pub fn combine_partials(sample: u64, workers: usize, partials: &Vec<u64>) -> (r: Option<
    RunSummary,
>)
    requires
        partials@.len() == workers,
    ensures
        r is Some <==> sum_of(partials@) <= u64::MAX,
        r is Some ==> r->0 == (RunSummary {
            mode: Mode::Multi,
            cores: workers,
            sample,
            hits: sum_of(partials@) as u64,
        }),
{
    match total_hits(partials) {
        Some(hits) => Some(RunSummary { mode: Mode::Multi, cores: workers, sample, hits }),
        None => None,
    }
}

/// Summing the counts of two groups of workers, and then the two sums, gives
/// the sum of all counts: the total does not depend on how the partitions
/// are grouped.
pub proof fn lemma_sum_concat(a: Seq<u64>, b: Seq<u64>)
    ensures
        sum_of(a + b) == sum_of(a) + sum_of(b),
    decreases b.len(),
{
    if b.len() == 0 {
        assert(a + b =~= a);
    } else {
        assert((a + b).drop_last() =~= a + b.drop_last());
        lemma_sum_concat(a, b.drop_last());
    }
}

/// The points of several workers, one worker's after another's.
pub open spec fn concat_all(draws: Seq<Seq<(int, int)>>) -> Seq<(int, int)>
    decreases draws.len(),
{
    if draws.len() == 0 {
        Seq::empty()
    } else {
        concat_all(draws.drop_last()) + draws.last()
    }
}

/// Where each worker's count is the hit count of the points it drew, the
/// sum of the counts is the hit count of all those points taken together:
/// combining the partitions gives what one sampler over the concatenated
/// points would count, whatever the number of partitions.
pub proof fn lemma_partials_match_single(partials: Seq<u64>, draws: Seq<Seq<(int, int)>>)
    requires
        partials.len() == draws.len(),
        forall|i: int| 0 <= i < partials.len() ==> partials[i] == hit_count(#[trigger] draws[i]),
    ensures
        sum_of(partials) == hit_count(concat_all(draws)),
    decreases partials.len(),
{
    if partials.len() > 0 {
        let n = partials.len() - 1;
        assert forall|i: int| 0 <= i < partials.drop_last().len() implies partials.drop_last()[i]
            == hit_count(#[trigger] draws.drop_last()[i]) by {
            assert(partials.drop_last()[i] == partials[i]);
            assert(draws.drop_last()[i] == draws[i]);
        }
        lemma_partials_match_single(partials.drop_last(), draws.drop_last());
        assert(partials[n] == hit_count(draws[n]));
        lemma_hit_count_concat(concat_all(draws.drop_last()), draws.last());
    }
}

/// A multi-worker run draws at most `sample` points, and fewer only by what
/// the even split leaves over: less than one point per worker.
pub proof fn lemma_partition_undercount(sample: u64, workers: usize)
    requires
        workers >= 1,
    ensures
        workers * ((sample as int) / (workers as int)) <= sample,
        sample < workers * ((sample as int) / (workers as int)) + workers,
{
    let w = workers as int;
    let s = sample as int;
    vstd::arithmetic::div_mod::lemma_fundamental_div_mod(s, w);
    assert(0 <= s % w < w);
}

/// Where each of `workers` counts is at most the per-worker share of
/// `sample`, the counts sum to at most `sample`, so combining them succeeds
/// and the run reports the sample count that was asked for.
pub proof fn lemma_partials_fit(sample: u64, workers: usize, partials: Seq<u64>)
    requires
        workers >= 1,
        partials.len() == workers,
        forall|i: int| 0 <= i < partials.len() ==> partials[i] <= (sample as int) / (workers as int),
    ensures
        sum_of(partials) <= sample,
{
    let block = (sample as int) / (workers as int);
    lemma_sum_bounded(partials, block);
    lemma_partition_undercount(sample, workers);
}

/// A sequence of counts, each at most `bound`, sums to at most
/// `len * bound`.
proof fn lemma_sum_bounded(s: Seq<u64>, bound: int)
    requires
        forall|i: int| 0 <= i < s.len() ==> s[i] <= bound,
    ensures
        sum_of(s) <= s.len() * bound,
    decreases s.len(),
{
    if s.len() > 0 {
        lemma_sum_bounded(s.drop_last(), bound);
        assert(s.len() * bound == (s.len() - 1) * bound + bound) by (nonlinear_arith);
    }
}

} // verus!
