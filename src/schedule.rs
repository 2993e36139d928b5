use vstd::prelude::*;

verus! {

/// Whether a cool-down pause follows the 1-based iteration `iteration` of a
/// run of `iterations` measured iterations.
pub open spec fn pause_due(iteration: int, iterations: int, pause_every: int) -> bool {
    iteration % pause_every == 0 && iteration != iterations
}

/// Decides whether to sleep after the 1-based iteration `iteration`: every
/// `pause_every`-th iteration pauses, except the last one of the size.
pub fn should_pause(iteration: usize, iterations: usize, pause_every: usize) -> (r: bool)
    requires
        pause_every > 0,
    ensures
        r == pause_due(iteration as int, iterations as int, pause_every as int),
{
    iteration % pause_every == 0 && iteration != iterations
}

/// The number of pauses after the iterations `1..=k` of a run of `iterations`.
pub open spec fn pauses_through(k: int, iterations: int, pause_every: int) -> int
    decreases k,
{
    if k <= 0 {
        0
    } else {
        pauses_through(k - 1, iterations, pause_every) + if pause_due(
            k,
            iterations,
            pause_every,
        ) {
            1int
        } else {
            0int
        }
    }
}

proof fn lemma_multiples_through(k: int, iterations: int, p: int)
    requires
        0 <= k < iterations,
        p > 0,
    ensures
        pauses_through(k, iterations, p) == k / p,
    decreases k,
{
    if k > 0 {
        lemma_multiples_through(k - 1, iterations, p);
        vstd::arithmetic::div_mod::lemma_fundamental_div_mod(k, p);
        vstd::arithmetic::div_mod::lemma_fundamental_div_mod(k - 1, p);
        let q = (k - 1) / p;
        let r = (k - 1) % p;
        vstd::arithmetic::div_mod::lemma_mod_pos_bound(k - 1, p);
        assert(p * q + p == p * (q + 1)) by (nonlinear_arith);
        if r + 1 == p {
            vstd::arithmetic::div_mod::lemma_fundamental_div_mod_converse(k, p, q + 1, 0);
        } else {
            vstd::arithmetic::div_mod::lemma_fundamental_div_mod_converse(k, p, q, r + 1);
        }
    }
}

/// A run of `iterations` measured iterations pauses `(iterations - 1) / pause_every`
/// times: after every multiple of `pause_every`, but never after the last
/// iteration.
pub proof fn lemma_pause_count(iterations: int, pause_every: int)
    requires
        iterations > 0,
        pause_every > 0,
    ensures
        pauses_through(iterations, iterations, pause_every) == (iterations - 1) / pause_every,
        !pause_due(iterations, iterations, pause_every),
{
    lemma_multiples_through(iterations - 1, iterations, pause_every);
}

/// The numeric options of a benchmark run.
#[derive(Debug)]
pub struct BenchConfig {
    /// The matrix sizes, in the order they are measured.
    pub sizes: Vec<usize>,
    /// Measured iterations per size.
    pub iterations: usize,
    /// A cool-down pause follows every `pause_every`-th iteration.
    pub pause_every: usize,
    /// Untimed runs on the largest size before measuring.
    pub warm_up_runs: usize,
}

impl BenchConfig {
    /// At least one size, at least one iteration, a positive pause period,
    /// and counters that cannot overflow.
    pub open spec fn wf(&self) -> bool {
        &&& self.sizes@.len() > 0
        &&& 0 < self.iterations < usize::MAX
        &&& self.pause_every > 0
        &&& self.warm_up_runs < usize::MAX
    }
}

/// The largest size of a non-empty list.
pub open spec fn is_max_of(sizes: Seq<usize>, m: usize) -> bool {
    &&& sizes.contains(m)
    &&& forall|i: int| 0 <= i < sizes.len() ==> #[trigger] sizes[i] <= m
}

/// The largest configured size, on which the warm-up runs; `None` when no
/// size is configured.
pub fn warm_up_size(sizes: &Vec<usize>) -> (r: Option<usize>)
    ensures
        r is None <==> sizes@.len() == 0,
        r matches Some(m) ==> is_max_of(sizes@, m),
{
    if sizes.len() == 0 {
        return None;
    }
    let mut best: usize = sizes[0];
    let mut i: usize = 1;
    assert(sizes@.subrange(0, 1)[0] == best);
    while i < sizes.len()
        invariant
            1 <= i <= sizes@.len(),
            sizes@.subrange(0, i as int).contains(best),
            forall|t: int| 0 <= t < i ==> #[trigger] sizes@[t] <= best,
        decreases sizes@.len() - i,
    {
        if sizes[i] > best {
            best = sizes[i];
            assert(sizes@.subrange(0, i + 1)[i as int] == best);
        } else {
            let ghost w = choose|w: int| 0 <= w < i && sizes@.subrange(0, i as int)[w] == best;
            assert(sizes@.subrange(0, i + 1)[w] == best);
        }
        i += 1;
    }
    assert(sizes@.subrange(0, i as int) =~= sizes@);
    Some(best)
}

/// Where a run stands.
#[derive(Debug, Clone, Copy, PartialEq, Eq, Structural)]
pub enum Progress {
    /// Nothing done yet.
    Start,
    /// The warm-up matrices are loaded; `next` is the 1-based warm-up run to do.
    WarmingUp { next: usize },
    /// The matrices of size number `index` are to be loaded.
    Loading { index: usize },
    /// Size number `index` is loaded; `next` is the 1-based iteration to do.
    Measuring { index: usize, next: usize },
    /// Every size is summarised; the results are to be written.
    Writing,
    /// The results are written.
    Done,
}

/// What the driver does next.
#[derive(Debug, Clone, Copy, PartialEq, Eq, Structural)]
pub enum Action {
    /// Load the two matrices of `size` for the warm-up.
    LoadWarmUp { size: usize },
    /// Run the kernel once on the warm-up matrices, untimed, then sleep the
    /// warm-up pause.
    WarmUpRun { run: usize },
    /// Load the two matrices of size number `index`, which is `size`.
    LoadSize { index: usize, size: usize },
    /// Run and sample measured iteration `iteration` of size number `index`,
    /// then sleep the cool-down pause when `pause_after` holds.
    Iterate { index: usize, iteration: usize, pause_after: bool },
    /// Aggregate the samples of size number `index` into its result row.
    Summarize { index: usize },
    /// Write every result row, in size order.
    WriteResults,
    /// Nothing is left to do.
    Stop,
}

/// The transition table of a run: the action to take in `p` and the state
/// that follows it.
pub open spec fn transition(cfg: BenchConfig, warm: usize, p: Progress) -> (Action, Progress) {
    match p {
        Progress::Start => (Action::LoadWarmUp { size: warm }, Progress::WarmingUp { next: 1 }),
        Progress::WarmingUp { next } => if next <= cfg.warm_up_runs {
            (Action::WarmUpRun { run: next }, Progress::WarmingUp { next: (next + 1) as usize })
        } else {
            (Action::LoadSize { index: 0, size: cfg.sizes@[0] }, Progress::Measuring { index: 0, next: 1 })
        },
        Progress::Loading { index } => (
            Action::LoadSize { index, size: cfg.sizes@[index as int] },
            Progress::Measuring { index, next: 1 },
        ),
        Progress::Measuring { index, next } => if next <= cfg.iterations {
            (
                Action::Iterate {
                    index,
                    iteration: next,
                    pause_after: pause_due(next as int, cfg.iterations as int, cfg.pause_every as int),
                },
                Progress::Measuring { index, next: (next + 1) as usize },
            )
        } else if index + 1 < cfg.sizes@.len() {
            (Action::Summarize { index }, Progress::Loading { index: (index + 1) as usize })
        } else {
            (Action::Summarize { index }, Progress::Writing)
        },
        Progress::Writing => (Action::WriteResults, Progress::Done),
        Progress::Done => (Action::Stop, Progress::Done),
    }
}

/// `p` is a state that a run under `cfg` can reach.
pub open spec fn progress_valid(cfg: BenchConfig, p: Progress) -> bool {
    match p {
        Progress::WarmingUp { next } => 1 <= next <= cfg.warm_up_runs + 1,
        Progress::Loading { index } => index < cfg.sizes@.len(),
        Progress::Measuring { index, next } => index < cfg.sizes@.len() && 1 <= next
            <= cfg.iterations + 1,
        _ => true,
    }
}

/// Decides the next action of a run and the state after it. `warm` is the
/// warm-up size, the largest configured size.
pub fn step(cfg: &BenchConfig, warm: usize, p: Progress) -> (r: (Action, Progress))
    requires
        cfg.wf(),
        progress_valid(*cfg, p),
    ensures
        r == transition(*cfg, warm, p),
        progress_valid(*cfg, r.1),
{
    match p {
        Progress::Start => (Action::LoadWarmUp { size: warm }, Progress::WarmingUp { next: 1 }),
        Progress::WarmingUp { next } => {
            if next <= cfg.warm_up_runs {
                (Action::WarmUpRun { run: next }, Progress::WarmingUp { next: next + 1 })
            } else {
                (
                    Action::LoadSize { index: 0, size: cfg.sizes[0] },
                    Progress::Measuring { index: 0, next: 1 },
                )
            }
        },
        Progress::Loading { index } => (
            Action::LoadSize { index, size: cfg.sizes[index] },
            Progress::Measuring { index, next: 1 },
        ),
        Progress::Measuring { index, next } => {
            if next <= cfg.iterations {
                let pause_after = should_pause(next, cfg.iterations, cfg.pause_every);
                (
                    Action::Iterate { index, iteration: next, pause_after },
                    Progress::Measuring { index, next: next + 1 },
                )
            } else if index < cfg.sizes.len() - 1 {
                (Action::Summarize { index }, Progress::Loading { index: index + 1 })
            } else {
                (Action::Summarize { index }, Progress::Writing)
            }
        },
        Progress::Writing => (Action::WriteResults, Progress::Done),
        Progress::Done => (Action::Stop, Progress::Done),
    }
}

} // verus!
