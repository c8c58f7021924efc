use vstd::prelude::*;
use vstd::string::StringSliceAdditionalSpecFns;
use crate::batch::distillation::canon::Language;
use crate::batch::distillation::plan::{strategy_safe, strategy_score, StrategyKind};

verus! {

broadcast use vstd::seq_lib::group_to_multiset_ensures;

/// What reaching a compression target gave: each file's source after the
/// edits, the token target, and whether it was met.
pub struct TargetResult {
    pub sources: Vec<(String, String)>,
    pub target_tokens: usize,
    pub achieved: bool,
}

/// What the planner knows of a file: its language, whether it is kept out of
/// compression (raw or focused), and its importance score.
pub struct PlannerFile {
    pub language: Language,
    pub excluded: bool,
    pub importance: u64,
}

/// The order key of a step (file, strategy): the strategy's destructiveness on
/// the file's language, then the file's importance, then the position.
pub open spec fn step_key(files: Seq<PlannerFile>, strategies: Seq<StrategyKind>, st: (usize, usize)) -> (int, int, int, int) {
    (
        strategy_score(strategies[st.1 as int], files[st.0 as int].language) as int,
        files[st.0 as int].importance as int,
        st.0 as int,
        st.1 as int,
    )
}

/// Lexicographic order of keys.
pub open spec fn key_lt(a: (int, int, int, int), b: (int, int, int, int)) -> bool {
    a.0 < b.0 || (a.0 == b.0 && (a.1 < b.1 || (a.1 == b.1 && (a.2 < b.2 || (a.2 == b.2 && a.3 < b.3)))))
}

/// The steps for file `f` with the first `ns` strategies: each strategy safe
/// for the file's language, unless the file is kept out of compression.
pub open spec fn file_steps(files: Seq<PlannerFile>, strategies: Seq<StrategyKind>, f: int, ns: int) -> Seq<(usize, usize)>
    decreases ns,
{
    if ns <= 0 {
        seq![]
    } else {
        let prev = file_steps(files, strategies, f, ns - 1);
        if !files[f].excluded && strategy_safe(strategies[ns - 1], files[f].language) {
            prev.push((f as usize, (ns - 1) as usize))
        } else {
            prev
        }
    }
}

/// All steps for the first `nf` files, file by file.
pub open spec fn all_steps(files: Seq<PlannerFile>, strategies: Seq<StrategyKind>, nf: int) -> Seq<(usize, usize)>
    decreases nf,
{
    if nf <= 0 {
        seq![]
    } else {
        all_steps(files, strategies, nf - 1) + file_steps(files, strategies, nf - 1, strategies.len() as int)
    }
}

/// Steps in increasing key order.
pub open spec fn steps_sorted(files: Seq<PlannerFile>, strategies: Seq<StrategyKind>, steps: Seq<(usize, usize)>) -> bool {
    forall|i: int, j: int|
        0 <= i < j < steps.len() ==> key_lt(
            step_key(files, strategies, #[trigger] steps[i]),
            step_key(files, strategies, #[trigger] steps[j]),
        )
}

/// Every step of the first `nf` files names one of them, not kept out of
/// compression, and a strategy that is safe for its language.
proof fn lemma_steps_valid(files: Seq<PlannerFile>, strategies: Seq<StrategyKind>, nf: int)
    requires
        0 <= nf <= files.len(),
        files.len() <= usize::MAX,
        strategies.len() <= usize::MAX,
    ensures
        forall|k: int|
            0 <= k < all_steps(files, strategies, nf).len() ==> step_valid(
                files,
                strategies,
                #[trigger] all_steps(files, strategies, nf)[k],
            ),
    decreases nf,
{
    if nf > 0 {
        lemma_steps_valid(files, strategies, nf - 1);
        lemma_file_steps_valid(files, strategies, nf - 1, strategies.len() as int);
        let a = all_steps(files, strategies, nf - 1);
        let b = file_steps(files, strategies, nf - 1, strategies.len() as int);
        assert forall|k: int| 0 <= k < all_steps(files, strategies, nf).len() implies step_valid(
            files,
            strategies,
            #[trigger] all_steps(files, strategies, nf)[k],
        ) by {
            if k < a.len() {
                assert(all_steps(files, strategies, nf)[k] == a[k]);
            } else {
                assert(all_steps(files, strategies, nf)[k] == b[k - a.len()]);
            }
        }
    }
}

proof fn lemma_file_steps_valid(files: Seq<PlannerFile>, strategies: Seq<StrategyKind>, f: int, ns: int)
    requires
        0 <= f < files.len(),
        ns <= strategies.len(),
        files.len() <= usize::MAX,
        strategies.len() <= usize::MAX,
    ensures
        forall|k: int|
            0 <= k < file_steps(files, strategies, f, ns).len() ==> step_valid(
                files,
                strategies,
                #[trigger] file_steps(files, strategies, f, ns)[k],
            ),
    decreases ns,
{
    if ns > 0 {
        lemma_file_steps_valid(files, strategies, f, ns - 1);
        let prev = file_steps(files, strategies, f, ns - 1);
        assert forall|k: int| 0 <= k < file_steps(files, strategies, f, ns).len() implies step_valid(
            files,
            strategies,
            #[trigger] file_steps(files, strategies, f, ns)[k],
        ) by {
            if k < prev.len() {
                assert(file_steps(files, strategies, f, ns)[k] == prev[k]);
            } else {
                assert(file_steps(files, strategies, f, ns)[k] == (f as usize, (ns - 1) as usize));
            }
        }
    }
}

/// A step names one of the files, not kept out of compression, and one of the
/// strategies, safe for the file's language.
pub open spec fn step_valid(files: Seq<PlannerFile>, strategies: Seq<StrategyKind>, st: (usize, usize)) -> bool {
    &&& st.0 < files.len()
    &&& st.1 < strategies.len()
    &&& !files[st.0 as int].excluded
    &&& strategy_safe(strategies[st.1 as int], files[st.0 as int].language)
}

/// The key of a step.
fn key_of(files: &[PlannerFile], strategies: &[StrategyKind], st: (usize, usize)) -> (res: (u32, u64, usize, usize))
    requires
        st.0 < files@.len(),
        st.1 < strategies@.len(),
    ensures
        (res.0 as int, res.1 as int, res.2 as int, res.3 as int) == step_key(files@, strategies@, st),
{
    (strategies[st.1].score(&files[st.0].language), files[st.0].importance, st.0, st.1)
}

fn key_less(a: (u32, u64, usize, usize), b: (u32, u64, usize, usize)) -> (res: bool)
    ensures
        res == key_lt((a.0 as int, a.1 as int, a.2 as int, a.3 as int), (b.0 as int, b.1 as int, b.2 as int, b.3 as int)),
{
    a.0 < b.0 || (a.0 == b.0 && (a.1 < b.1 || (a.1 == b.1 && (a.2 < b.2 || (a.2 == b.2 && a.3 < b.3)))))
}

/// The steps of a compression target: every (file, strategy) pair where the
/// file is not kept out and the strategy is safe for its language, ordered by
/// the strategy's destructiveness, then the file's importance, then position
/// (the order a stable sort of the file-by-file list gives).
pub fn plan_steps(files: &[PlannerFile], strategies: &[StrategyKind]) -> (res: Vec<(usize, usize)>)
    ensures
        res@.to_multiset() == all_steps(files@, strategies@, files@.len() as int).to_multiset(),
        steps_sorted(files@, strategies@, res@),
        forall|i: int| 0 <= i < res@.len() ==> step_valid(files@, strategies@, #[trigger] res@[i]),
{
    let mut res: Vec<(usize, usize)> = Vec::new();
    for f in 0..files.len()
        invariant
            res@.to_multiset() == all_steps(files@, strategies@, f as int).to_multiset(),
            steps_sorted(files@, strategies@, res@),
            forall|i: int| 0 <= i < res@.len() ==> #[trigger] res@[i].0 < f && res@[i].1 < strategies@.len(),
    {
        let ghost before_file = res@.to_multiset();
        for s in 0..strategies.len()
            invariant
                f < files@.len(),
                res@.to_multiset() == before_file.add(file_steps(files@, strategies@, f as int, s as int).to_multiset()),
                steps_sorted(files@, strategies@, res@),
                forall|i: int| 0 <= i < res@.len() ==> #[trigger] res@[i].0 < f || (res@[i].0 == f && res@[i].1 < s),
                forall|i: int| 0 <= i < res@.len() ==> #[trigger] res@[i].0 <= f && res@[i].1 < strategies@.len(),
        {
            let ghost prev_steps = file_steps(files@, strategies@, f as int, s as int);
            if !files[f].excluded && strategies[s].safe_for(&files[f].language) {
                let x = (f, s);
                let kx = key_of(files, strategies, x);
                let mut p: usize = 0;
                while p < res.len() && !key_less(kx, key_of(files, strategies, res[p]))
                    invariant
                        p <= res@.len(),
                        f < files@.len(),
                        s < strategies@.len(),
                        (kx.0 as int, kx.1 as int, kx.2 as int, kx.3 as int) == step_key(files@, strategies@, x),
                        forall|i: int| 0 <= i < res@.len() ==> #[trigger] res@[i].0 <= f && res@[i].1 < strategies@.len(),
                        forall|i: int| 0 <= i < p ==> !key_lt(step_key(files@, strategies@, x), step_key(files@, strategies@, #[trigger] res@[i])),
                    decreases res@.len() - p,
                {
                    p = p + 1;
                }
                let ghost old_res = res@;
                proof {
                    assert forall|i: int| 0 <= i < old_res.len() implies key_lt(
                        step_key(files@, strategies@, #[trigger] old_res[i]),
                        step_key(files@, strategies@, x),
                    ) || key_lt(step_key(files@, strategies@, x), step_key(files@, strategies@, old_res[i])) by {
                        assert(old_res[i].0 < f || (old_res[i].0 == f && old_res[i].1 < s));
                    }
                }
                res.insert(p, x);
                assert forall|i: int| 0 <= i < res@.len() implies (#[trigger] res@[i].0 < f || (res@[i].0 == f && res@[i].1 < s + 1))
                    && res@[i].0 <= f && res@[i].1 < strategies@.len() by {
                    if i < p {
                        assert(res@[i] == old_res[i]);
                    } else if i > p {
                        assert(res@[i] == old_res[i - 1]);
                    }
                }
                assert(old_res.insert(p as int, x).to_multiset() == old_res.to_multiset().insert(x));
                assert(file_steps(files@, strategies@, f as int, s + 1) == prev_steps.push(x));
                assert(prev_steps.push(x).to_multiset() =~= prev_steps.to_multiset().insert(x));
                assert forall|i: int, j: int| 0 <= i < j < res@.len() implies key_lt(
                    step_key(files@, strategies@, #[trigger] res@[i]),
                    step_key(files@, strategies@, #[trigger] res@[j]),
                ) by {
                    if j < p {
                        assert(res@[i] == old_res[i] && res@[j] == old_res[j]);
                    } else if j == p {
                        assert(res@[i] == old_res[i]);
                    } else if i == p {
                        assert(res@[j] == old_res[j - 1]);
                        assert(key_lt(step_key(files@, strategies@, x), step_key(files@, strategies@, old_res[p as int])));
                    } else if i < p {
                        assert(res@[i] == old_res[i] && res@[j] == old_res[j - 1]);
                    } else {
                        assert(res@[i] == old_res[i - 1] && res@[j] == old_res[j - 1]);
                    }
                }
            } else {
                assert(file_steps(files@, strategies@, f as int, s + 1) == prev_steps);
            }
        }
        assert(all_steps(files@, strategies@, f + 1) == all_steps(files@, strategies@, f as int) + file_steps(
            files@,
            strategies@,
            f as int,
            strategies@.len() as int,
        ));
        proof {
            vstd::seq_lib::lemma_multiset_commutative(
                all_steps(files@, strategies@, f as int),
                file_steps(files@, strategies@, f as int, strategies@.len() as int),
            );
        }
    }
    let nfiles = files.len();
    let nstrategies = strategies.len();
    proof {
        let all = all_steps(files@, strategies@, files@.len() as int);
        lemma_steps_valid(files@, strategies@, files@.len() as int);
        assert forall|i: int| 0 <= i < res@.len() implies step_valid(files@, strategies@, #[trigger] res@[i]) by {
            assert(res@.to_multiset().count(res@[i]) > 0);
            assert(all.to_multiset().count(res@[i]) > 0);
            assert(all.contains(res@[i]));
            let k = choose|k: int| 0 <= k < all.len() && all[k] == res@[i];
            assert(step_valid(files@, strategies@, all[k]));
        }
    }
    res
}

/// The token count of a text when no tokenizer is available: a quarter of its
/// length in bytes.
pub fn estimate_tokens(source: &str) -> (res: usize)
    ensures
        res as int == source.spec_bytes().len() as int / 4,
{
    source.as_bytes().len() / 4
}

/// The token target of a byte budget: a quarter of the bytes.
pub fn tokens_for_bytes(bytes: usize) -> (res: usize)
    ensures
        res as int == bytes as int / 4,
{
    bytes / 4
}

/// The value of a target run: the steps, how many were handed out, the
/// current token total, the target, and which files have been touched.
pub struct TargetRunView {
    pub steps: Seq<(usize, usize)>,
    pub next: nat,
    pub total: nat,
    pub target: nat,
    pub touched: Seq<bool>,
}

/// A compression target in progress: the steps are handed out in order until
/// the token total reaches the target or the steps run out.
pub struct TargetRun {
    steps: Vec<(usize, usize)>,
    next: usize,
    total: usize,
    target: usize,
    touched: Vec<bool>,
}

impl View for TargetRun {
    type V = TargetRunView;

    closed spec fn view(&self) -> TargetRunView {
        TargetRunView {
            steps: self.steps@,
            next: self.next as nat,
            total: self.total as nat,
            target: self.target as nat,
            touched: self.touched@,
        }
    }
}

/// The token total after a step changed a file from `old` to `new` tokens:
/// it drops by what the file lost, and never below zero.
pub open spec fn after_change(total: nat, old: nat, new: nat) -> nat {
    let lost = if old > new {
        (old - new) as nat
    } else {
        0nat
    };
    if total > lost {
        (total - lost) as nat
    } else {
        0nat
    }
}

impl TargetRun {
    /// The run is well formed: no more steps handed out than there are, and
    /// every step names one of the files.
    pub closed spec fn wf(&self) -> bool {
        &&& self.next <= self.steps@.len()
        &&& forall|i: int| 0 <= i < self.steps@.len() ==> #[trigger] self.steps@[i].0 < self.touched@.len()
    }

    /// A run over `steps` for `file_count` files, starting from `total` tokens.
    pub fn start(steps: Vec<(usize, usize)>, total: usize, target: usize, file_count: usize) -> (res: Option<Self>)
        ensures
            (forall|i: int| 0 <= i < steps@.len() ==> #[trigger] steps@[i].0 < file_count) <==> res is Some,
            res matches Some(r) ==> r.wf() && r@.steps == steps@ && r@.next == 0 && r@.total == total
                && r@.target == target && r@.touched == Seq::new(file_count as nat, |i: int| false),
    {
        let mut i: usize = 0;
        while i < steps.len()
            invariant
                i <= steps@.len(),
                forall|j: int| 0 <= j < i ==> #[trigger] steps@[j].0 < file_count,
            decreases steps@.len() - i,
        {
            if steps[i].0 >= file_count {
                return None;
            }
            i = i + 1;
        }
        let mut touched: Vec<bool> = Vec::new();
        for k in 0..file_count
            invariant
                touched@ == Seq::new(k as nat, |i: int| false),
        {
            touched.push(false);
            assert(touched@ =~= Seq::new((k + 1) as nat, |i: int| false));
        }
        Some(TargetRun { steps, next: 0, total, target, touched })
    }

    /// Whether the token total is within the target.
    pub fn achieved(&self) -> (res: bool)
        ensures
            res == (self@.total <= self@.target),
    {
        self.total <= self.target
    }

    /// The current token total.
    pub fn total_tokens(&self) -> (res: usize)
        ensures
            res == self@.total,
    {
        self.total
    }

    /// The next step to try, with whether its file is touched for the first
    /// time; `None` once the target is reached or the steps have run out.
    pub fn next_step(&mut self) -> (res: Option<(usize, usize, bool)>)
        requires
            old(self).wf(),
        ensures
            final(self).wf(),
            final(self)@.steps == old(self)@.steps,
            final(self)@.total == old(self)@.total,
            final(self)@.target == old(self)@.target,
            (old(self)@.total <= old(self)@.target || old(self)@.next == old(self)@.steps.len()) ==> res is None
                && final(self)@ == old(self)@,
            !(old(self)@.total <= old(self)@.target || old(self)@.next == old(self)@.steps.len()) ==> {
                let st = old(self)@.steps[old(self)@.next as int];
                &&& res == Some((st.0, st.1, !old(self)@.touched[st.0 as int]))
                &&& final(self)@.next == old(self)@.next + 1
                &&& final(self)@.touched == old(self)@.touched.update(st.0 as int, true)
            },
    {
        if self.total <= self.target || self.next == self.steps.len() {
            return None;
        }
        let (f, s) = self.steps[self.next];
        assert(self.steps@[self.next as int].0 < self.touched@.len());
        let first = !self.touched[f];
        self.touched.set(f, true);
        self.next = self.next + 1;
        Some((f, s, first))
    }

    /// Records that the last step changed its file from `old_tokens` to
    /// `new_tokens` tokens.
    pub fn record_change(&mut self, old_tokens: usize, new_tokens: usize)
        requires
            old(self).wf(),
        ensures
            final(self).wf(),
            final(self)@ == (TargetRunView { total: after_change(old(self)@.total, old_tokens as nat, new_tokens as nat), ..old(self)@ }),
    {
        self.total = self.total.saturating_sub(old_tokens.saturating_sub(new_tokens));
    }
}

/// Recording a change never raises the token total.
pub proof fn law_total_never_grows(total: nat, old: nat, new: nat)
    ensures
        after_change(total, old, new) <= total,
{
}

/// Plans how to reach a compression target with a list of strategies.
pub struct TargetPlanner {
    pub strategies: Vec<StrategyKind>,
}

impl TargetPlanner {
    /// A planner that tries these strategies.
    pub fn new(strategies: Vec<StrategyKind>) -> (res: Self)
        ensures
            res.strategies == strategies,
    {
        TargetPlanner { strategies }
    }

    /// The steps to try, in order (see `plan_steps`).
    pub fn steps(&self, files: &[PlannerFile]) -> (res: Vec<(usize, usize)>)
        ensures
            res@.to_multiset() == all_steps(files@, self.strategies@, files@.len() as int).to_multiset(),
            steps_sorted(files@, self.strategies@, res@),
            forall|i: int| 0 <= i < res@.len() ==> step_valid(files@, self.strategies@, #[trigger] res@[i]),
    {
        plan_steps(files, self.strategies.as_slice())
    }
}

} // verus!
