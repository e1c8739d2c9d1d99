//! Market regimes: what surrounds the numerical fit of a three-state hidden
//! Markov model on market returns. The states are always reported in
//! ascending order of their variance, whatever order the fit found them in.

use vstd::prelude::*;

use crate::double::Double;
use crate::error::{ComputeError, ComputeErrorView};
use crate::message::{Message, PieceView};
use crate::select;
use crate::text;

verus! {

/// Number of regimes.
pub const N_STATES: usize = 3;

/// Most rounds of parameter estimation.
pub const MAX_ITER: u32 = 500;

/// Most rounds of the clustering that the estimation starts from.
pub const MAX_CLUSTER_ROUNDS: u32 = 100;

/// Fewest observations that a fit accepts.
pub const MIN_OBSERVATIONS: usize = 90;

/// The bit pattern of `1e-6`, the change of the log likelihood below which
/// estimation stops.
pub const LOG_LIKELIHOOD_TOLERANCE_BITS: u64 = 0x3eb0_c6f7_a0b5_ed8d;

/// What is said of every reported regime.
pub const SMOOTHING_NOTE: &'static str = "full-history smoothed, not suitable for live trading signals";

/// The name of a regime: Bull, Bear and Crisis from the calmest on.
pub open spec fn label_of(regime: int) -> Seq<char> {
    if regime == 0 {
        "Bull"@
    } else if regime == 1 {
        "Bear"@
    } else {
        "Crisis"@
    }
}

/// The name of a regime.
pub fn label(regime: usize) -> (res: &'static str)
    ensures
        res@ == label_of(regime as int),
{
    if regime == 0 {
        "Bull"
    } else if regime == 1 {
        "Bear"
    } else {
        "Crisis"
    }
}

/// The names of all regimes, from the calmest on.
pub fn regime_labels() -> (res: Vec<String>)
    ensures
        text::views(res@) == seq![label_of(0), label_of(1), label_of(2)],
{
    let mut out: Vec<String> = Vec::new();
    out.push(text::copy(label(0)));
    out.push(text::copy(label(1)));
    out.push(text::copy(label(2)));
    assert(text::views(out@) =~= seq![label_of(0), label_of(1), label_of(2)]);
    out
}

/// The regime with the given name.
pub fn regime_of_label(name: &str) -> (res: Option<usize>)
    ensures
        match res {
            Some(r) => r < N_STATES && label_of(r as int) == name@ && forall|k: int|
                0 <= k < r ==> label_of(k) != name@,
            None => forall|k: int| 0 <= k < N_STATES ==> label_of(k) != name@,
        },
{
    if text::same(name, label(0)) {
        Some(0)
    } else if text::same(name, label(1)) {
        Some(1)
    } else if text::same(name, label(2)) {
        Some(2)
    } else {
        None
    }
}

/// A fitted hidden Markov model, its states in reporting order.
#[derive(Debug)]
pub struct HmmModel {
    pub initial: [Double; 3],
    pub transition: [[Double; 3]; 3],
    pub means: [Double; 3],
    pub variances: [Double; 3],
    pub log_likelihood: Double,
    pub n_iter: u32,
}

/// The regime that the market was found in.
#[derive(Debug)]
pub struct RegimeState {
    pub current_regime: u8,
    pub current_label: &'static str,
    /// The probability of each regime at the last observation.
    pub smoothed_probs: [Double; 3],
    /// The most likely regime at each observation.
    pub viterbi_sequence: Vec<u8>,
    pub obs_count_per_regime: [usize; 3],
    pub log_likelihood: Double,
    pub n_iter: u32,
    pub smoothing_note: &'static str,
}

/// A regime as it was stored, its name still to be recognised.
#[derive(Debug)]
pub struct StoredRegimeState {
    pub current_regime: u8,
    pub current_label: String,
    pub smoothed_probs: [Double; 3],
    pub viterbi_sequence: Vec<u8>,
    pub obs_count_per_regime: [usize; 3],
    pub log_likelihood: Double,
    pub n_iter: u32,
}

/// Whether a name is that of a regime.
pub open spec fn is_label(name: Seq<char>) -> bool {
    exists|k: int| 0 <= k < N_STATES && #[trigger] label_of(k) == name
}

/// Whether a state holds what was stored, under the fixed note.
pub open spec fn is_restored(stored: StoredRegimeState, state: RegimeState) -> bool {
    &&& state.current_regime == stored.current_regime
    &&& state.current_label@ == stored.current_label@
    &&& state.smoothed_probs == stored.smoothed_probs
    &&& state.viterbi_sequence == stored.viterbi_sequence
    &&& state.obs_count_per_regime == stored.obs_count_per_regime
    &&& state.log_likelihood == stored.log_likelihood
    &&& state.n_iter == stored.n_iter
    &&& state.smoothing_note@ == SMOOTHING_NOTE@
}

impl StoredRegimeState {
    /// The regime that was stored; fails where its name is none of a regime.
    pub fn restore(self) -> (res: Result<RegimeState, String>)
        ensures
            match res {
                Ok(state) => is_label(self.current_label@) && is_restored(self, state),
                Err(reason) => !is_label(self.current_label@) && reason@
                    == "unknown regime label "@ + text::quoted(self.current_label@),
            },
    {
        match regime_of_label(self.current_label.as_str()) {
            Some(place) => {
                assert(label_of(place as int) == self.current_label@);
                Ok(
                    RegimeState {
                        current_regime: self.current_regime,
                        current_label: label(place),
                        smoothed_probs: self.smoothed_probs,
                        viterbi_sequence: self.viterbi_sequence,
                        obs_count_per_regime: self.obs_count_per_regime,
                        log_likelihood: self.log_likelihood,
                        n_iter: self.n_iter,
                        smoothing_note: SMOOTHING_NOTE,
                    },
                )
            },
            None => {
                let shown = text::quote(self.current_label.as_str());
                Err(text::join2("unknown regime label ", shown.as_str()))
            },
        }
    }
}

/// A reported regime, stored field by field, is restored as it was.
pub proof fn lemma_reported_state_is_restored(
    fit: RawFit,
    model: HmmModel,
    state: RegimeState,
    stored: StoredRegimeState,
    restored: RegimeState,
)
    requires
        reports(fit, model, state),
        stored.current_regime == state.current_regime,
        stored.current_label@ == state.current_label@,
        stored.smoothed_probs == state.smoothed_probs,
        stored.viterbi_sequence == state.viterbi_sequence,
        stored.obs_count_per_regime == state.obs_count_per_regime,
        stored.log_likelihood == state.log_likelihood,
        stored.n_iter == state.n_iter,
    ensures
        is_label(stored.current_label@),
        is_restored(stored, restored) ==> {
            &&& restored.current_label@ == state.current_label@
            &&& restored.smoothing_note@ == state.smoothing_note@
            &&& restored == (RegimeState {
                current_label: restored.current_label,
                smoothing_note: restored.smoothing_note,
                ..state
            })
        },
{
    assert(label_of(state.current_regime as int) == stored.current_label@);
}

/// The message for a history that is too short for a fit.
pub open spec fn too_few(observations: nat) -> Seq<PieceView> {
    seq![
        PieceView::Text("fit_hmm needs at least "@),
        PieceView::Text(text::decimal(MIN_OBSERVATIONS as nat)),
        PieceView::Text(
            " observations for 3 states with a usable sample per state, got "@,
        ),
        PieceView::Text(text::decimal(observations)),
    ]
}

/// Accepts a number of observations that a fit can work with.
pub fn check_observations(observations: usize) -> (res: Result<(), ComputeError>)
    ensures
        res is Ok <==> observations >= MIN_OBSERVATIONS,
        res is Err ==> res->Err_0@ == ComputeErrorView::Model(too_few(observations as nat)),
{
    if observations < MIN_OBSERVATIONS {
        let mut message = Message::of("fit_hmm needs at least ");
        message.count(MIN_OBSERVATIONS);
        message.text(" observations for 3 states with a usable sample per state, got ");
        message.count(observations);
        assert(message@ =~= too_few(observations as nat));
        return Err(ComputeError::Model(message));
    }
    Ok(())
}

// ---------------------------------------------------------------------------
// Clustering by magnitude
// ---------------------------------------------------------------------------

/// The centers that clustering starts from: the magnitudes at one, three and
/// five sixths of the sorted list.
pub fn initial_centers(values: &Vec<Double>) -> (res: [Double; 3])
    requires
        values@.len() > 0,
        5 * values@.len() <= usize::MAX,
        select::comparable(values@),
    ensures
        exists|order: Seq<usize>|
            {
                &&& #[trigger] select::is_sorted_order(select::magnitudes(values@), false, order)
                &&& res@[0] == select::magnitudes(values@)[order[values@.len() as int / 6] as int]
                &&& res@[1] == select::magnitudes(values@)[order[values@.len() as int / 2] as int]
                &&& res@[2] == select::magnitudes(values@)[order[5 * values@.len() as int / 6] as int]
            },
{
    let sizes = select::absolute(values);
    let order = select::sorted_order(&sizes, false);
    let n: usize = values.len();
    assert(select::is_sorted_order(select::magnitudes(values@), false, order@));
    [sizes[order[n / 6]], sizes[order[n / 2]], sizes[order[(5 * n) / 6]]]
}

/// Whether `best` is the place of the smallest of three distances, the first
/// of several. A distance that is infinite or NaN is never chosen over the
/// first place.
pub open spec fn is_nearest(distances: [Double; 3], best: int) -> bool {
    let infinity = Double { bits: crate::double::INFINITY_BITS };
    let d = distances@;
    let near = |k: int| d[k].below(infinity);
    let none = !near(0) && !near(1) && !near(2);
    &&& 0 <= best < 3
    &&& none ==> best == 0
    &&& !none ==> near(best) && (forall|k: int|
        0 <= k < 3 && near(k) ==> d[best].rank() <= (#[trigger] d[k]).rank()) && (forall|k: int|
        0 <= k < best && near(k) ==> d[best].rank() < (#[trigger] d[k]).rank())
}

/// The center that is chosen is at most as far as each of the others; of two
/// that are equally near it is the first.
pub proof fn lemma_nearest(distances: [Double; 3], best: int, k: int)
    requires
        is_nearest(distances, best),
        0 <= k < 3,
        distances@[k].finite(),
    ensures
        0 <= best < 3,
        distances@[best].rank() <= distances@[k].rank(),
        distances@[best].rank() == distances@[k].rank() ==> best <= k,
{
    let infinity = Double { bits: crate::double::INFINITY_BITS };
    assert(distances@[k].below(infinity));
}

/// The place of the nearest of three centers.
pub fn nearest_center(distances: &[Double; 3]) -> (res: usize)
    ensures
        is_nearest(*distances, res as int),
{
    let mut best: usize = 0;
    let mut shortest = Double { bits: crate::double::INFINITY_BITS };
    if distances[0].lt(shortest) {
        shortest = distances[0];
    }
    if distances[1].lt(shortest) {
        shortest = distances[1];
        best = 1;
    }
    if distances[2].lt(shortest) {
        best = 2;
    }
    best
}

/// Moves every observation to its nearest center and tells whether any moved.
pub fn assign_clusters(assignments: &mut Vec<usize>, distances: &Vec<[Double; 3]>) -> (changed: bool)
    requires
        old(assignments)@.len() == distances@.len(),
    ensures
        final(assignments)@.len() == distances@.len(),
        forall|i: int|
            0 <= i < distances@.len() ==> is_nearest(
                #[trigger] distances@[i],
                final(assignments)@[i] as int,
            ),
        changed <==> final(assignments)@ != old(assignments)@,
{
    let mut changed = false;
    let mut i: usize = 0;
    while i < distances.len()
        invariant
            i <= distances@.len(),
            assignments@.len() == distances@.len(),
            old(assignments)@.len() == distances@.len(),
            forall|k: int|
                0 <= k < i ==> is_nearest(#[trigger] distances@[k], assignments@[k] as int),
            forall|k: int| i <= k < distances@.len() ==> assignments@[k] == old(assignments)@[k],
            changed <==> exists|k: int|
                0 <= k < i && #[trigger] assignments@[k] != old(assignments)@[k],
        decreases distances.len() - i,
    {
        let best: usize = nearest_center(&distances[i]);
        let ghost before = assignments@;
        if assignments[i] != best {
            changed = true;
            assignments.set(i, best);
            assert(assignments@[i as int] != old(assignments)@[i as int]);
        } else {
            assert(before[i as int] == old(assignments)@[i as int]);
        }
        proof {
            assert forall|k: int| 0 <= k < i implies assignments@[k] == before[k] by {}
            if changed && exists|k: int| 0 <= k < i && #[trigger] before[k] != old(assignments)@[k] {
                let k = choose|k: int| 0 <= k < i && #[trigger] before[k] != old(assignments)@[k];
                assert(assignments@[k] != old(assignments)@[k]);
            }
        }
        i += 1;
    }
    proof {
        if !changed {
            assert(assignments@ =~= old(assignments)@);
        }
    }
    changed
}

// ---------------------------------------------------------------------------
// Estimation
// ---------------------------------------------------------------------------

/// Whether estimation stops after round `iter`, in which the log likelihood
/// changed by `change`.
pub open spec fn stops_after(iter: u32, change: Double) -> bool {
    iter >= MAX_ITER || (iter > 1 && change.magnitude_double().below(Double { bits: LOG_LIKELIHOOD_TOLERANCE_BITS }))
}

/// Estimation goes on through its first round, and stops in round five hundred
/// at the latest; in between it stops where the log likelihood moved by less
/// than a millionth either way.
pub proof fn lemma_when_estimation_stops(iter: u32, change: Double)
    ensures
        iter <= 1 ==> !stops_after(iter, change),
        iter >= 500 ==> stops_after(iter, change),
        1 < iter < 500 && !change.nan() ==> (stops_after(iter, change) <==> -(Double {
            bits: 0x3eb0_c6f7_a0b5_ed8d,
        }).rank() < change.rank() < (Double { bits: 0x3eb0_c6f7_a0b5_ed8d }).rank()),
{
}

/// Decides whether estimation stops after a round.
pub fn estimation_done(iter: u32, change: Double) -> (res: bool)
    ensures
        res == stops_after(iter, change),
{
    iter >= MAX_ITER || (iter > 1 && change.abs().lt(Double { bits: LOG_LIKELIHOOD_TOLERANCE_BITS }))
}

/// The place of the largest of three scores, the first of several; the first
/// place where none is above negative infinity.
pub open spec fn is_best_predecessor(scores: [Double; 3], best: int) -> bool {
    let floor = Double { bits: 0xfff0_0000_0000_0000 };
    let s = scores@;
    let possible = |k: int| floor.below(s[k]);
    let none = !possible(0) && !possible(1) && !possible(2);
    &&& 0 <= best < 3
    &&& none ==> best == 0
    &&& !none ==> possible(best) && (forall|k: int|
        0 <= k < 3 && possible(k) ==> (#[trigger] s[k]).rank() <= s[best].rank()) && (forall|k: int|
        0 <= k < best && possible(k) ==> (#[trigger] s[k]).rank() < s[best].rank())
}

/// The state that a path comes from has at least the score of each of the
/// others; of two with the same score it is the first.
pub proof fn lemma_best_predecessor(scores: [Double; 3], best: int, k: int)
    requires
        is_best_predecessor(scores, best),
        0 <= k < 3,
        scores@[k].finite(),
    ensures
        0 <= best < 3,
        scores@[k].rank() <= scores@[best].rank(),
        scores@[k].rank() == scores@[best].rank() ==> best <= k,
{
    let floor = Double { bits: 0xfff0_0000_0000_0000 };
    assert(floor.below(scores@[k]));
}

/// The state that the most likely path comes from.
pub fn best_predecessor(scores: &[Double; 3]) -> (res: usize)
    ensures
        is_best_predecessor(*scores, res as int),
{
    let mut best: usize = 0;
    let mut highest = Double { bits: 0xfff0_0000_0000_0000 };
    if highest.lt(scores[0]) {
        highest = scores[0];
    }
    if highest.lt(scores[1]) {
        highest = scores[1];
        best = 1;
    }
    if highest.lt(scores[2]) {
        best = 2;
    }
    best
}

/// The place of the largest of three numbers, the last of several.
pub fn last_largest(values: &[Double; 3]) -> (res: usize)
    requires
        select::comparable(values@),
    ensures
        select::is_last_max(values@, res as int),
{
    let mut best: usize = 0;
    if values[0].le(values[1]) {
        best = 1;
    }
    if values[best].le(values[2]) {
        best = 2;
    }
    best
}

/// The most likely path: from the best last state back along the recorded
/// predecessors. `predecessors[t][k]` is the state before state `k` at `t`.
pub fn viterbi_path(last_scores: &[Double; 3], predecessors: &Vec<[usize; 3]>) -> (res: Vec<usize>)
    requires
        predecessors@.len() > 0,
        select::comparable(last_scores@),
        forall|t: int, k: int|
            0 <= t < predecessors@.len() && 0 <= k < 3 ==> (#[trigger] predecessors@[t]@[k]) < 3,
    ensures
        res@.len() == predecessors@.len(),
        forall|t: int| 0 <= t < res@.len() ==> (#[trigger] res@[t]) < 3,
        select::is_last_max(last_scores@, res@.last() as int),
        forall|t: int|
            0 <= t < res@.len() - 1 ==> (#[trigger] res@[t]) == predecessors@[t + 1]@[res@[t + 1] as int],
{
    let n: usize = predecessors.len();
    let mut path: Vec<usize> = Vec::new();
    let mut filled: usize = 0;
    while filled < n
        invariant
            filled <= n,
            path@.len() == filled,
            forall|t: int| 0 <= t < filled ==> (#[trigger] path@[t]) == 0,
        decreases n - filled,
    {
        path.push(0);
        filled += 1;
    }
    let last: usize = last_largest(last_scores);
    path.set(n - 1, last);
    let mut t: usize = n - 1;
    while t > 0
        invariant
            t < n,
            path@.len() == n,
            n == predecessors@.len(),
            forall|t: int, k: int|
                0 <= t < predecessors@.len() && 0 <= k < 3 ==> (#[trigger] predecessors@[t]@[k]) < 3,
            forall|s: int| 0 <= s < n ==> (#[trigger] path@[s]) < 3,
            select::is_last_max(last_scores@, path@[n - 1] as int),
            forall|s: int|
                t <= s < n - 1 ==> (#[trigger] path@[s]) == predecessors@[s + 1]@[path@[s + 1] as int],
        decreases t,
    {
        let here: usize = path[t];
        let from: usize = predecessors[t][here];
        assert(predecessors@[t as int]@[here as int] < 3);
        path.set(t - 1, from);
        t -= 1;
    }
    path
}

// ---------------------------------------------------------------------------
// Reporting order
// ---------------------------------------------------------------------------

/// Whether `order` lists the three states by ascending variance, equal
/// variances in the order of their places.
pub open spec fn is_variance_order(variances: [Double; 3], order: [usize; 3]) -> bool {
    select::is_sorted_order(variances@, false, order@)
}

/// The states by ascending variance.
pub fn variance_order(variances: &[Double; 3]) -> (res: [usize; 3])
    requires
        select::comparable(variances@),
    ensures
        is_variance_order(*variances, res),
{
    let (a, b, c) = (variances[0], variances[1], variances[2]);
    let mut order: [usize; 3] = [0, 1, 2];
    if b.lt(a) {
        if c.lt(b) {
            order = [2, 1, 0];
        } else if c.lt(a) {
            order = [1, 2, 0];
        } else {
            order = [1, 0, 2];
        }
    } else if c.lt(a) {
        order = [2, 0, 1];
    } else if c.lt(b) {
        order = [0, 2, 1];
    }
    order
}

/// The place of each state in the given order.
pub fn ranks(order: &[usize; 3]) -> (res: [usize; 3])
    requires
        order@[0] < 3,
        order@[1] < 3,
        order@[2] < 3,
        order@[0] != order@[1],
        order@[0] != order@[2],
        order@[1] != order@[2],
    ensures
        forall|k: int| 0 <= k < 3 ==> res@[order@[k] as int] == k,
        forall|k: int| 0 <= k < 3 ==> (#[trigger] res@[k]) < 3 && order@[res@[k] as int] == k,
{
    let first: usize = if order[0] == 0 {
        0
    } else if order[1] == 0 {
        1
    } else {
        2
    };
    let second: usize = if order[0] == 1 {
        0
    } else if order[1] == 1 {
        1
    } else {
        2
    };
    let third: usize = if order[0] == 2 {
        0
    } else if order[1] == 2 {
        1
    } else {
        2
    };
    [first, second, third]
}

/// Three numbers in the given order.
pub fn reordered(values: &[Double; 3], order: &[usize; 3]) -> (res: [Double; 3])
    requires
        order@[0] < 3,
        order@[1] < 3,
        order@[2] < 3,
    ensures
        forall|k: int| 0 <= k < 3 ==> res@[k] == values@[order@[k] as int],
{
    [values[order[0]], values[order[1]], values[order[2]]]
}

/// How many of the first `n` entries are `regime`.
pub open spec fn count_of(sequence: Seq<u8>, regime: int, n: int) -> nat
    decreases n,
{
    if n <= 0 {
        0
    } else {
        count_of(sequence, regime, n - 1) + (if sequence[n - 1] == regime {
            1nat
        } else {
            0nat
        })
    }
}

/// The three counts add up to the number of observations.
pub proof fn lemma_counts_cover(sequence: Seq<u8>, n: int)
    requires
        0 <= n <= sequence.len(),
        forall|t: int| 0 <= t < n ==> (#[trigger] sequence[t]) < 3,
    ensures
        count_of(sequence, 0, n) + count_of(sequence, 1, n) + count_of(sequence, 2, n) == n,
    decreases n,
{
    if n > 0 {
        lemma_counts_cover(sequence, n - 1);
    }
}

fn count_regime(sequence: &Vec<u8>, regime: u8) -> (res: usize)
    ensures
        res == count_of(sequence@, regime as int, sequence@.len() as int),
{
    let mut found: usize = 0;
    let mut t: usize = 0;
    while t < sequence.len()
        invariant
            t <= sequence@.len(),
            found <= t,
            found == count_of(sequence@, regime as int, t as int),
        decreases sequence.len() - t,
    {
        if sequence[t] == regime {
            found += 1;
        }
        t += 1;
    }
    found
}

fn relabel(path: &Vec<usize>, rank: &[usize; 3]) -> (res: Vec<u8>)
    requires
        forall|t: int| 0 <= t < path@.len() ==> (#[trigger] path@[t]) < 3,
        forall|k: int| 0 <= k < 3 ==> (#[trigger] rank@[k]) < 3,
    ensures
        res@.len() == path@.len(),
        forall|t: int| 0 <= t < path@.len() ==> (#[trigger] res@[t]) == rank@[path@[t] as int],
{
    let mut out: Vec<u8> = Vec::new();
    let mut t: usize = 0;
    while t < path.len()
        invariant
            t <= path@.len(),
            out@.len() == t,
            forall|t: int| 0 <= t < path@.len() ==> (#[trigger] path@[t]) < 3,
            forall|k: int| 0 <= k < 3 ==> (#[trigger] rank@[k]) < 3,
            forall|s: int| 0 <= s < t ==> (#[trigger] out@[s]) == rank@[path@[s] as int],
        decreases path.len() - t,
    {
        assert(rank@[path@[t as int] as int] < 3);
        out.push(rank[path[t]] as u8);
        t += 1;
    }
    out
}

/// What a fit found, in the order that the fit numbered its states in.
#[derive(Debug)]
pub struct RawFit {
    pub initial: [Double; 3],
    pub transition: [[Double; 3]; 3],
    pub means: [Double; 3],
    pub variances: [Double; 3],
    /// The probability of each state at the last observation.
    pub last_probs: [Double; 3],
    pub path: Vec<usize>,
    pub log_likelihood: Double,
    pub n_iter: u32,
}

impl RawFit {
    /// Whether the fit can be reported: its variances and probabilities are
    /// numbers and its path names states.
    pub open spec fn reportable(self) -> bool {
        &&& select::comparable(self.variances@)
        &&& select::comparable(self.last_probs@)
        &&& forall|t: int| 0 <= t < self.path@.len() ==> (#[trigger] self.path@[t]) < 3
    }
}

/// Whether `model` is the fit with its states renumbered by `order`.
pub open spec fn model_renumbered(fit: RawFit, order: [usize; 3], model: HmmModel) -> bool {
    &&& forall|k: int| 0 <= k < 3 ==> #[trigger] model.initial@[k] == fit.initial@[order@[k] as int]
    &&& forall|k: int| 0 <= k < 3 ==> #[trigger] model.means@[k] == fit.means@[order@[k] as int]
    &&& forall|k: int|
        0 <= k < 3 ==> #[trigger] model.variances@[k] == fit.variances@[order@[k] as int]
    &&& forall|j: int, k: int|
        0 <= j < 3 && 0 <= k < 3 ==> #[trigger] model.transition@[j]@[k]
            == fit.transition@[order@[j] as int]@[order@[k] as int]
    &&& model.log_likelihood == fit.log_likelihood
    &&& model.n_iter == fit.n_iter
}

/// Whether `state` reports the fit with its states renumbered by `order`.
pub open spec fn state_renumbered(fit: RawFit, order: [usize; 3], state: RegimeState) -> bool {
    &&& forall|k: int|
        0 <= k < 3 ==> #[trigger] state.smoothed_probs@[k] == fit.last_probs@[order@[k] as int]
    &&& state.viterbi_sequence@.len() == fit.path@.len()
    &&& forall|t: int|
        0 <= t < fit.path@.len() ==> (#[trigger] state.viterbi_sequence@[t]) < 3
            && order@[state.viterbi_sequence@[t] as int] == fit.path@[t]
    &&& forall|k: int|
        0 <= k < 3 ==> #[trigger] state.obs_count_per_regime@[k] == count_of(
            state.viterbi_sequence@,
            k,
            fit.path@.len() as int,
        )
    &&& select::is_last_max(state.smoothed_probs@, state.current_regime as int)
    &&& state.current_label@ == label_of(state.current_regime as int)
    &&& state.log_likelihood == fit.log_likelihood
    &&& state.n_iter == fit.n_iter
    &&& state.smoothing_note@ == SMOOTHING_NOTE@
}

/// Whether a model and a state report a fit, its states renumbered by rising
/// variance.
pub open spec fn reports(fit: RawFit, model: HmmModel, state: RegimeState) -> bool {
    exists|order: [usize; 3]|
        {
            &&& #[trigger] is_variance_order(fit.variances, order)
            &&& model_renumbered(fit, order, model)
            &&& state_renumbered(fit, order, state)
        }
}

/// What is reported of a fit: the variances rise from one regime to the next,
/// the current regime is a most likely one and has the name of its number, and
/// at every observation the reported regime has the mean and the variance of
/// the state that the fit found there.
pub proof fn lemma_reported_regimes(fit: RawFit, model: HmmModel, state: RegimeState)
    requires
        reports(fit, model, state),
    ensures
        model.variances@[0].rank() <= model.variances@[1].rank() <= model.variances@[2].rank(),
        state.current_regime < 3,
        state.current_regime == 0 ==> state.current_label@ == "Bull"@,
        state.current_regime == 1 ==> state.current_label@ == "Bear"@,
        state.current_regime == 2 ==> state.current_label@ == "Crisis"@,
        forall|k: int|
            0 <= k < 3 ==> (#[trigger] state.smoothed_probs@[k]).rank()
                <= state.smoothed_probs@[state.current_regime as int].rank(),
        state.viterbi_sequence@.len() == fit.path@.len(),
        forall|t: int|
            0 <= t < fit.path@.len() ==> (#[trigger] state.viterbi_sequence@[t]) < 3
                && model.variances@[state.viterbi_sequence@[t] as int]
                == fit.variances@[fit.path@[t] as int]
                && model.means@[state.viterbi_sequence@[t] as int]
                == fit.means@[fit.path@[t] as int]
                && state.smoothed_probs@[state.viterbi_sequence@[t] as int]
                == fit.last_probs@[fit.path@[t] as int],
        state.obs_count_per_regime@[0] + state.obs_count_per_regime@[1]
            + state.obs_count_per_regime@[2] == fit.path@.len(),
{
    let order = choose|order: [usize; 3]|
        {
            &&& #[trigger] is_variance_order(fit.variances, order)
            &&& model_renumbered(fit, order, model)
            &&& state_renumbered(fit, order, state)
        };
    select::lemma_sorted_order(fit.variances@, false, order@);
    assert(model.variances@[0] == fit.variances@[order@[0] as int]);
    assert(model.variances@[1] == fit.variances@[order@[1] as int]);
    assert(model.variances@[2] == fit.variances@[order@[2] as int]);
    assert(fit.variances@[order@[0] as int].rank() <= fit.variances@[order@[1] as int].rank());
    assert(fit.variances@[order@[1] as int].rank() <= fit.variances@[order@[2] as int].rank());
    assert(state.smoothed_probs@.len() == 3);
    lemma_counts_cover(state.viterbi_sequence@, fit.path@.len() as int);
    assert(state.obs_count_per_regime@[0] == count_of(
        state.viterbi_sequence@,
        0,
        fit.path@.len() as int,
    ));
    assert(state.obs_count_per_regime@[1] == count_of(
        state.viterbi_sequence@,
        1,
        fit.path@.len() as int,
    ));
    assert(state.obs_count_per_regime@[2] == count_of(
        state.viterbi_sequence@,
        2,
        fit.path@.len() as int,
    ));
}

/// A regime is counted once for every row that carries its label.
pub proof fn lemma_counted_rows(sequence: Seq<u8>, regime: int, n: int)
    requires
        0 <= n <= sequence.len(),
    ensures
        count_of(sequence, regime, n) == crate::model::rows_of_regime(sequence, regime, n).len(),
    decreases n,
{
    if n > 0 {
        lemma_counted_rows(sequence, regime, n - 1);
    }
}

/// Whether `b` is the fit `a` under other state numbers: state `k` of `b` is
/// state `old_number[k]` of `a`.
pub open spec fn is_renumbering(a: RawFit, old_number: Seq<int>, b: RawFit) -> bool {
    &&& old_number.len() == 3
    &&& forall|k: int| 0 <= k < 3 ==> 0 <= #[trigger] old_number[k] < 3
    &&& forall|j: int, k: int| 0 <= j < k < 3 ==> #[trigger] old_number[j] != #[trigger] old_number[k]
    &&& forall|k: int| 0 <= k < 3 ==> #[trigger] b.initial@[k] == a.initial@[old_number[k]]
    &&& forall|k: int| 0 <= k < 3 ==> #[trigger] b.means@[k] == a.means@[old_number[k]]
    &&& forall|k: int| 0 <= k < 3 ==> #[trigger] b.variances@[k] == a.variances@[old_number[k]]
    &&& forall|k: int| 0 <= k < 3 ==> #[trigger] b.last_probs@[k] == a.last_probs@[old_number[k]]
    &&& forall|j: int, k: int|
        0 <= j < 3 && 0 <= k < 3 ==> #[trigger] b.transition@[j]@[k]
            == a.transition@[old_number[j]]@[old_number[k]]
    &&& b.path@.len() == a.path@.len()
    &&& forall|t: int|
        0 <= t < b.path@.len() ==> (#[trigger] b.path@[t]) < 3 && old_number[b.path@[t] as int]
            == a.path@[t]
    &&& b.log_likelihood == a.log_likelihood
    &&& b.n_iter == a.n_iter
}

/// Whether no two states of a fit have the same variance.
pub open spec fn variances_differ(fit: RawFit) -> bool {
    &&& fit.variances@[0].rank() != fit.variances@[1].rank()
    &&& fit.variances@[0].rank() != fit.variances@[2].rank()
    &&& fit.variances@[1].rank() != fit.variances@[2].rank()
}

/// Which numbers an estimation happened to give its states does not matter:
/// fits that differ in nothing else, and whose variances tell the states
/// apart, are reported alike.
pub proof fn lemma_numbering_does_not_matter(
    a: RawFit,
    old_number: Seq<int>,
    b: RawFit,
    model_a: HmmModel,
    state_a: RegimeState,
    model_b: HmmModel,
    state_b: RegimeState,
)
    requires
        is_renumbering(a, old_number, b),
        variances_differ(a),
        reports(a, model_a, state_a),
        reports(b, model_b, state_b),
    ensures
        model_a.initial@ == model_b.initial@,
        model_a.means@ == model_b.means@,
        model_a.variances@ == model_b.variances@,
        forall|j: int| 0 <= j < 3 ==> (#[trigger] model_a.transition@[j])@ == model_b.transition@[j]@,
        model_a.log_likelihood == model_b.log_likelihood,
        model_a.n_iter == model_b.n_iter,
        state_a.current_regime == state_b.current_regime,
        state_a.current_label@ == state_b.current_label@,
        state_a.smoothed_probs@ == state_b.smoothed_probs@,
        state_a.viterbi_sequence@ == state_b.viterbi_sequence@,
        state_a.obs_count_per_regime@ == state_b.obs_count_per_regime@,
        state_a.log_likelihood == state_b.log_likelihood,
        state_a.n_iter == state_b.n_iter,
        state_a.smoothing_note@ == state_b.smoothing_note@,
{
    let p = choose|order: [usize; 3]|
        {
            &&& #[trigger] is_variance_order(a.variances, order)
            &&& model_renumbered(a, order, model_a)
            &&& state_renumbered(a, order, state_a)
        };
    let q = choose|order: [usize; 3]|
        {
            &&& #[trigger] is_variance_order(b.variances, order)
            &&& model_renumbered(b, order, model_b)
            &&& state_renumbered(b, order, state_b)
        };
    assert(select::sorts_before(a.variances@, false, p@[0] as int, p@[1] as int));
    assert(select::sorts_before(a.variances@, false, p@[1] as int, p@[2] as int));
    assert(select::sorts_before(b.variances@, false, q@[0] as int, q@[1] as int));
    assert(select::sorts_before(b.variances@, false, q@[1] as int, q@[2] as int));
    assert(p@[0] < 3 && p@[1] < 3 && p@[2] < 3);
    assert(q@[0] < 3 && q@[1] < 3 && q@[2] < 3);
    let rank = |k: int| a.variances@[k].rank();
    assert(b.variances@[q@[0] as int].rank() == rank(old_number[q@[0] as int]));
    assert(b.variances@[q@[1] as int].rank() == rank(old_number[q@[1] as int]));
    assert(b.variances@[q@[2] as int].rank() == rank(old_number[q@[2] as int]));
    assert forall|k: int| 0 <= k < 3 implies p@[k] == #[trigger] old_number[q@[k] as int] by {
        assert(p@[0] == old_number[q@[0] as int]);
        assert(p@[1] == old_number[q@[1] as int]);
        assert(p@[2] == old_number[q@[2] as int]);
    }
    assert(model_a.initial@ =~= model_b.initial@);
    assert(model_a.means@ =~= model_b.means@);
    assert(model_a.variances@ =~= model_b.variances@);
    assert forall|j: int| 0 <= j < 3 implies (#[trigger] model_a.transition@[j])@
        == model_b.transition@[j]@ by {
        assert forall|k: int| 0 <= k < 3 implies model_a.transition@[j]@[k]
            == model_b.transition@[j]@[k] by {
            assert(model_b.transition@[j]@[k] == b.transition@[q@[j] as int]@[q@[k] as int]);
            assert(p@[j] == old_number[q@[j] as int]);
            assert(p@[k] == old_number[q@[k] as int]);
        }
        assert(model_a.transition@[j]@ =~= model_b.transition@[j]@);
    }
    assert(state_a.smoothed_probs@ =~= state_b.smoothed_probs@);
    let probs = state_a.smoothed_probs@;
    let (x, y) = (state_a.current_regime as int, state_b.current_regime as int);
    assert(probs[x].rank() <= probs[y].rank() && probs[y].rank() <= probs[x].rank());
    assert(x == y);
    assert forall|t: int| 0 <= t < a.path@.len() implies state_a.viterbi_sequence@[t]
        == state_b.viterbi_sequence@[t] by {
        let (x, y) = (state_a.viterbi_sequence@[t] as int, state_b.viterbi_sequence@[t] as int);
        assert(x < 3 && y < 3);
        assert(p@[x] == a.path@[t]);
        assert(q@[y] == b.path@[t]);
        assert(p@[y] == old_number[q@[y] as int]);
        assert(p@[x] == p@[y]);
    }
    assert(state_a.viterbi_sequence@ =~= state_b.viterbi_sequence@);
    assert(state_a.obs_count_per_regime@ =~= state_b.obs_count_per_regime@);
}


/// Reports a fit with its states in ascending order of variance.
pub fn report_fit(fit: &RawFit) -> (res: (HmmModel, RegimeState))
    requires
        fit.reportable(),
    ensures
        reports(*fit, res.0, res.1),
        variances_ascend(res.0),
{
    let order = variance_order(&fit.variances);
    proof {
        assert(select::sorts_before(fit.variances@, false, order@[0] as int, order@[1] as int));
        assert(select::sorts_before(fit.variances@, false, order@[0] as int, order@[2] as int));
        assert(select::sorts_before(fit.variances@, false, order@[1] as int, order@[2] as int));
    }
    let rank = ranks(&order);
    let rows = [
        reordered(&fit.transition[order[0]], &order),
        reordered(&fit.transition[order[1]], &order),
        reordered(&fit.transition[order[2]], &order),
    ];
    let probs = reordered(&fit.last_probs, &order);
    assert(select::comparable(probs@));
    let sequence = relabel(&fit.path, &rank);
    let counts = [count_regime(&sequence, 0), count_regime(&sequence, 1), count_regime(&sequence, 2)];
    let current: usize = last_largest(&probs);
    let model = HmmModel {
        initial: reordered(&fit.initial, &order),
        transition: rows,
        means: reordered(&fit.means, &order),
        variances: reordered(&fit.variances, &order),
        log_likelihood: fit.log_likelihood,
        n_iter: fit.n_iter,
    };
    let state = RegimeState {
        current_regime: current as u8,
        current_label: label(current),
        smoothed_probs: probs,
        viterbi_sequence: sequence,
        obs_count_per_regime: counts,
        log_likelihood: fit.log_likelihood,
        n_iter: fit.n_iter,
        smoothing_note: SMOOTHING_NOTE,
    };
    proof {
        assert forall|t: int| 0 <= t < fit.path@.len() implies (#[trigger] state.viterbi_sequence@[t])
            < 3 && order@[state.viterbi_sequence@[t] as int] == fit.path@[t] by {
            assert(rank@[fit.path@[t] as int] < 3);
        }
        assert(state_renumbered(*fit, order, state));
        assert(model_renumbered(*fit, order, model));
    }
    (model, state)
}

/// Whether the states of a model stand in ascending order of variance.
pub open spec fn variances_ascend(model: HmmModel) -> bool {
    &&& model.variances@[0].at_most(model.variances@[1])
    &&& model.variances@[1].at_most(model.variances@[2])
}

} // verus!
