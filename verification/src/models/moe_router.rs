//! Configuration and routing rule of the mixture-of-experts router.
use vstd::prelude::*;
use crate::models::ExpertType;

verus! {

/// Router configuration.
#[derive(Debug, Clone)]
pub struct MoERouterConfig {
    /// Input dimension
    pub input_dim: usize,
    /// Number of experts
    pub num_experts: usize,
    /// Number of experts each input is routed to
    pub top_k: usize,
    /// Hidden dimension of the gating network
    pub hidden_dim: usize,
}

/// The expert that an expert index stands for, counting modulo the number
/// of experts: 0 TextCNN, 1 SNN, 2 Transformer, 3 semantic encoder, any other
/// remainder TextCNN.
pub open spec fn expert_at(index: int, num_experts: int) -> ExpertType {
    let r = index % num_experts;
    if r == 0 {
        ExpertType::TextCNN
    } else if r == 1 {
        ExpertType::SNN
    } else if r == 2 {
        ExpertType::Transformer
    } else if r == 3 {
        ExpertType::SemanticEncoder
    } else {
        ExpertType::TextCNN
    }
}

/// Parameters of the gating network: first layer with bias, second layer
/// without.
pub open spec fn router_param_count(input_dim: int, hidden_dim: int, num_experts: int) -> int {
    input_dim * hidden_dim + hidden_dim + hidden_dim * num_experts
}

impl MoERouterConfig {
    /// Builds a configuration from its fields.
    pub fn new(input_dim: usize, num_experts: usize, top_k: usize, hidden_dim: usize) -> (c: MoERouterConfig)
        ensures
            c.input_dim == input_dim,
            c.num_experts == num_experts,
            c.top_k == top_k,
            c.hidden_dim == hidden_dim,
    {
        MoERouterConfig { input_dim, num_experts, top_k, hidden_dim }
    }

    /// Default: 128-dimensional input, 4 experts, top-2 routing.
    pub fn default() -> (c: MoERouterConfig)
        ensures
            c.input_dim == 128,
            c.num_experts == 4,
            c.top_k == 2,
            c.hidden_dim == 64,
    {
        Self::new(128, 4, 2, 64)
    }

    /// The expert type of an expert index of the router built from this
    /// configuration.
    pub fn map_expert_type(&self, index: usize) -> (e: ExpertType)
        requires
            self.num_experts > 0,
        ensures
            e == expert_at(index as int, self.num_experts as int),
    {
        match index % self.num_experts {
            0 => ExpertType::TextCNN,
            1 => ExpertType::SNN,
            2 => ExpertType::Transformer,
            3 => ExpertType::SemanticEncoder,
            _ => ExpertType::TextCNN,
        }
    }

    /// Estimated parameter count of the gating network built from this
    /// configuration.
    pub fn param_count(&self) -> (n: usize)
        requires
            router_param_count(self.input_dim as int, self.hidden_dim as int, self.num_experts as int) <= usize::MAX,
        ensures
            n == router_param_count(self.input_dim as int, self.hidden_dim as int, self.num_experts as int),
    {
        let input = self.input_dim as u128;
        let hidden = self.hidden_dim as u128;
        let experts = self.num_experts as u128;
        assert(input * hidden <= 0xffff_ffff_ffff_ffff_ffff_ffff_ffff_ffffu128) by (nonlinear_arith)
            requires input <= 0xffff_ffff_ffff_ffffu128, hidden <= 0xffff_ffff_ffff_ffffu128;
        assert(hidden * experts <= 0xffff_ffff_ffff_ffff_ffff_ffff_ffff_ffffu128) by (nonlinear_arith)
            requires experts <= 0xffff_ffff_ffff_ffffu128, hidden <= 0xffff_ffff_ffff_ffffu128;
        let total: u128 = input * hidden + hidden + hidden * experts;
        total as usize
    }
}

/// Index `j` occurs in `v`.
pub open spec fn occurs(v: Seq<usize>, j: int) -> bool {
    exists|q: int| 0 <= q < v.len() && v[q] == j
}

/// Expert `a` ranks before expert `b`: it has the higher score, or the same
/// score and the lower index.
pub open spec fn ranks_before(scores: Seq<u64>, a: int, b: int) -> bool {
    scores[a] > scores[b] || (scores[a] == scores[b] && a < b)
}

/// The indices of the `k` experts with the highest scores (all of them when
/// there are fewer than `k`), best first; equal scores go to the lower index.
pub fn top_k_experts(scores: &[u64], k: usize) -> (top: Vec<usize>)
    ensures
        top@.len() == if k < scores@.len() { k as int } else { scores@.len() as int },
        forall|x: int| 0 <= x < top@.len() ==> #[trigger] top@[x] < scores@.len(),
        forall|x: int, y: int| 0 <= x < y < top@.len() ==> ranks_before(scores@, #[trigger] top@[x] as int, #[trigger] top@[y] as int),
        forall|x: int, j: int| 0 <= x < top@.len() && 0 <= j < scores@.len() && !top@.contains(j as usize) ==>
            #[trigger] ranks_before(scores@, top@[x] as int, j),
{
    let n = scores.len();
    let m = if k < n { k } else { n };
    let mut idx: Vec<usize> = Vec::new();
    for p in 0..n
        invariant
            idx@.len() == p,
            forall|q: int| 0 <= q < p ==> #[trigger] idx@[q] == q,
    {
        idx.push(p);
    }
    assert forall|j: int| 0 <= j < n implies #[trigger] occurs(idx@, j) by {
        assert(idx@[j] == j);
    }
    for t in 0..m
        invariant
            m <= n,
            n == scores@.len(),
            idx@.len() == n,
            forall|q: int| 0 <= q < n ==> #[trigger] idx@[q] < n,
            forall|p: int, q: int| 0 <= p < q < n ==> #[trigger] idx@[p] != #[trigger] idx@[q],
            forall|j: int| 0 <= j < n ==> #[trigger] occurs(idx@, j),
            forall|x: int, y: int| 0 <= x < y < t ==> ranks_before(scores@, #[trigger] idx@[x] as int, #[trigger] idx@[y] as int),
            forall|x: int, p: int| 0 <= x < t && t <= p < n ==> ranks_before(scores@, #[trigger] idx@[x] as int, #[trigger] idx@[p] as int),
    {
        let mut best = t;
        let mut q = t + 1;
        while q < n
            invariant
                t < n,
                n == scores@.len(),
                idx@.len() == n,
                t <= best < q <= n,
                forall|r: int| 0 <= r < n ==> #[trigger] idx@[r] < n,
                forall|p: int, r: int| 0 <= p < r < n ==> #[trigger] idx@[p] != #[trigger] idx@[r],
                forall|p: int| t <= p < q && p != best ==> ranks_before(scores@, idx@[best as int] as int, #[trigger] idx@[p] as int),
            decreases n - q,
        {
            let a = idx[q];
            let b = idx[best];
            if scores[a] > scores[b] || (scores[a] == scores[b] && a < b) {
                best = q;
            }
            q = q + 1;
        }
        let ghost before = idx@;
        let at_t = idx[t];
        let at_best = idx[best];
        idx.set(t, at_best);
        idx.set(best, at_t);
        assert(idx@ =~= before.update(t as int, at_best).update(best as int, at_t));
        assert forall|j: int| 0 <= j < n implies #[trigger] occurs(idx@, j) by {
            assert(occurs(before, j));
            let r = choose|r: int| 0 <= r < n && before[r] == j;
            if r == t {
                assert(idx@[best as int] == j);
            } else if r == best {
                assert(idx@[t as int] == j);
            } else {
                assert(idx@[r] == j);
            }
        }
        assert forall|p: int, r: int| 0 <= p < r < n implies #[trigger] idx@[p] != #[trigger] idx@[r] by {
            let op = if p == t { best as int } else if p == best { t as int } else { p };
            let or = if r == t { best as int } else if r == best { t as int } else { r };
            assert(idx@[p] == before[op] && idx@[r] == before[or]);
            assert(op != or);
            if op < or { assert(before[op] != before[or]); } else { assert(before[or] != before[op]); }
        }
        assert forall|x: int, y: int| 0 <= x < y < t + 1 implies ranks_before(scores@, #[trigger] idx@[x] as int, #[trigger] idx@[y] as int) by {
            if y < t {
                assert(idx@[x] == before[x] && idx@[y] == before[y]);
            } else {
                assert(idx@[x] == before[x] && idx@[y] == before[best as int]);
            }
        }
        assert forall|x: int, p: int| 0 <= x < t + 1 && t + 1 <= p < n implies ranks_before(scores@, #[trigger] idx@[x] as int, #[trigger] idx@[p] as int) by {
            let op = if p == best { t as int } else { p };
            assert(idx@[p] == before[op]);
            if x < t {
                assert(idx@[x] == before[x]);
            } else {
                assert(idx@[x] == before[best as int]);
                assert(op != best);
                if op < best {
                    assert(before[op] != before[best as int]);
                } else {
                    assert(before[best as int] != before[op]);
                }
            }
        }
    }
    let mut top: Vec<usize> = Vec::new();
    for x in 0..m
        invariant
            m <= n,
            idx@.len() == n,
            top@ == idx@.take(x as int),
    {
        top.push(idx[x]);
        assert(top@ =~= idx@.take(x + 1));
    }
    assert forall|x: int, j: int| 0 <= x < top@.len() && 0 <= j < scores@.len() && !top@.contains(j as usize) implies
        #[trigger] ranks_before(scores@, top@[x] as int, j) by {
        assert(occurs(idx@, j));
        let r = choose|r: int| 0 <= r < n && #[trigger] idx@[r] == j;
        if r < m {
            assert(top@[r] == idx@[r]);
            assert(top@.contains(j as usize));
        }
        assert(top@[x] == idx@[x]);
        assert(ranks_before(scores@, idx@[x] as int, idx@[r] as int));
    }
    top
}

} // verus!
