//! The two caches of a hybrid model: growing keys and values of the full-attention layers, and
//! fixed recurrent states of the others. Floats are held as their bits.

use vstd::prelude::*;

use crate::config::{LayerKind, ModelConfig, SsmConfig};

verus! {

/// Keys and values of one full-attention layer, one row per token.
pub struct KvLayer {
    pub k: Vec<u32>,
    pub v: Vec<u32>,
    /// Width of a row.
    pub kv_dim: usize,
    /// Rows held.
    pub len: usize,
}

/// Recurrent state of one linear-attention layer.
pub struct RecurLayer {
    /// The last convolution inputs, channel by channel.
    pub conv_state: Vec<u32>,
    pub ssm_state: Vec<u32>,
}

/// The caches of one sequence.
pub struct Cache {
    pub kv: Vec<Option<KvLayer>>,
    pub recur: Vec<Option<RecurLayer>>,
    /// Position of the next token.
    pub pos: usize,
}

impl KvLayer {
    /// No rows yet.
    pub open spec fn is_empty(&self, cfg: ModelConfig) -> bool {
        &&& self.k@.len() == 0
        &&& self.v@.len() == 0
        &&& self.kv_dim == cfg.kv_dim()
        &&& self.len == 0
    }
}

impl RecurLayer {
    /// All zeros, of the model's size.
    pub open spec fn is_zero(&self, cfg: ModelConfig) -> bool {
        let s = cfg.ssm->Some_0;
        &&& self.conv_state@ == Seq::new(s.ring_len() as nat, |i: int| 0u32)
        &&& self.ssm_state@ == Seq::new(s.state_len() as nat, |i: int| 0u32)
    }
}

/// Row widths fit, and a model with linear-attention layers says how large their states are.
pub open spec fn cacheable(cfg: ModelConfig) -> bool {
    &&& cfg.kv_dim() <= usize::MAX
    &&& cfg.ssm matches Some(s) ==> s.conv_dim() <= usize::MAX
    &&& forall|il: int|
        0 <= il < cfg.n_layer && #[trigger] cfg.kind_of(il) == LayerKind::LinearAttention
            ==> cfg.ssm is Some && cfg.ssm->0.fits()
}

/// Layer `il` of fresh caches.
pub open spec fn fresh(
    cfg: ModelConfig,
    kv: Option<KvLayer>,
    recur: Option<RecurLayer>,
    il: int,
) -> bool {
    match cfg.kind_of(il) {
        LayerKind::FullAttention => recur is None && (kv matches Some(k) && k.is_empty(cfg)),
        LayerKind::LinearAttention => kv is None && (recur matches Some(r) && r.is_zero(cfg)),
    }
}

/// The recurrent state of a fresh layer.
fn zero_state(s: &SsmConfig) -> (r: RecurLayer)
    requires
        s.fits(),
    ensures
        r.conv_state@ == Seq::new(s.ring_len() as nat, |i: int| 0u32),
        r.ssm_state@ == Seq::new(s.state_len() as nat, |i: int| 0u32),
{
    proof {
        lemma_state_order(*s);
    }
    let ring: usize = (s.state_size * s.group_count * 2 + s.state_size * s.time_step_rank) * (
    s.conv_kernel - 1);
    let state: usize = s.state_size * s.state_size * s.time_step_rank;
    let r = RecurLayer { conv_state: vec![0u32; ring], ssm_state: vec![0u32; state] };
    assert(r.conv_state@ =~= Seq::new(ring as nat, |i: int| 0u32));
    assert(r.ssm_state@ =~= Seq::new(state as nat, |i: int| 0u32));
    r
}

impl Cache {
    /// Empty caches for a model.
    pub fn new(cfg: &ModelConfig) -> (r: Cache)
        requires
            cacheable(*cfg),
        ensures
            r.pos == 0,
            r.kv@.len() == cfg.n_layer,
            r.recur@.len() == cfg.n_layer,
            forall|il: int|
                0 <= il < cfg.n_layer ==> fresh(*cfg, #[trigger] r.kv@[il], r.recur@[il], il),
    {
        let mut kv: Vec<Option<KvLayer>> = Vec::new();
        let mut recur: Vec<Option<RecurLayer>> = Vec::new();
        assert(cfg.head_dim_k * cfg.n_head_kv == cfg.kv_dim()) by (nonlinear_arith);
        let kv_dim: usize = cfg.head_dim_k * cfg.n_head_kv;
        let mut il: usize = 0;
        while il < cfg.n_layer
            invariant
                il <= cfg.n_layer,
                cacheable(*cfg),
                kv_dim == cfg.kv_dim(),
                kv@.len() == il,
                recur@.len() == il,
                forall|k: int|
                    0 <= k < il ==> fresh(*cfg, #[trigger] kv@[k], recur@[k], k),
            decreases cfg.n_layer - il,
        {
            assert(cfg.kind_of(il as int) == LayerKind::LinearAttention ==> cfg.ssm is Some
                && cfg.ssm->0.fits());
            match cfg.layer_kind(il) {
                LayerKind::FullAttention => {
                    kv.push(Some(KvLayer { k: Vec::new(), v: Vec::new(), kv_dim, len: 0 }));
                    recur.push(None);
                },
                LayerKind::LinearAttention => {
                    kv.push(None);
                    recur.push(
                        match &cfg.ssm {
                            Some(ssm) => Some(zero_state(ssm)),
                            None => None,
                        },
                    );
                },
            }
            il += 1;
        }
        Cache { kv, recur, pos: 0 }
    }
}

proof fn lemma_state_order(s: SsmConfig)
    requires
        s.fits(),
    ensures
        s.state_size * s.group_count * 2 == s.key_dim() * 2,
        s.state_size * s.group_count <= usize::MAX,
        s.state_size * s.group_count * 2 <= usize::MAX,
        s.state_size * s.time_step_rank <= usize::MAX,
{
    assert(0 <= s.key_dim() && 0 <= s.value_dim()) by (nonlinear_arith)
        requires
            0 <= s.state_size,
            0 <= s.group_count,
            0 <= s.time_step_rank,
            s.key_dim() == s.state_size * s.group_count,
            s.value_dim() == s.state_size * s.time_step_rank,
    ;
}

} // verus!
