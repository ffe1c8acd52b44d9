//! Draft heads with a vocabulary of their own: the map from head rows to tokens, heads that are
//! gathered from the model's own, and draft heads in files of their own.

use vstd::prelude::*;
use vstd::slice::slice_subrange;
use vstd::string::*;

use crate::bytes;
use crate::config::ModelConfig;
use crate::loader;
use crate::loader::{Catalog, How, Need, Role, Want};
use crate::model_load;
use crate::trim;

verus! {

/// Width of a stored token id.
#[derive(Clone, Copy, Debug, PartialEq, Eq, Structural)]
pub enum IdWidth {
    I32,
    I64,
}

impl IdWidth {
    pub open spec fn bytes(&self) -> nat {
        match *self {
            IdWidth::I32 => 4,
            IdWidth::I64 => 8,
        }
    }
}

/// The stored ids, each cut to its low 32 bits; a last incomplete id is passed over.
pub open spec fn stored_ids(raw: Seq<u8>, width: nat) -> Seq<u32> {
    Seq::new(
        (raw.len() as int / width as int) as nat,
        |i: int| bytes::le_value(raw.subrange(i * width, i * width + 4)) as u32,
    )
}

/// Reads a map from head rows to tokens.
pub fn decode_d2t(raw: &[u8], width: IdWidth) -> (r: Vec<u32>)
    ensures
        r@ == stored_ids(raw@, width.bytes()),
{
    let w: usize = match width {
        IdWidth::I32 => 4,
        IdWidth::I64 => 8,
    };
    let n: usize = raw.len() / w;
    let mut out: Vec<u32> = Vec::new();
    let mut i: usize = 0;
    while i < n
        invariant
            i <= n,
            w == width.bytes(),
            w == 4 || w == 8,
            n == raw@.len() as int / w as int,
            raw@.len() <= usize::MAX,
            out@ == stored_ids(raw@, w as nat).take(i as int),
        decreases n - i,
    {
        assert(i * w + w <= raw@.len()) by (nonlinear_arith)
            requires
                i < n,
                n == raw@.len() as int / w as int,
                w == 4 || w == 8,
        ;
        let v = bytes::read_le(raw, i * w, 4);
        assert(bytes::pow256(4) == 0x1_0000_0000) by {
            reveal_with_fuel(bytes::pow256, 5);
        }
        out.push(v as u32);
        assert(out@ =~= stored_ids(raw@, w as nat).take(i + 1));
        i += 1;
    }
    assert(stored_ids(raw@, w as nat).take(n as int) =~= stored_ids(raw@, w as nat));
    out
}

/// The stored 64-bit numbers; a last incomplete one is passed over.
pub open spec fn stored_i64(raw: Seq<u8>) -> Seq<i64> {
    Seq::new(
        (raw.len() as int / 8) as nat,
        |i: int| bytes::as_signed(bytes::le_value(raw.subrange(i * 8, i * 8 + 8))) as i64,
    )
}

/// Reads 64-bit numbers.
pub fn read_i64(raw: &[u8]) -> (r: Vec<i64>)
    ensures
        r@ == stored_i64(raw@),
{
    let n: usize = raw.len() / 8;
    let mut out: Vec<i64> = Vec::new();
    let mut i: usize = 0;
    while i < n
        invariant
            i <= n,
            n == raw@.len() as int / 8,
            raw@.len() <= usize::MAX,
            out@ == stored_i64(raw@).take(i as int),
        decreases n - i,
    {
        out.push(bytes::read_i64_le(raw, i * 8));
        assert(out@ =~= stored_i64(raw@).take(i + 1));
        i += 1;
    }
    assert(stored_i64(raw@).take(n as int) =~= stored_i64(raw@));
    out
}

/// Why a map does not fit a head.
#[derive(Clone, Copy, Debug, PartialEq, Eq, Structural)]
pub enum MapError {
    /// The map and the head have different numbers of rows.
    Len { map: usize, rows: usize },
    /// The map names a token that the model does not have.
    Token { index: usize },
}

/// The first entry of `map` that is no token below `n`.
pub open spec fn first_beyond(map: Seq<u32>, n: int) -> Option<int>
    decreases map.len(),
{
    if map.len() == 0 {
        None
    } else {
        match first_beyond(map.drop_last(), n) {
            Some(i) => Some(i),
            None => if map.last() >= n {
                Some(map.len() - 1)
            } else {
                None
            },
        }
    }
}

proof fn lemma_none_beyond(map: Seq<u32>, n: int)
    requires
        first_beyond(map, n) is None,
    ensures
        forall|i: int| 0 <= i < map.len() ==> #[trigger] map[i] < n,
    decreases map.len(),
{
    if map.len() > 0 {
        lemma_none_beyond(map.drop_last(), n);
        assert forall|i: int| 0 <= i < map.len() implies #[trigger] map[i] < n by {
            if i < map.len() - 1 {
                assert(map.drop_last()[i] == map[i]);
            }
        }
    }
}

proof fn lemma_beyond_prefix(map: Seq<u32>, n: int, k: int)
    requires
        0 <= k <= map.len(),
        first_beyond(map.take(k), n) is Some,
    ensures
        first_beyond(map, n) == first_beyond(map.take(k), n),
    decreases map.len(),
{
    if k == map.len() {
        assert(map.take(k) =~= map);
    } else {
        assert(map.drop_last().take(k) =~= map.take(k));
        lemma_beyond_prefix(map.drop_last(), n, k);
    }
}

/// Finds the first entry of `map` that is no token below `n`.
pub fn find_beyond(map: &[u32], n: u64) -> (r: Option<usize>)
    ensures
        match r {
            Some(i) => first_beyond(map@, n as int) == Some(i as int),
            None => first_beyond(map@, n as int) is None && forall|i: int|
                0 <= i < map@.len() ==> #[trigger] map@[i] < n,
        },
{
    let mut i: usize = 0;
    while i < map.len()
        invariant
            i <= map@.len(),
            first_beyond(map@.take(i as int), n as int) is None,
        decreases map@.len() - i,
    {
        assert(map@.take(i + 1).drop_last() =~= map@.take(i as int));
        if map[i] as u64 >= n {
            proof {
                lemma_beyond_prefix(map@, n as int, i + 1);
            }
            return Some(i);
        }
        i += 1;
    }
    proof {
        assert(map@.take(map@.len() as int) =~= map@);
        lemma_none_beyond(map@, n as int);
    }
    None
}

/// Checks that a map names one token of the model for every head row.
pub fn check_map(map: &[u32], rows: usize, n_vocab: u64) -> (r: Result<(), MapError>)
    ensures
        match r {
            Ok(()) => map@.len() == rows && forall|i: int|
                0 <= i < map@.len() ==> #[trigger] map@[i] < n_vocab,
            Err(MapError::Len { map: m, rows: n }) => m == map@.len() && n == rows && map@.len()
                != rows,
            Err(MapError::Token { index }) => map@.len() == rows && first_beyond(
                map@,
                n_vocab as int,
            ) == Some(index as int),
        },
{
    if map.len() != rows {
        return Err(MapError::Len { map: map.len(), rows });
    }
    match find_beyond(map, n_vocab) {
        Some(index) => Err(MapError::Token { index }),
        None => Ok(()),
    }
}

/// The rows of `table` for the tokens of `ids`, one after the other.
pub open spec fn gathered(table: Seq<u8>, row_bytes: nat, ids: Seq<u32>) -> Seq<u8>
    decreases ids.len(),
{
    if ids.len() == 0 {
        Seq::empty()
    } else {
        gathered(table, row_bytes, ids.drop_last()) + trim::row(
            table,
            row_bytes,
            ids.last() as int,
        )
    }
}

/// Row `k` of a gathered head is the model's row for token `k` of the map: the draft's logits are
/// the model's logits of those tokens.
pub proof fn law_gathered_rows(table: Seq<u8>, row_bytes: nat, ids: Seq<u32>, k: int)
    requires
        0 <= k < ids.len(),
        forall|i: int|
            0 <= i < ids.len() ==> (#[trigger] ids[i] + 1) * row_bytes <= table.len(),
    ensures
        gathered(table, row_bytes, ids).len() == ids.len() * row_bytes,
        trim::row(gathered(table, row_bytes, ids), row_bytes, k) == trim::row(
            table,
            row_bytes,
            ids[k] as int,
        ),
    decreases ids.len(),
{
    lemma_gathered_len(table, row_bytes, ids);
    let d = ids.drop_last();
    lemma_gathered_len(table, row_bytes, d);
    let g = gathered(table, row_bytes, ids);
    let gd = gathered(table, row_bytes, d);
    let last = trim::row(table, row_bytes, ids.last() as int);
    assert(last.len() == row_bytes) by {
        assert((ids[ids.len() - 1] + 1) * row_bytes <= table.len());
        lemma_row_len(table, row_bytes, ids.last() as int);
    }
    if k == ids.len() - 1 {
        assert(k * row_bytes == gd.len());
        assert((k + 1) * row_bytes == k * row_bytes + row_bytes) by (nonlinear_arith);
        assert(trim::row(g, row_bytes, k) =~= last);
    } else {
        assert forall|i: int| 0 <= i < d.len() implies (#[trigger] d[i] + 1) * row_bytes
            <= table.len() by {
            assert(d[i] == ids[i]);
        }
        law_gathered_rows(table, row_bytes, d, k);
        assert((k + 1) * row_bytes <= d.len() * row_bytes) by (nonlinear_arith)
            requires
                k + 1 <= d.len(),
        ;
        assert((k + 1) * row_bytes == k * row_bytes + row_bytes) by (nonlinear_arith);
        assert(0 <= k * row_bytes) by (nonlinear_arith)
            requires
                0 <= k,
        ;
        assert(trim::row(g, row_bytes, k) =~= trim::row(gd, row_bytes, k));
    }
}

proof fn lemma_row_len(table: Seq<u8>, row_bytes: nat, i: int)
    requires
        0 <= i,
        (i + 1) * row_bytes <= table.len(),
    ensures
        trim::row(table, row_bytes, i).len() == row_bytes,
{
    assert((i + 1) * row_bytes == i * row_bytes + row_bytes) by (nonlinear_arith);
    assert(0 <= i * row_bytes) by (nonlinear_arith)
        requires
            0 <= i,
    ;
}

proof fn lemma_gathered_len(table: Seq<u8>, row_bytes: nat, ids: Seq<u32>)
    requires
        forall|i: int|
            0 <= i < ids.len() ==> (#[trigger] ids[i] + 1) * row_bytes <= table.len(),
    ensures
        gathered(table, row_bytes, ids).len() == ids.len() * row_bytes,
    decreases ids.len(),
{
    if ids.len() > 0 {
        let d = ids.drop_last();
        assert forall|i: int| 0 <= i < d.len() implies (#[trigger] d[i] + 1) * row_bytes
            <= table.len() by {
            assert(d[i] == ids[i]);
        }
        lemma_gathered_len(table, row_bytes, d);
        assert((ids[ids.len() - 1] + 1) * row_bytes <= table.len());
        lemma_row_len(table, row_bytes, ids.last() as int);
        assert(d.len() * row_bytes + row_bytes == ids.len() * row_bytes) by (nonlinear_arith)
            requires
                ids.len() == d.len() + 1,
        ;
    } else {
        assert(0 * row_bytes == 0);
    }
}

/// Gathers a draft head from the model's own of `out_f` rows: its rows for the tokens of `d2t`.
/// Fails with the index of the first token that the head has no row for.
pub fn gather_head(table: &[u8], out_f: usize, d2t: &[u32]) -> (r: Result<Vec<u8>, usize>)
    requires
        out_f > 0,
    ensures
        match r {
            Ok(head) => first_beyond(d2t@, out_f as int) is None && head@ == gathered(
                table@,
                (table@.len() as int / out_f as int) as nat,
                d2t@,
            ),
            Err(i) => first_beyond(d2t@, out_f as int) == Some(i as int),
        },
{
    match find_beyond(d2t, out_f as u64) {
        Some(i) => {
            return Err(i);
        },
        None => {},
    }
    let row_bytes: usize = table.len() / out_f;
    let mut head: Vec<u8> = Vec::new();
    let mut i: usize = 0;
    while i < d2t.len()
        invariant
            i <= d2t@.len(),
            out_f > 0,
            row_bytes == table@.len() as int / out_f as int,
            table@.len() <= usize::MAX,
            forall|k: int| 0 <= k < d2t@.len() ==> #[trigger] d2t@[k] < out_f,
            head@ == gathered(table@, row_bytes as nat, d2t@.take(i as int)),
        decreases d2t@.len() - i,
    {
        let t: usize = d2t[i] as usize;
        assert((t + 1) * row_bytes <= table@.len()) by (nonlinear_arith)
            requires
                t < out_f,
                row_bytes == table@.len() as int / out_f as int,
                out_f > 0,
        ;
        assert((t + 1) * row_bytes == t * row_bytes + row_bytes) by (nonlinear_arith);
        let off: usize = t * row_bytes;
        let row = slice_subrange(table, off, off + row_bytes);
        assert(row@ =~= trim::row(table@, row_bytes as nat, t as int));
        head.extend_from_slice(row);
        assert(d2t@.take(i + 1).drop_last() =~= d2t@.take(i as int));
        i += 1;
    }
    assert(d2t@.take(d2t@.len() as int) =~= d2t@);
    Ok(head)
}

/// A draft head in a file of its own that does not fit the model.
#[derive(Debug)]
pub enum DraftError {
    NEmbd,
    NHead,
    NHeadKv,
    HeadDim,
    /// The file holds no draft block.
    NoDraft,
    /// A required tensor is missing.
    Missing { name: String },
}

/// What is loaded of a draft file.
#[derive(Debug)]
pub struct DraftPlan {
    /// The draft block's number in the file.
    pub block: usize,
    pub loads: Vec<Want>,
    pub moe: bool,
}

/// Everything of a draft file: its head, the norm before it under either of its names, and the
/// draft block.
pub open spec fn draft_file_wants(cfg: ModelConfig, cat: Catalog) -> Seq<loader::WantView> {
    let il = cfg.trunk() as nat;
    let own = loader::blk_name(il, "nextn.shared_head_norm.weight"@);
    seq![
        model_load::named("output.weight"@, Role::SharedHead, How::Device, Need::Required),
        model_load::named(
            if cat.lists(own) {
                own
            } else {
                "output_norm.weight"@
            },
            Role::SharedHeadNorm,
            How::Device,
            Need::Optional,
        ),
    ] + model_load::draft_wants(cfg, cat, il, false)
}

/// The draft block has the model's shape.
pub open spec fn same_shape(draft: ModelConfig, main: ModelConfig) -> bool {
    &&& draft.n_embd == main.n_embd
    &&& draft.n_head == main.n_head
    &&& draft.n_head_kv == main.n_head_kv
    &&& draft.head_dim_k == main.head_dim_k
}

/// Plans a draft head from a file of its own. The block runs with the main model's settings, so
/// it has to have the main model's shape.
pub fn load_draft(draft: &ModelConfig, main: &ModelConfig, cat: &Catalog) -> (r: Result<
    DraftPlan,
    DraftError,
>)
    requires
        draft.nextn_predict_layers <= draft.n_layer,
        draft.moe matches Some(m) ==> 2 * m.expert_ff_length <= usize::MAX,
    ensures
        ({
            let ws = draft_file_wants(*draft, *cat);
            match r {
                Ok(p) => {
                    &&& same_shape(*draft, *main) && draft.nextn_predict_layers > 0
                    &&& p.block == draft.trunk()
                    &&& loader::first_unmet(ws, *cat) is None
                    &&& loader::views(p.loads@) == loader::kept(ws, *cat)
                    &&& p.moe == loader::routes(*draft, *cat, draft.trunk() as nat)
                },
                Err(DraftError::NEmbd) => draft.n_embd != main.n_embd,
                Err(DraftError::NHead) => draft.n_embd == main.n_embd && draft.n_head
                    != main.n_head,
                Err(DraftError::NHeadKv) => draft.n_embd == main.n_embd && draft.n_head
                    == main.n_head && draft.n_head_kv != main.n_head_kv,
                Err(DraftError::HeadDim) => draft.n_embd == main.n_embd && draft.n_head
                    == main.n_head && draft.n_head_kv == main.n_head_kv && draft.head_dim_k
                    != main.head_dim_k,
                Err(DraftError::NoDraft) => same_shape(*draft, *main)
                    && draft.nextn_predict_layers == 0,
                Err(DraftError::Missing { name }) => {
                    &&& same_shape(*draft, *main) && draft.nextn_predict_layers > 0
                    &&& loader::first_unmet(ws, *cat) matches Some(i) && name@ == ws[i].name
                },
            }
        }),
{
    if draft.n_embd != main.n_embd {
        return Err(DraftError::NEmbd);
    }
    if draft.n_head != main.n_head {
        return Err(DraftError::NHead);
    }
    if draft.n_head_kv != main.n_head_kv {
        return Err(DraftError::NHeadKv);
    }
    if draft.head_dim_k != main.head_dim_k {
        return Err(DraftError::HeadDim);
    }
    if draft.nextn_predict_layers == 0 {
        return Err(DraftError::NoDraft);
    }
    let block = draft.n_trunk();
    let mut ws: Vec<Want> = Vec::new();
    loader::push_want(
        &mut ws,
        "output.weight".to_owned(),
        Role::SharedHead,
        How::Device,
        Need::Required,
    );
    let own = loader::blk(block, "nextn.shared_head_norm.weight");
    let norm = if cat.has(&own) {
        own
    } else {
        "output_norm.weight".to_owned()
    };
    loader::push_want(&mut ws, norm, Role::SharedHeadNorm, How::Device, Need::Optional);
    let moe = model_load::push_draft(&mut ws, draft, cat, block, false);
    assert(loader::views(ws@) =~= draft_file_wants(*draft, *cat));
    match loader::resolve(&ws, cat) {
        Ok(loads) => Ok(DraftPlan { block, loads, moe }),
        Err(name) => Err(DraftError::Missing { name }),
    }
}

/// The entry that is found names no token, and none before it does not; where none is found, all
/// name tokens.
pub proof fn law_first_beyond(map: Seq<u32>, n: int)
    ensures
        match first_beyond(map, n) {
            Some(i) => 0 <= i < map.len() && map[i] >= n && forall|j: int|
                0 <= j < i ==> #[trigger] map[j] < n,
            None => forall|j: int| 0 <= j < map.len() ==> #[trigger] map[j] < n,
        },
    decreases map.len(),
{
    if map.len() > 0 {
        let d = map.drop_last();
        law_first_beyond(d, n);
        match first_beyond(d, n) {
            Some(i) => {
                assert(d[i] == map[i]);
                assert forall|j: int| 0 <= j < i implies #[trigger] map[j] < n by {
                    assert(d[j] == map[j]);
                }
            },
            None => {
                assert forall|j: int| 0 <= j < map.len() - 1 implies #[trigger] map[j] < n by {
                    assert(d[j] == map[j]);
                }
            },
        }
    }
}

/// Ids read back as they were stored, in either width.
pub proof fn law_ids_read_back(raw: Seq<u8>, width: IdWidth, ids: Seq<u32>)
    requires
        raw.len() == ids.len() * width.bytes(),
        forall|i: int|
            0 <= i < ids.len() ==> #[trigger] raw.subrange(
                i * width.bytes(),
                i * width.bytes() + width.bytes(),
            ) == bytes::le_bytes(ids[i] as nat, width.bytes()),
    ensures
        stored_ids(raw, width.bytes()) == ids,
{
    let w = width.bytes() as int;
    let r = stored_ids(raw, width.bytes());
    assert(raw.len() as int / w == ids.len()) by (nonlinear_arith)
        requires
            raw.len() == ids.len() * w,
            w > 0,
    ;
    assert forall|i: int| 0 <= i < ids.len() implies r[i] == ids[i] by {
        let v = ids[i] as nat;
        assert(raw.subrange(i * w, i * w + w) == bytes::le_bytes(v, w as nat));
        assert(0 <= i * w && i * w + w <= raw.len()) by (nonlinear_arith)
            requires
                0 <= i < ids.len(),
                raw.len() == ids.len() * w,
                w > 0,
        ;
        reveal_with_fuel(bytes::le_bytes, 9);
        reveal_with_fuel(bytes::pow256, 5);
        bytes::law_le_reads_back(v, 4);
        assert(raw.subrange(i * w, i * w + 4) =~= raw.subrange(i * w, i * w + w).take(4));
        assert(bytes::le_bytes(v, w as nat).take(4) =~= bytes::le_bytes(v, 4));
    }
    assert(r =~= ids);
}

/// Signed numbers read back as they were stored, in two's complement.
pub proof fn law_signed_read_back(raw: Seq<u8>, vs: Seq<i64>)
    requires
        raw.len() == vs.len() * 8,
        forall|i: int|
            0 <= i < vs.len() ==> #[trigger] raw.subrange(i * 8, i * 8 + 8) == bytes::le_bytes(
                (if vs[i] < 0 {
                    vs[i] + 0x1_0000_0000_0000_0000
                } else {
                    vs[i] as int
                }) as nat,
                8,
            ),
    ensures
        stored_i64(raw) == vs,
{
    let r = stored_i64(raw);
    assert(raw.len() as int / 8 == vs.len());
    assert forall|i: int| 0 <= i < vs.len() implies r[i] == vs[i] by {
        let v = (if vs[i] < 0 {
            vs[i] + 0x1_0000_0000_0000_0000
        } else {
            vs[i] as int
        }) as nat;
        reveal_with_fuel(bytes::pow256, 9);
        assert(raw.subrange(i * 8, i * 8 + 8) == bytes::le_bytes(v, 8));
        bytes::law_le_reads_back(v, 8);
    }
    assert(r =~= vs);
}

} // verus!
