//! Loading plans of the draft models, and the settings that their checkpoints carry as text.

use vstd::prelude::*;
use vstd::slice::slice_subrange;
use vstd::string::*;

use crate::loader;
use crate::loader::{Catalog, How, Need, Role, Want};
use crate::model_load;
use crate::settings;
use crate::text;
use crate::text::ListError;

verus! {

/// Characters that a number may be made of.
pub open spec fn in_number(c: char) -> bool {
    text::is_digit(c) || c == '.' || c == '-' || c == 'e' || c == 'E' || c == '+'
}

/// The longest start of `s` that is made of such characters.
pub open spec fn number_start(s: Seq<char>) -> Seq<char>
    decreases s.len(),
{
    if s.len() > 0 && in_number(s[0]) {
        seq![s[0]] + number_start(s.skip(1))
    } else {
        Seq::empty()
    }
}

/// What stands in `txt` after the colon that follows `key`; the search for the colon starts at
/// the key.
pub open spec fn after_colon(txt: Seq<char>, key: Seq<char>) -> Option<Seq<char>> {
    match text::find(txt, text::quoted(key)) {
        Some(i) => match text::find_char(txt.skip(i), ':') {
            Some(c) => Some(txt.skip(i).skip(c + 1)),
            None => None,
        },
        None => None,
    }
}

/// The number of `key`, as text: what follows the colon, as far as it looks like a number.
pub open spec fn dflash_number(txt: Seq<char>, key: Seq<char>) -> Option<Seq<char>> {
    match after_colon(txt, key) {
        Some(t) => Some(number_start(text::trim_left(t))),
        None => None,
    }
}

fn is_in_number(c: char) -> (r: bool)
    ensures
        r == in_number(c),
{
    let v: u32 = c as u32;
    (48 <= v && v <= 57) || c == '.' || c == '-' || c == 'e' || c == 'E' || c == '+'
}

fn take_number(s: &[char]) -> (r: &[char])
    ensures
        r@ == number_start(s@),
{
    let n = s.len();
    let mut i: usize = 0;
    assert(s@.take(0) + number_start(s@.skip(0)) =~= number_start(s@)) by {
        assert(s@.skip(0) =~= s@);
    }
    while i < n && is_in_number(s[i])
        invariant
            i <= n,
            n == s@.len(),
            s@.take(i as int) + number_start(s@.skip(i as int)) == number_start(s@),
        decreases n - i,
    {
        let ghost t = s@.skip(i as int);
        assert(t.skip(1) =~= s@.skip(i + 1));
        assert(s@.take(i + 1) + number_start(s@.skip(i + 1)) =~= s@.take(i as int) + number_start(
            t,
        ));
        i += 1;
    }
    assert(number_start(s@.skip(i as int)) =~= Seq::<char>::empty());
    assert(s@.subrange(0, i as int) =~= s@.take(i as int));
    assert(s@.take(i as int) =~= number_start(s@));
    slice_subrange(s, 0, i)
}

/// Finds the number of `key`, as text.
pub fn dflash_number_of<'a>(txt: &'a [char], key: &str) -> (r: Option<&'a [char]>)
    ensures
        match r {
            Some(t) => dflash_number(txt@, key@) == Some(t@),
            None => dflash_number(txt@, key@) is None,
        },
{
    let pat = text::quoted_key(key);
    match text::position_of_text(txt, pat.as_slice()) {
        Some(i) => {
            let rest = slice_subrange(txt, i, txt.len());
            assert(rest@ =~= txt@.skip(i as int));
            match text::position_of(rest, ':') {
                Some(c) => {
                    let t = slice_subrange(rest, c + 1, rest.len());
                    assert(t@ =~= rest@.skip(c + 1));
                    Some(take_number(text::trim_start(t)))
                },
                None => None,
            }
        },
        None => None,
    }
}

/// The list of `key`: the numbers between the brackets that follow the key.
pub open spec fn dflash_list(txt: Seq<char>, key: Seq<char>) -> Result<Seq<nat>, ListError> {
    match text::find(txt, text::quoted(key)) {
        Some(i) => match text::brackets(txt.skip(i)) {
            Ok(t) => Ok(text::numbers_in(text::fields(t, ','), usize::MAX as nat)),
            Err(ListError::Crossed) => Err(ListError::Crossed),
            Err(_) => Ok(Seq::empty()),
        },
        None => Ok(Seq::empty()),
    }
}

/// Finds the list of `key`; none where the key or a bracket is missing. Fails where the brackets
/// are crossed.
pub fn dflash_list_of(txt: &[char], key: &str) -> (r: Result<Vec<usize>, ListError>)
    ensures
        match r {
            Ok(v) => dflash_list(txt@, key@) == Ok::<Seq<nat>, ListError>(
                v@.map_values(|x: usize| x as nat),
            ),
            Err(e) => dflash_list(txt@, key@) == Err::<Seq<nat>, ListError>(e),
        },
{
    let pat = text::quoted_key(key);
    match text::position_of_text(txt, pat.as_slice()) {
        Some(i) => {
            let rest = slice_subrange(txt, i, txt.len());
            assert(rest@ =~= txt@.skip(i as int));
            match text::bracketed(rest) {
                Ok(t) => Ok(size_fields(t)),
                Err(ListError::Crossed) => Err(ListError::Crossed),
                Err(_) => {
                    let v: Vec<usize> = Vec::new();
                    assert(v@.map_values(|x: usize| x as nat) =~= Seq::<nat>::empty());
                    Ok(v)
                },
            }
        },
        None => {
            let v: Vec<usize> = Vec::new();
            assert(v@.map_values(|x: usize| x as nat) =~= Seq::<nat>::empty());
            Ok(v)
        },
    }
}

/// The sizes among comma-separated fields.
fn size_fields(s: &[char]) -> (r: Vec<usize>)
    ensures
        r@.map_values(|x: usize| x as nat) == text::numbers_in(
            text::fields(s@, ','),
            usize::MAX as nat,
        ),
{
    let v = text::numbers(s, ',', usize::MAX as u64);
    let r = text::sizes(v.as_slice());
    assert(r@.map_values(|x: usize| x as nat) =~= v@.map_values(|x: u64| x as nat));
    r
}

/// Why the layer kinds cannot be read.
#[derive(Clone, Copy, Debug, PartialEq, Eq, Structural)]
pub enum KindsError {
    NoKey,
    List(ListError),
}

/// Per field, whether it names windowed attention.
pub open spec fn names_sliding(parts: Seq<Seq<char>>) -> Seq<bool> {
    parts.map_values(|p: Seq<char>| text::find(p, "sliding_attention"@) is Some)
}

/// Per layer, whether its attention is windowed.
pub open spec fn layer_sliding(txt: Seq<char>) -> Result<Seq<bool>, KindsError> {
    match text::find(txt, text::quoted("layer_types"@)) {
        Some(i) => match text::brackets(txt.skip(i)) {
            Ok(t) => Ok(names_sliding(text::fields(t, ','))),
            Err(e) => Err(KindsError::List(e)),
        },
        None => Err(KindsError::NoKey),
    }
}

/// Reads, per layer, whether its attention is windowed.
pub fn layer_sliding_of(txt: &[char]) -> (r: Result<Vec<bool>, KindsError>)
    ensures
        match r {
            Ok(v) => layer_sliding(txt@) == Ok::<Seq<bool>, KindsError>(v@),
            Err(e) => layer_sliding(txt@) == Err::<Seq<bool>, KindsError>(e),
        },
{
    let pat = text::quoted_key("layer_types");
    match text::position_of_text(txt, pat.as_slice()) {
        Some(i) => {
            let rest = slice_subrange(txt, i, txt.len());
            assert(rest@ =~= txt@.skip(i as int));
            match text::bracketed(rest) {
                Ok(t) => Ok(sliding_fields(t)),
                Err(e) => Err(KindsError::List(e)),
            }
        },
        None => Err(KindsError::NoKey),
    }
}

fn sliding_fields(s: &[char]) -> (r: Vec<bool>)
    ensures
        r@ == names_sliding(text::fields(s@, ',')),
{
    let word = text::chars_of("sliding_attention");
    let mut out: Vec<bool> = Vec::new();
    let mut rest = s;
    let ghost want = names_sliding(text::fields(s@, ','));
    assert(out@ + names_sliding(text::fields(rest@, ',')) =~= want);
    loop
        invariant
            word@ == "sliding_attention"@,
            want == names_sliding(text::fields(s@, ',')),
            out@ + names_sliding(text::fields(rest@, ',')) == want,
        decreases rest@.len(),
    {
        proof {
            text::lemma_find_char(rest@, ',');
        }
        let at = text::position_of(rest, ',');
        let n = rest.len();
        let end: usize = match at {
            Some(i) => i,
            None => n,
        };
        let field = slice_subrange(rest, 0, end);
        let ghost r0 = rest@;
        let ghost parts = text::fields(r0, ',');
        let ghost before = out@;
        assert(field@ =~= r0.take(end as int));
        assert(r0.take(n as int) =~= r0);
        assert(parts[0] == field@);
        out.push(text::position_of_text(field, word.as_slice()).is_some());
        assert(names_sliding(parts) =~= seq![names_sliding(parts)[0]] + names_sliding(
            parts.skip(1),
        ));
        assert(out@ + names_sliding(parts.skip(1)) =~= want);
        match at {
            Some(i) => {
                rest = slice_subrange(rest, i + 1, n);
                assert(rest@ =~= r0.skip(i + 1));
                assert(parts.skip(1) =~= text::fields(rest@, ','));
            },
            None => {
                assert(parts.skip(1) =~= Seq::<Seq<char>>::empty());
                assert(out@ =~= want);
                return out;
            },
        }
    }
}

/// The longest start of `s` before a comma, a closing brace or a line end.
pub open spec fn value_start(s: Seq<char>) -> Seq<char>
    decreases s.len(),
{
    if s.len() > 0 && s[0] != ',' && s[0] != '}' && s[0] != '\n' {
        seq![s[0]] + value_start(s.skip(1))
    } else {
        Seq::empty()
    }
}

/// The value of `key`, as text: what follows the colon behind the key, up to a comma, a closing
/// brace or a line end.
pub open spec fn eagle_number(txt: Seq<char>, key: Seq<char>) -> Option<Seq<char>> {
    let pat = text::quoted(key);
    match text::find(txt, pat) {
        Some(i) => {
            let rest = txt.skip(i + pat.len());
            match text::find_char(rest, ':') {
                Some(c) => Some(text::trim(value_start(text::trim_left(rest.skip(c + 1))))),
                None => None,
            }
        },
        None => None,
    }
}

fn take_value(s: &[char]) -> (r: &[char])
    ensures
        r@ == value_start(s@),
{
    let n = s.len();
    let mut i: usize = 0;
    assert(s@.take(0) + value_start(s@.skip(0)) =~= value_start(s@)) by {
        assert(s@.skip(0) =~= s@);
    }
    while i < n && s[i] != ',' && s[i] != '}' && s[i] != '\n'
        invariant
            i <= n,
            n == s@.len(),
            s@.take(i as int) + value_start(s@.skip(i as int)) == value_start(s@),
        decreases n - i,
    {
        let ghost t = s@.skip(i as int);
        assert(t.skip(1) =~= s@.skip(i + 1));
        assert(s@.take(i + 1) + value_start(s@.skip(i + 1)) =~= s@.take(i as int) + value_start(t));
        i += 1;
    }
    assert(value_start(s@.skip(i as int)) =~= Seq::<char>::empty());
    assert(s@.subrange(0, i as int) =~= s@.take(i as int));
    assert(s@.take(i as int) =~= value_start(s@));
    slice_subrange(s, 0, i)
}

/// Finds the value of `key`, as text.
pub fn eagle_number_of<'a>(txt: &'a [char], key: &str) -> (r: Option<&'a [char]>)
    ensures
        match r {
            Some(t) => eagle_number(txt@, key@) == Some(t@),
            None => eagle_number(txt@, key@) is None,
        },
{
    let pat = text::quoted_key(key);
    match text::position_of_text(txt, pat.as_slice()) {
        Some(i) => {
            let n = txt.len();
            let rest = slice_subrange(txt, i + pat.len(), n);
            assert(rest@ =~= txt@.skip(i + pat@.len()));
            match text::position_of(rest, ':') {
                Some(c) => {
                    let t = slice_subrange(rest, c + 1, rest.len());
                    assert(t@ =~= rest@.skip(c + 1));
                    Some(text::trimmed(take_value(text::trim_start(t))))
                },
                None => None,
            }
        },
        None => None,
    }
}

/// The target layers that the encoder reads: those listed, or the three that the checkpoint was
/// trained on.
pub open spec fn aux_layers(txt: Seq<char>) -> Result<Seq<nat>, ListError> {
    let pat = text::quoted("eagle_aux_hidden_state_layer_ids"@);
    match text::find(txt, pat) {
        Some(i) => match text::brackets(txt.skip(i + pat.len())) {
            Ok(t) => Ok(text::numbers_in(text::fields(t, ','), usize::MAX as nat)),
            Err(e) => Err(e),
        },
        None => Ok(seq![1nat, 15nat, 28nat]),
    }
}

/// Reads the target layers that the encoder reads.
pub fn aux_layers_of(txt: &[char]) -> (r: Result<Vec<usize>, ListError>)
    ensures
        match r {
            Ok(v) => aux_layers(txt@) == Ok::<Seq<nat>, ListError>(
                v@.map_values(|x: usize| x as nat),
            ),
            Err(e) => aux_layers(txt@) == Err::<Seq<nat>, ListError>(e),
        },
{
    let pat = text::quoted_key("eagle_aux_hidden_state_layer_ids");
    match text::position_of_text(txt, pat.as_slice()) {
        Some(i) => {
            let n = txt.len();
            let rest = slice_subrange(txt, i + pat.len(), n);
            assert(rest@ =~= txt@.skip(i + pat@.len()));
            match text::bracketed(rest) {
                Ok(t) => Ok(size_fields(t)),
                Err(e) => Err(e),
            }
        },
        None => {
            let v: Vec<usize> = vec![1, 15, 28];
            assert(v@.map_values(|x: usize| x as nat) =~= seq![1nat, 15nat, 28nat]);
            Ok(v)
        },
    }
}

/// Whether the draft pairs the hidden states of a token with the embedding of the next: unless
/// the setting is the text `0`.
pub fn eagle_shift(setting: Option<&str>) -> (r: bool)
    ensures
        r == !settings::says(setting, '0'),
{
    !settings::setting_is(setting, '0')
}

/// Name of tensor `suffix` of layer `i`.
pub open spec fn layer_name(i: nat, suffix: Seq<char>) -> Seq<char> {
    "layers."@ + text::decimal(i) + "."@ + suffix
}

fn layer_tensor(i: usize, suffix: &str) -> (r: String)
    ensures
        r@ == layer_name(i as nat, suffix@),
{
    let mut s = "layers.".to_owned();
    text::push_decimal(&mut s, i as u64);
    s.append(".");
    s.append(suffix);
    s
}

pub open spec fn of_layer(i: nat, suffix: Seq<char>, role: Role, how: How) -> loader::WantView {
    model_load::named(layer_name(i, suffix), role, how, Need::Required)
}

fn push_layer(ws: &mut Vec<Want>, i: usize, suffix: &str, role: Role, how: How)
    ensures
        loader::views(final(ws)@) == loader::views(old(ws)@).push(
            of_layer(i as nat, suffix@, role, how),
        ),
{
    loader::push_want(ws, layer_tensor(i, suffix), role, how, Need::Required);
}

/// The tensors of one layer of the block draft model.
pub open spec fn dflash_layer_wants(i: nat) -> Seq<loader::WantView> {
    seq![
        of_layer(i, "self_attn.q_proj.weight"@, Role::Wq, How::Device),
        of_layer(i, "self_attn.k_proj.weight"@, Role::Wk, How::Device),
        of_layer(i, "self_attn.v_proj.weight"@, Role::Wv, How::Device),
        of_layer(i, "self_attn.o_proj.weight"@, Role::Wo, How::Device),
        of_layer(i, "mlp.gate_proj.weight"@, Role::FfnGate, How::Device),
        of_layer(i, "mlp.up_proj.weight"@, Role::FfnUp, How::Device),
        of_layer(i, "mlp.down_proj.weight"@, Role::FfnDown, How::Device),
        of_layer(i, "input_layernorm.weight"@, Role::AttnNorm, How::Floats),
        of_layer(i, "post_attention_layernorm.weight"@, Role::PostAttnNorm, How::Floats),
        of_layer(i, "self_attn.q_norm.weight"@, Role::QNorm, How::Floats),
        of_layer(i, "self_attn.k_norm.weight"@, Role::KNorm, How::Floats),
    ]
}

pub open spec fn dflash_layers_wants(n: nat) -> Seq<loader::WantView>
    decreases n,
{
    if n == 0 {
        Seq::empty()
    } else {
        dflash_layers_wants((n - 1) as nat) + dflash_layer_wants((n - 1) as nat)
    }
}

/// The tensors of the block draft model.
pub open spec fn dflash_wants(n_layer: nat) -> Seq<loader::WantView> {
    dflash_layers_wants(n_layer) + seq![
        model_load::named("fc.weight"@, Role::Fc, How::Device, Need::Required),
        model_load::named("hidden_norm.weight"@, Role::HiddenNorm, How::Floats, Need::Required),
        model_load::named("norm.weight"@, Role::OutputNorm, How::Floats, Need::Required),
    ]
}

/// Plans the block draft model of `n_layer` layers.
pub fn load_dflash(cat: &Catalog, n_layer: usize) -> (r: Result<Vec<Want>, String>)
    ensures
        match r {
            Ok(v) => loader::first_unmet(dflash_wants(n_layer as nat), *cat) is None
                && loader::views(v@) == loader::kept(dflash_wants(n_layer as nat), *cat),
            Err(name) => loader::first_unmet(dflash_wants(n_layer as nat), *cat) matches Some(i)
                && name@ == dflash_wants(n_layer as nat)[i].name,
        },
{
    let mut ws: Vec<Want> = Vec::new();
    let mut i: usize = 0;
    assert(loader::views(ws@) =~= dflash_layers_wants(0));
    while i < n_layer
        invariant
            i <= n_layer,
            loader::views(ws@) == dflash_layers_wants(i as nat),
        decreases n_layer - i,
    {
        let ghost before = loader::views(ws@);
        push_layer(&mut ws, i, "self_attn.q_proj.weight", Role::Wq, How::Device);
        push_layer(&mut ws, i, "self_attn.k_proj.weight", Role::Wk, How::Device);
        push_layer(&mut ws, i, "self_attn.v_proj.weight", Role::Wv, How::Device);
        push_layer(&mut ws, i, "self_attn.o_proj.weight", Role::Wo, How::Device);
        push_layer(&mut ws, i, "mlp.gate_proj.weight", Role::FfnGate, How::Device);
        push_layer(&mut ws, i, "mlp.up_proj.weight", Role::FfnUp, How::Device);
        push_layer(&mut ws, i, "mlp.down_proj.weight", Role::FfnDown, How::Device);
        push_layer(&mut ws, i, "input_layernorm.weight", Role::AttnNorm, How::Floats);
        push_layer(&mut ws, i, "post_attention_layernorm.weight", Role::PostAttnNorm, How::Floats);
        push_layer(&mut ws, i, "self_attn.q_norm.weight", Role::QNorm, How::Floats);
        push_layer(&mut ws, i, "self_attn.k_norm.weight", Role::KNorm, How::Floats);
        assert(loader::views(ws@) =~= before + dflash_layer_wants(i as nat));
        i += 1;
    }
    push_named(&mut ws, "fc.weight", Role::Fc, How::Device);
    push_named(&mut ws, "hidden_norm.weight", Role::HiddenNorm, How::Floats);
    push_named(&mut ws, "norm.weight", Role::OutputNorm, How::Floats);
    assert(loader::views(ws@) =~= dflash_wants(n_layer as nat));
    loader::resolve(&ws, cat)
}

fn push_named(ws: &mut Vec<Want>, name: &str, role: Role, how: How)
    ensures
        loader::views(final(ws)@) == loader::views(old(ws)@).push(
            model_load::named(name@, role, how, Need::Required),
        ),
{
    loader::push_want(ws, name.to_owned(), role, how, Need::Required);
}

pub open spec fn plain(name: Seq<char>, role: Role) -> loader::WantView {
    model_load::named(name, role, How::Device, Need::Required)
}

/// The tensors of the one-layer draft model, and the map of its vocabulary.
pub open spec fn eagle_wants() -> Seq<loader::WantView> {
    seq![
        model_load::named("d2t"@, Role::D2t, How::Raw, Need::Required),
        plain("fc.weight"@, Role::Fc),
        plain("midlayer.input_layernorm.weight"@, Role::AttnNorm),
        plain("midlayer.hidden_norm.weight"@, Role::HiddenNorm),
        plain("midlayer.self_attn.q_proj.weight"@, Role::Wq),
        plain("midlayer.self_attn.k_proj.weight"@, Role::Wk),
        plain("midlayer.self_attn.v_proj.weight"@, Role::Wv),
        plain("midlayer.self_attn.o_proj.weight"@, Role::Wo),
        plain("midlayer.post_attention_layernorm.weight"@, Role::PostAttnNorm),
        plain("midlayer.mlp.gate_proj.weight"@, Role::FfnGate),
        plain("midlayer.mlp.up_proj.weight"@, Role::FfnUp),
        plain("midlayer.mlp.down_proj.weight"@, Role::FfnDown),
        plain("norm.weight"@, Role::OutputNorm),
        plain("lm_head.weight"@, Role::Output),
    ]
}

/// Plans the one-layer draft model.
pub fn load_eagle(cat: &Catalog) -> (r: Result<Vec<Want>, String>)
    ensures
        match r {
            Ok(v) => loader::first_unmet(eagle_wants(), *cat) is None && loader::views(v@)
                == loader::kept(eagle_wants(), *cat),
            Err(name) => loader::first_unmet(eagle_wants(), *cat) matches Some(i) && name@
                == eagle_wants()[i].name,
        },
{
    let mut ws: Vec<Want> = Vec::new();
    push_named(&mut ws, "d2t", Role::D2t, How::Raw);
    push_named(&mut ws, "fc.weight", Role::Fc, How::Device);
    push_named(&mut ws, "midlayer.input_layernorm.weight", Role::AttnNorm, How::Device);
    push_named(&mut ws, "midlayer.hidden_norm.weight", Role::HiddenNorm, How::Device);
    push_named(&mut ws, "midlayer.self_attn.q_proj.weight", Role::Wq, How::Device);
    push_named(&mut ws, "midlayer.self_attn.k_proj.weight", Role::Wk, How::Device);
    push_named(&mut ws, "midlayer.self_attn.v_proj.weight", Role::Wv, How::Device);
    push_named(&mut ws, "midlayer.self_attn.o_proj.weight", Role::Wo, How::Device);
    push_named(
        &mut ws,
        "midlayer.post_attention_layernorm.weight",
        Role::PostAttnNorm,
        How::Device,
    );
    push_named(&mut ws, "midlayer.mlp.gate_proj.weight", Role::FfnGate, How::Device);
    push_named(&mut ws, "midlayer.mlp.up_proj.weight", Role::FfnUp, How::Device);
    push_named(&mut ws, "midlayer.mlp.down_proj.weight", Role::FfnDown, How::Device);
    push_named(&mut ws, "norm.weight", Role::OutputNorm, How::Device);
    push_named(&mut ws, "lm_head.weight", Role::Output, How::Device);
    assert(loader::views(ws@) =~= eagle_wants());
    loader::resolve(&ws, cat)
}

/// The bits of the 32-bit floats that 16-bit brain floats stand for; a last incomplete one is
/// passed over.
pub open spec fn widened(raw: Seq<u8>) -> Seq<u32> {
    Seq::new(
        (raw.len() as int / 2) as nat,
        |i: int| ((raw[2 * i] as int + 256 * (raw[2 * i + 1] as int)) * 0x1_0000) as u32,
    )
}

/// Widens 16-bit brain floats to the bits of 32-bit floats.
pub fn bf16_to_f32(raw: &[u8]) -> (r: Vec<u32>)
    ensures
        r@ == widened(raw@),
{
    let n: usize = raw.len() / 2;
    let mut out: Vec<u32> = Vec::new();
    let mut i: usize = 0;
    while i < n
        invariant
            i <= n,
            n == raw@.len() as int / 2,
            raw@.len() <= usize::MAX,
            out@ == widened(raw@).take(i as int),
        decreases n - i,
    {
        let v: u32 = raw[2 * i] as u32 + 256 * (raw[2 * i + 1] as u32);
        out.push(v * 0x1_0000);
        assert(out@ =~= widened(raw@).take(i + 1));
        i += 1;
    }
    assert(widened(raw@).take(n as int) =~= widened(raw@));
    out
}

proof fn lemma_number_start(d: Seq<char>, tail: Seq<char>)
    requires
        forall|i: int| 0 <= i < d.len() ==> in_number(#[trigger] d[i]),
        tail.len() > 0 ==> !in_number(tail[0]),
    ensures
        number_start(d + tail) == d,
    decreases d.len(),
{
    if d.len() == 0 {
        assert(d + tail =~= tail);
        assert(number_start(tail) =~= d);
    } else {
        let rest = d.skip(1);
        assert forall|i: int| 0 <= i < rest.len() implies in_number(#[trigger] rest[i]) by {
            assert(rest[i] == d[i + 1]);
        }
        lemma_number_start(rest, tail);
        assert((d + tail)[0] == d[0]);
        assert((d + tail).skip(1) =~= rest + tail);
        assert(seq![d[0]] + rest =~= d);
    }
}

/// Characters at which a value ends.
pub open spec fn ends_value(c: char) -> bool {
    c == ',' || c == '}' || c == '\n'
}

proof fn lemma_value_start(d: Seq<char>, tail: Seq<char>)
    requires
        forall|i: int| 0 <= i < d.len() ==> !ends_value(#[trigger] d[i]),
        tail.len() > 0 ==> ends_value(tail[0]),
    ensures
        value_start(d + tail) == d,
    decreases d.len(),
{
    if d.len() == 0 {
        assert(d + tail =~= tail);
        assert(value_start(tail) =~= d);
    } else {
        let rest = d.skip(1);
        assert(!ends_value(d[0]));
        assert forall|i: int| 0 <= i < rest.len() implies !ends_value(#[trigger] rest[i]) by {
            assert(rest[i] == d[i + 1]);
        }
        lemma_value_start(rest, tail);
        assert((d + tail)[0] == d[0]);
        assert((d + tail).skip(1) =~= rest + tail);
        assert(seq![d[0]] + rest =~= d);
    }
}

/// `txt` gives `key` the value `d`: the quoted key stands in it for the first time at `at`, and
/// behind it a colon, spaces, the value, and `tail`.
pub open spec fn gives(
    txt: Seq<char>,
    key: Seq<char>,
    at: int,
    sp: Seq<char>,
    d: Seq<char>,
    tail: Seq<char>,
) -> bool {
    &&& text::find(txt, text::quoted(key)) == Some(at)
    &&& txt.skip(at) == text::quoted(key) + seq![':'] + sp + d + tail
    &&& forall|i: int| 0 <= i < key.len() ==> #[trigger] key[i] != ':'
    &&& forall|i: int| 0 <= i < sp.len() ==> text::is_space(#[trigger] sp[i])
    &&& d.len() > 0 && !text::is_space(d[0]) && !text::is_space(d.last())
}

/// A number that a text gives is found, as it is written.
pub proof fn law_number_is_found(
    txt: Seq<char>,
    key: Seq<char>,
    at: int,
    sp: Seq<char>,
    d: Seq<char>,
    tail: Seq<char>,
)
    requires
        gives(txt, key, at, sp, d, tail),
        forall|i: int| 0 <= i < d.len() ==> in_number(#[trigger] d[i]),
        tail.len() > 0 ==> !in_number(tail[0]),
    ensures
        dflash_number(txt, key) == Some(d),
{
    let q = text::quoted(key);
    let t = txt.skip(at);
    let c = q.len() as int;
    text::lemma_find_char(t, ':');
    assert(t[c] == ':');
    assert forall|j: int| 0 <= j < c implies #[trigger] t[j] != ':' by {
        if 0 < j < c - 1 {
            assert(t[j] == key[j - 1]);
        }
    }
    assert(text::find_char(t, ':') == Some(c));
    assert(t.skip(c + 1) =~= sp + (d + tail));
    assert((d + tail)[0] == d[0]);
    text::law_trim_left(sp, d + tail);
    lemma_number_start(d, tail);
}

/// A value that a text gives is found, as it is written.
pub proof fn law_value_is_found(
    txt: Seq<char>,
    key: Seq<char>,
    at: int,
    sp: Seq<char>,
    d: Seq<char>,
    tail: Seq<char>,
)
    requires
        gives(txt, key, at, sp, d, tail),
        forall|i: int| 0 <= i < d.len() ==> !ends_value(#[trigger] d[i]),
        tail.len() > 0 ==> ends_value(tail[0]),
    ensures
        eagle_number(txt, key) == Some(d),
{
    let q = text::quoted(key);
    let t = txt.skip(at);
    text::lemma_find_from(txt, q, 0);
    let rest = txt.skip(at + q.len());
    assert(rest =~= t.skip(q.len() as int));
    assert(rest =~= seq![':'] + (sp + (d + tail)));
    assert(rest[0] == ':');
    assert(text::find_char(rest, ':') == Some(0int));
    assert(rest.skip(1) =~= sp + (d + tail));
    assert((d + tail)[0] == d[0]);
    text::law_trim_left(sp, d + tail);
    lemma_value_start(d, tail);
    assert(Seq::<char>::empty() + d =~= d);
    assert(d + Seq::<char>::empty() =~= d);
    text::law_trim_left(Seq::empty(), d);
    text::law_trim_right(d, Seq::empty());
}

/// A widened float keeps the sixteen bits that it is stored with as its upper half, and its lower
/// half is zero.
pub proof fn law_widened(raw: Seq<u8>, i: int)
    requires
        0 <= i < raw.len() as int / 2,
    ensures
        widened(raw).len() == raw.len() as int / 2,
        widened(raw)[i] as int / 0x1_0000 == crate::bytes::le_value(raw.subrange(2 * i, 2 * i + 2)),
        widened(raw)[i] as int % 0x1_0000 == 0,
{
    let s = raw.subrange(2 * i, 2 * i + 2);
    assert(s.skip(1).skip(1) =~= Seq::<u8>::empty());
    assert(crate::bytes::le_value(s.skip(1).skip(1)) == 0);
    assert(s.skip(1)[0] == raw[2 * i + 1]);
    assert(crate::bytes::le_value(s.skip(1)) == raw[2 * i + 1] as nat);
    assert(crate::bytes::le_value(s) == raw[2 * i] as nat + 256 * (raw[2 * i + 1] as nat));
}

} // verus!
