//! Shapes of the language model and the checks that guard generation.

use vstd::prelude::*;

use crate::format::Header;

verus! {

/// Model dimensions, as the file header gives them.
#[derive(Clone, Copy, Debug)]
pub struct Config {
    pub d_model: usize,
    pub n_layers: usize,
    pub n_heads: usize,
    pub head_dim: usize,
    pub ctx: usize,
    pub vocab: usize,
}

/// Arithmetic the forward pass runs in.
#[derive(Clone, Copy, PartialEq, Eq, Debug)]
pub enum Precision {
    /// int8 weights and activations, what the kernel runs.
    I8,
    /// Dequantized weights and f32 activations: slower, the reference path.
    F32,
}

/// Why a generation request was refused.
#[derive(Debug, PartialEq, Eq)]
pub enum GenError {
    EmptyPrompt,
    PromptTooLong,
    NoRoomToGenerate,
}

impl Config {
    /// The dimensions a validated header describes; each head gets an equal
    /// share of the model width.
    pub fn from_header(h: &Header) -> (c: Config)
        requires
            h.n_heads > 0,
        ensures
            c.d_model == h.d_model,
            c.n_layers == h.n_layers,
            c.n_heads == h.n_heads,
            c.head_dim == h.d_model / h.n_heads,
            c.ctx == h.ctx_len,
            c.vocab == h.vocab,
    {
        Config {
            d_model: h.d_model as usize,
            n_layers: h.n_layers as usize,
            n_heads: h.n_heads as usize,
            head_dim: (h.d_model / h.n_heads) as usize,
            ctx: h.ctx_len as usize,
            vocab: h.vocab as usize,
        }
    }
}

/// Parameter count: twelve `d x d` matrices per layer (attention and MLP),
/// the 256-row token embedding and the `ctx`-row position embedding.
pub open spec fn spec_n_params(cfg: Config) -> int {
    12 * cfg.n_layers * cfg.d_model * cfg.d_model + 256 * cfg.d_model + cfg.ctx * cfg.d_model
}

/// The model's parameter count.
pub fn n_params(cfg: &Config) -> (n: usize)
    requires
        spec_n_params(*cfg) <= usize::MAX,
    ensures
        n == spec_n_params(*cfg),
{
    let d = cfg.d_model;
    if d == 0 {
        return 0;
    }
    proof {
        let l = cfg.n_layers as int;
        let c = cfg.ctx as int;
        let dd = d as int;
        assert(12 * l <= 12 * l * dd && 12 * l * dd <= 12 * l * dd * dd) by (nonlinear_arith)
            requires 0 <= l, 1 <= dd;
        assert(0 <= c * dd && 256 <= 256 * dd) by (nonlinear_arith)
            requires 0 <= c, 1 <= dd;
    }
    let a = 12 * cfg.n_layers * d * d;
    let b = 256 * d;
    let c = cfg.ctx * d;
    a + b + c
}

/// Whether a prompt of `prompt_len` bytes can be run through the model.
pub open spec fn spec_check_prefill(cfg: Config, prompt_len: int) -> Result<(), GenError> {
    if prompt_len == 0 {
        Err(GenError::EmptyPrompt)
    } else if prompt_len > cfg.ctx {
        Err(GenError::PromptTooLong)
    } else {
        Ok(())
    }
}

/// The checks made before a prompt is run: it is not empty and fits the context.
pub fn check_prefill(cfg: &Config, prompt_len: usize) -> (r: Result<(), GenError>)
    ensures
        r == spec_check_prefill(*cfg, prompt_len as int),
{
    if prompt_len == 0 {
        return Err(GenError::EmptyPrompt);
    }
    if prompt_len > cfg.ctx {
        return Err(GenError::PromptTooLong);
    }
    Ok(())
}

/// Whether `max_tokens` more positions fit after a prompt of `prompt_len`.
pub open spec fn spec_check_generation(cfg: Config, prompt_len: int, max_tokens: int) -> Result<
    (),
    GenError,
> {
    if max_tokens == 0 || prompt_len + max_tokens > cfg.ctx {
        Err(GenError::NoRoomToGenerate)
    } else {
        Ok(())
    }
}

/// The check made before decoding: at least one token is asked for and the
/// prompt plus every generated token fit the context.
pub fn check_generation(cfg: &Config, prompt_len: usize, max_tokens: usize) -> (r: Result<
    (),
    GenError,
>)
    ensures
        r == spec_check_generation(*cfg, prompt_len as int, max_tokens as int),
{
    if max_tokens == 0 || max_tokens > cfg.ctx || prompt_len > cfg.ctx - max_tokens {
        return Err(GenError::NoRoomToGenerate);
    }
    Ok(())
}

} // verus!
