//! Decisions of the generation loop. The loop itself (forward passes,
//! sampling, emitting tokens) runs outside; it asks here whether a prompt fits
//! and, after each sampled token, whether to go on.
use vstd::prelude::*;
use crate::error::BrainError;

verus! {

/// What the loop does after a token was sampled.
#[derive(Debug, Clone, Copy, PartialEq, Eq, Structural)]
pub enum Step {
    /// Emit the token and feed it back.
    Continue,
    /// The end-of-sequence token came: stop without emitting it.
    StopEos,
    /// `max_tokens` tokens were generated.
    StopMaxTokens,
    /// Every position of the context is filled.
    StopContextFull,
}

/// A prompt of `n_prompt` tokens can be fed into a context of `max_seq_len`
/// positions; `GenerationOverflow` otherwise.
pub fn check_prompt(n_prompt: usize, max_seq_len: usize) -> (r: Result<(), BrainError>)
    ensures
        n_prompt <= max_seq_len ==> r is Ok,
        n_prompt > max_seq_len ==> r == Err::<(), BrainError>(BrainError::GenerationOverflow),
{
    if n_prompt > max_seq_len {
        Err(BrainError::GenerationOverflow)
    } else {
        Ok(())
    }
}

/// The step after sampling `token`, with `n_generated` tokens emitted so far
/// and `pos` positions of the context filled.
pub fn next_step(token: u32, eos_id: u32, n_generated: usize, max_tokens: usize, pos: usize, max_seq_len: usize) -> (r: Step)
    ensures
        token == eos_id ==> r == Step::StopEos,
        token != eos_id && n_generated + 1 >= max_tokens ==> r == Step::StopMaxTokens,
        token != eos_id && n_generated + 1 < max_tokens && pos >= max_seq_len ==> r == Step::StopContextFull,
        token != eos_id && n_generated + 1 < max_tokens && pos < max_seq_len ==> r == Step::Continue,
{
    if token == eos_id {
        Step::StopEos
    } else if n_generated >= max_tokens || max_tokens - n_generated <= 1 {
        Step::StopMaxTokens
    } else if pos >= max_seq_len {
        Step::StopContextFull
    } else {
        Step::Continue
    }
}

} // verus!
