//! The token history of an inference session.

use vstd::prelude::*;
use vstd::slice::slice_subrange;

verus! {

/// The longest run of tokens that the model looks at in one pass.
pub const CONTEXT_WINDOW: usize = 4096;

/// Why a run of tokens cannot be handed to the model.
#[derive(Clone, Copy, Debug, PartialEq, Eq, Structural)]
pub enum InputError {
    /// The model cannot run on empty input.
    Empty,
}

/// A Phi-1.5 session: the tokens that were fed to the model so far.
#[derive(Debug)]
pub struct PhiSession {
    current_tokens: Vec<u32>,
}

impl View for PhiSession {
    type V = Seq<u32>;

    closed spec fn view(&self) -> Seq<u32> {
        self.current_tokens@
    }
}

impl PhiSession {
    /// A session in which nothing was fed yet.
    pub fn new() -> (session: PhiSession)
        ensures
            session@ == Seq::<u32>::empty(),
    {
        PhiSession { current_tokens: Vec::new() }
    }

    /// A session restored from the tokens it had seen.
    pub fn from_tokens(tokens: Vec<u32>) -> (session: PhiSession)
        ensures
            session@ == tokens@,
    {
        PhiSession { current_tokens: tokens }
    }

    /// Get the current tokens.
    pub fn get_current_tokens(&self) -> (tokens: &[u32])
        ensures
            tokens@ == self@,
    {
        self.current_tokens.as_slice()
    }

    /// The tokens of the session, oldest first.
    pub fn tokens(&self) -> (tokens: &[u32])
        ensures
            tokens@ == self@,
    {
        self.current_tokens.as_slice()
    }

    /// Records that `tokens` are fed to the model.
    pub fn feed_tokens(&mut self, tokens: &[u32])
        ensures
            final(self)@ == old(self)@ + tokens@,
    {
        self.current_tokens.extend_from_slice(tokens);
    }
}

impl Clone for PhiSession {
    fn clone(&self) -> (copy: PhiSession)
        ensures
            copy@ == self@,
    {
        PhiSession { current_tokens: self.current_tokens.clone() }
    }
}

/// The part of `tokens` that the model looks at: the last
/// [`CONTEXT_WINDOW`] of them.
pub open spec fn window_of(tokens: Seq<u32>) -> Seq<u32> {
    if tokens.len() > CONTEXT_WINDOW {
        tokens.subrange(tokens.len() - CONTEXT_WINDOW, tokens.len() as int)
    } else {
        tokens
    }
}

/// Selects the tokens of one forward pass. Empty input is an error; input
/// longer than the window loses its oldest tokens.
pub fn context_window(tokens: &[u32]) -> (r: Result<&[u32], InputError>)
    ensures
        tokens@.len() == 0 <==> r is Err,
        r matches Ok(window) ==> window@ == window_of(tokens@),
        r matches Err(e) ==> e == InputError::Empty,
{
    let len: usize = tokens.len();
    if len == 0 {
        return Err(InputError::Empty);
    }
    if len > CONTEXT_WINDOW {
        Ok(slice_subrange(tokens, len - CONTEXT_WINDOW, len))
    } else {
        Ok(tokens)
    }
}

} // verus!
