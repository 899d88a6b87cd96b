//! The input and output surfaces of the engine: the incremental parse state
//! wrapped around a byte source, and the tagged result frame.
use vstd::prelude::*;

use crate::namespace::Namespace;
use crate::statement::asm_all;
use crate::statement::model_of;
use crate::statement::stmt_views;
use crate::statement::AsmOutcome;
use crate::statement::Statement;
use crate::token::lex_all;
use crate::token::tok_views;
use crate::token::LexOutcome;
use crate::token::Token;
use crate::Error;

verus! {

/// One unit of output, tagged with its channel and source line.
pub struct OutputFrame {
    /// The id of the channel the statement ran on.
    pub channel: i32,
    /// The source line the statement came from.
    pub line: i32,
    /// The declared payload length.
    pub size: u64,
    /// The payload bytes.
    pub payload: Vec<u8>,
}

impl OutputFrame {
    /// A frame made of exactly the given parts.
    pub fn new(channel: i32, line: i32, size: u64, payload: Vec<u8>) -> (r: Self)
        ensures
            r.channel == channel,
            r.line == line,
            r.size == size,
            r.payload == payload,
    {
        OutputFrame { channel, line, size, payload }
    }
}

/// The incremental parse state wrapped around a byte source: the unconsumed
/// text, the token run, and the session name registry. The textual protocol
/// is a debug surface, not the production wire format.
pub struct Utf8Input<T> {
    /// The wrapped byte source.
    pub inner: T,
    /// Raw bytes received and not yet consumed by the lexer.
    pub text: Vec<u8>,
    /// Completed tokens not yet consumed by the assembler.
    pub tokens: Vec<Token>,
    /// The session name registry.
    pub namespace: Namespace,
}

impl<T> Utf8Input<T> {
    /// A fresh parse state around the given source: empty buffers, empty
    /// registry.
    pub fn new(inner: T) -> (r: Self)
        ensures
            r.inner == inner,
            r.text@.len() == 0,
            r.tokens@.len() == 0,
            r.namespace.wf(),
            r.namespace.entries().len() == 0,
            r.namespace.last_id_spec() == 0,
    {
        Utf8Input { inner, text: Vec::new(), tokens: Vec::new(), namespace: Namespace::new() }
    }

    /// The wrapped source.
    pub fn inner(&self) -> (r: &T)
        ensures
            *r == self.inner,
    {
        &self.inner
    }

    /// The wrapped source, mutably.
    pub fn inner_mut(&mut self) -> (r: &mut T)
        ensures
            *r == old(self).inner,
            final(self).inner == *final(r),
            final(self).text == old(self).text,
            final(self).tokens == old(self).tokens,
            final(self).namespace == old(self).namespace,
    {
        &mut self.inner
    }

    /// Unwraps the source, dropping the parse state.
    pub fn into_inner(self) -> (r: T)
        ensures
            r == self.inner,
    {
        self.inner
    }

    /// The three parse buffers, mutably at once.
    pub fn borrow3(&mut self) -> (r: (&mut Vec<u8>, &mut Vec<Token>, &mut Namespace))
        ensures
            *r.0 == old(self).text,
            *r.1 == old(self).tokens,
            *r.2 == old(self).namespace,
            final(self).text == *final(r.0),
            final(self).tokens == *final(r.1),
            final(self).namespace == *final(r.2),
            final(self).inner == old(self).inner,
    {
        (&mut self.text, &mut self.tokens, &mut self.namespace)
    }

    /// Feeds one chunk of raw bytes through the lexer and the assembler: the
    /// chunk joins the unconsumed text, every completed token is lexed, and
    /// every bounded statement is assembled and returned. Unconsumed text
    /// and tokens stay for the next chunk, so input may arrive arbitrarily
    /// fragmented; an error aborts the parse and the session is not
    /// resumable.
    pub fn feed(&mut self, chunk: &Vec<u8>) -> (r: Result<Vec<Statement>, Error>)
        requires
            old(self).namespace.wf(),
        ensures
            final(self).namespace.wf(),
            final(self).inner == old(self).inner,
            (match lex_all(old(self).text@ + chunk@, 0, tok_views(old(self).tokens@)) {
                LexOutcome::Fail(e) => r == Err::<Vec<Statement>, Error>(e),
                LexOutcome::Done { consumed, toks } => (match asm_all(
                    toks,
                    model_of(old(self).namespace),
                    Seq::empty(),
                ) {
                    AsmOutcome::Fail(e) => r == Err::<Vec<Statement>, Error>(e),
                    AsmOutcome::Done { stmts, ns, toks: rest } => {
                        &&& r matches Ok(v) && stmt_views(v@) == stmts
                        &&& final(self).text@ == (old(self).text@ + chunk@).skip(consumed)
                        &&& tok_views(final(self).tokens@) == rest
                        &&& model_of(final(self).namespace) == ns
                    },
                }),
            }),
    {
        crate::append_bytes(&mut self.text, chunk);
        match Token::take(&mut self.text, &mut self.tokens) {
            Ok(()) => {},
            Err(e) => {
                return Err(e);
            },
        }
        Statement::take_tokens(&mut self.tokens, &mut self.namespace)
    }
}

} // verus!
