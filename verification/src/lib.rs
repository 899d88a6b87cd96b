//! A streaming statement-execution engine.
//!
//! The engine consumes a textual instruction stream, parses it into discrete
//! function-invocation statements scoped to logical channels, executes each
//! statement under a multi-dimensional resource budget (gas), and emits a
//! stream of tagged result frames.
//!
//! The crate is organised around the data flow: raw bytes are lexed into
//! tokens ([`Token`]), tokens are assembled into statements ([`Statement`])
//! while names are resolved through the session registry ([`Namespace`]),
//! and statements are dispatched by the engine ([`AmnisCore`]) under a
//! [`GasPlan`] budget, producing [`OutputFrame`] values.
use vstd::prelude::*;

pub mod channel;
pub mod context;
pub mod engine;
pub mod function;
pub mod gas;
pub mod gas_plan;
pub mod io;
pub mod namespace;
pub mod statement;
pub mod token;
pub mod variable;

pub use channel::Channel;
pub use context::Context;
pub use engine::AmnisCore;
pub use engine::AmnisState;
pub use function::Function;
pub use gas::Gas;
pub use gas::GasPlan;
pub use io::OutputFrame;
pub use io::Utf8Input;
pub use namespace::Namespace;
pub use statement::Statement;
pub use token::Token;
pub use variable::Variable;

verus! {

/// The error taxonomy of the engine.
#[derive(Clone, Copy, Debug, PartialEq, Eq, Structural)]
pub enum Error {
    /// A grammar violation, or a reference to a name that was never declared.
    InvalidInput,
    /// A function name or id that the catalogue cannot resolve.
    FnNotFound,
    /// A numeric function id outside the valid enumerated range.
    FnIdInvalid,
    /// A budget that caps nothing: `all` unset while some dimension is unset.
    InfGasPlan,
    /// A dimension sum that does not fit the 64-bit signed range.
    GasPanOverflow,
    /// The session spent more than the effective cap of its plan.
    GasExhausted,
}

/// Appends every byte of `src` to `dst`.
pub fn append_bytes(dst: &mut Vec<u8>, src: &Vec<u8>)
    ensures
        final(dst)@ == old(dst)@ + src@,
{
    let mut i: usize = 0;
    while i < src.len()
        invariant
            i <= src.len(),
            dst@ == old(dst)@ + src@.take(i as int),
        decreases src.len() - i,
    {
        dst.push(src[i]);
        proof {
            assert(old(dst)@ + src@.take(i as int) + seq![src@[i as int]] =~= old(dst)@
                + src@.take(i + 1));
        }
        i = i + 1;
    }
    proof {
        assert(src@.take(src@.len() as int) =~= src@);
    }
}

/// An owned copy of a byte buffer, equal to it element for element.
pub fn copy_bytes(v: &Vec<u8>) -> (r: Vec<u8>)
    ensures
        r@ == v@,
{
    let mut r: Vec<u8> = Vec::new();
    let mut i: usize = 0;
    while i < v.len()
        invariant
            i <= v.len(),
            r@ == v@.take(i as int),
        decreases v.len() - i,
    {
        r.push(v[i]);
        proof {
            assert(r@ =~= v@.take(i + 1));
        }
        i = i + 1;
    }
    proof {
        assert(v@.take(v@.len() as int) =~= v@);
    }
    r
}

} // verus!

