//! The function catalogue the engine dispatches against: the enumerated
//! functions, their numeric ids, their names, and their invocation stubs.
use vstd::prelude::*;

use crate::Error;
use crate::io::OutputFrame;
use crate::variable::Variable;

verus! {

/// The invocable functions of the catalogue.
#[derive(Clone, Copy, Debug, PartialEq, Eq, Structural)]
pub enum Function {
    /// Does nothing and returns an empty payload; id 0.
    Null,
    /// Echoes; id 1. Declares no binary payload.
    Echo,
}

/// The bytes of the name `null`.
pub open spec fn null_name() -> Seq<u8> {
    seq![110u8, 117u8, 108u8, 108u8]
}

/// The bytes of the name `echo`.
pub open spec fn echo_name() -> Seq<u8> {
    seq![101u8, 99u8, 104u8, 111u8]
}

/// The catalogue as the lexer consults it: the id a function name resolves
/// to, or nothing.
pub open spec fn id_of_name(n: Seq<u8>) -> Option<int> {
    if n == null_name() {
        Some(0int)
    } else if n == echo_name() {
        Some(1int)
    } else {
        None
    }
}

/// The function carrying a numeric id, or nothing for an id outside the
/// enumerated range: what [`Function::new`] returns.
pub open spec fn fn_of_id(id: int) -> Option<Function> {
    if id == 0 {
        Some(Function::Null)
    } else if id == 1 {
        Some(Function::Echo)
    } else {
        None
    }
}

impl Function {
    /// The numeric id of the function.
    pub open spec fn id_spec(&self) -> int {
        match self {
            Function::Null => 0,
            Function::Echo => 1,
        }
    }

    /// Whether the function declares an attached binary body: the explicit
    /// per-function table the lexer and the assembler consult.
    pub open spec fn has_bin_spec(&self) -> bool {
        match self {
            Function::Null => false,
            Function::Echo => false,
        }
    }

    /// Bounds-checked conversion from a numeric id; an id outside the
    /// enumerated range fails cleanly with [`Error::FnIdInvalid`].
    pub fn new(id: i32) -> (r: Result<Self, Error>)
        ensures
            id == 0 ==> r == Ok::<Function, Error>(Function::Null),
            id == 1 ==> r == Ok::<Function, Error>(Function::Echo),
            !(id == 0 || id == 1) ==> r == Err::<Function, Error>(Error::FnIdInvalid),
            r matches Ok(f) ==> f.id_spec() == id && fn_of_id(id as int) == Some(f),
            r matches Err(e) ==> e == Error::FnIdInvalid && fn_of_id(id as int) is None,
    {
        match id {
            0 => Ok(Function::Null),
            1 => Ok(Function::Echo),
            _ => Err(Error::FnIdInvalid),
        }
    }

    /// The numeric id of the function.
    pub fn get_id(&self) -> (r: i32)
        ensures
            r == self.id_spec(),
    {
        match self {
            Function::Null => 0,
            Function::Echo => 1,
        }
    }

    /// The name of the function with the given id, or
    /// [`Error::FnNotFound`] for an id no function carries.
    pub fn name_from_i32(i: i32) -> (r: Result<Vec<u8>, Error>)
        ensures
            i == 0 ==> (r matches Ok(n) && n@ == null_name()),
            i == 1 ==> (r matches Ok(n) && n@ == echo_name()),
            !(i == 0 || i == 1) ==> r == Err::<Vec<u8>, Error>(Error::FnNotFound),
    {
        match i {
            0 => {
                let mut n: Vec<u8> = Vec::new();
                n.push(110);
                n.push(117);
                n.push(108);
                n.push(108);
                proof {
                    assert(n@ =~= null_name());
                }
                Ok(n)
            },
            1 => {
                let mut n: Vec<u8> = Vec::new();
                n.push(101);
                n.push(99);
                n.push(104);
                n.push(111);
                proof {
                    assert(n@ =~= echo_name());
                }
                Ok(n)
            },
            _ => Err(Error::FnNotFound),
        }
    }

    /// Resolves a function name against the catalogue, as the lexer does
    /// synchronously at lex time; an unresolvable name fails with
    /// [`Error::FnNotFound`].
    pub fn name_to_i32(n: &Vec<u8>) -> (r: Result<i32, Error>)
        ensures
            r matches Ok(id) ==> id_of_name(n@) == Some(id as int),
            r matches Err(e) ==> e == Error::FnNotFound && id_of_name(n@) is None,
    {
        if n.len() == 4 && n[0] == 110 && n[1] == 117 && n[2] == 108 && n[3] == 108 {
            proof {
                assert(n@ =~= null_name());
            }
            Ok(0)
        } else if n.len() == 4 && n[0] == 101 && n[1] == 99 && n[2] == 104 && n[3] == 111 {
            proof {
                assert(n@ =~= echo_name());
            }
            Ok(1)
        } else {
            proof {
                if n@ == null_name() {
                    assert(n@[0] == 110u8 && n@[1] == 117u8 && n@[2] == 108u8 && n@[3] == 108u8);
                }
                if n@ == echo_name() {
                    assert(n@[0] == 101u8 && n@[1] == 99u8 && n@[2] == 104u8 && n@[3] == 111u8);
                }
            }
            Err(Error::FnNotFound)
        }
    }

    /// Whether the function declares an attached binary body.
    pub fn has_bin(&self) -> (r: bool)
        ensures
            r == self.has_bin_spec(),
    {
        match self {
            Function::Null => false,
            Function::Echo => false,
        }
    }

    /// Invokes the function on the resolved input values and returns its
    /// result frame, tagged with the channel, line and declared size it was
    /// called under. Both catalogue functions produce an empty payload.
    pub fn call(&self, args: Vec<Variable>, channel: i32, line: i32, size: u64) -> (r: OutputFrame)
        ensures
            r.channel == channel,
            r.line == line,
            r.size == size,
            r.payload@ == Seq::<u8>::empty(),
    {
        let _ = args;
        match self {
            Function::Null => OutputFrame::new(channel, line, size, Vec::new()),
            Function::Echo => OutputFrame::new(channel, line, size, Vec::new()),
        }
    }
}

} // verus!
