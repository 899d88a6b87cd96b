//! The statement assembler: groups completed token runs into fully-resolved
//! statements, consulting the name registry for every reference.
use vstd::prelude::*;

use crate::function;
use crate::function::Function;
use crate::namespace::id_in;
use crate::namespace::Namespace;
use crate::token::tok_views;
use crate::token::Token;
use crate::token::TokView;
use crate::Error;

verus! {

/// One parsed instruction: a function invocation bound to a channel, with
/// resolved input ids, freshly registered output ids, and an optional binary
/// body.
pub struct Statement {
    /// The resolved id of the channel the statement runs on.
    pub channel: i32,
    /// The catalogue id of the invoked function.
    pub function: i32,
    /// The pre-existing ids of the inputs, in declaration order.
    pub inputs: Vec<i32>,
    /// The freshly registered ids of the outputs, in declaration order.
    pub outputs: Vec<i32>,
    /// The attached binary body, where the function declares one.
    pub body: Option<Vec<u8>>,
}

/// The mathematical shape of a [`Statement`].
pub struct StmtView {
    /// The resolved channel id.
    pub channel: int,
    /// The catalogue id of the invoked function.
    pub function: int,
    /// The input ids, in declaration order.
    pub inputs: Seq<int>,
    /// The output ids, in declaration order.
    pub outputs: Seq<int>,
    /// The attached binary body.
    pub body: Option<Seq<u8>>,
}

impl View for Statement {
    type V = StmtView;

    open spec fn view(&self) -> StmtView {
        StmtView {
            channel: self.channel as int,
            function: self.function as int,
            inputs: self.inputs@.map_values(|x: i32| x as int),
            outputs: self.outputs@.map_values(|x: i32| x as int),
            body: match &self.body {
                Some(b) => Some(b@),
                None => None,
            },
        }
    }
}

/// The views of a statement list.
pub open spec fn stmt_views(ss: Seq<Statement>) -> Seq<StmtView> {
    ss.map_values(|s: Statement| s@)
}

/// The registry as the assembler's specification sees it: the bindings and
/// the last id handed out.
pub struct NsModel {
    /// The (id, name) bindings, oldest first.
    pub entries: Seq<(int, Seq<u8>)>,
    /// The most recently allocated id.
    pub last: int,
}

/// The model of a registry value.
pub open spec fn model_of(ns: Namespace) -> NsModel {
    NsModel { entries: ns.entries(), last: ns.last_id_spec() }
}

/// Registering a name in the model: a fresh id, one past the last.
pub open spec fn ns_add(m: NsModel, name: Seq<u8>) -> NsModel {
    NsModel { entries: m.entries.push((m.last + 1, name)), last: m.last + 1 }
}

/// Whether a statement boundary is present in the token run.
pub open spec fn has_eos(toks: Seq<TokView>) -> bool {
    exists|k: int| 0 <= k < toks.len() && (#[trigger] toks[k]) is EndOfStatement
}

/// What parsing the input list yields.
pub enum InStep {
    /// The resolved input ids, and the position one past the `)`.
    Done(Seq<int>, int),
    /// An unbound input name or a shape violation.
    Fail(Error),
}

/// What parsing the output list yields.
pub enum OutStep {
    /// The fresh output ids, the registry with them registered, and the
    /// position one past the line break.
    Done(Seq<int>, NsModel, int),
    /// A shape violation, or an exhausted id space.
    Fail(Error),
}

/// Parses the input list from position `i`: every input name resolves via
/// the registry in declaration order -- an unbound name is
/// [`Error::InvalidInput`] -- until the `)` closes the list.
pub open spec fn parse_inputs(toks: Seq<TokView>, i: int, m: NsModel) -> InStep
    decreases toks.len() - i,
{
    if !(0 <= i < toks.len()) {
        InStep::Fail(Error::InvalidInput)
    } else {
        match toks[i] {
            TokView::InputEnd => InStep::Done(Seq::empty(), i + 1),
            TokView::Input(n) => match id_in(m.entries, n) {
                None => InStep::Fail(Error::InvalidInput),
                Some(id) => match parse_inputs(toks, i + 1, m) {
                    InStep::Done(rest, j) => InStep::Done(seq![id] + rest, j),
                    InStep::Fail(e) => InStep::Fail(e),
                },
            },
            _ => InStep::Fail(Error::InvalidInput),
        }
    }
}

/// Parses the output list from position `i`: every output name is registered
/// fresh in declaration order, until the line break ends the statement head.
/// An id past the 32-bit signed range cannot be allocated.
pub open spec fn parse_outputs(toks: Seq<TokView>, i: int, m: NsModel) -> OutStep
    decreases toks.len() - i,
{
    if !(0 <= i < toks.len()) {
        OutStep::Fail(Error::InvalidInput)
    } else {
        match toks[i] {
            TokView::LineFeed => OutStep::Done(Seq::empty(), m, i + 1),
            TokView::Output(n) => if m.last + 1 > i32::MAX {
                OutStep::Fail(Error::InvalidInput)
            } else {
                match parse_outputs(toks, i + 1, ns_add(m, n)) {
                    OutStep::Done(rest, mf, j) => OutStep::Done(seq![m.last + 1] + rest, mf, j),
                    OutStep::Fail(e) => OutStep::Fail(e),
                }
            },
            _ => OutStep::Fail(Error::InvalidInput),
        }
    }
}

/// What assembling one statement yields.
pub enum AsmStep {
    /// The statement, the registry with its outputs registered, and how many
    /// tokens it consumed (through its boundary).
    Stmt(StmtView, NsModel, int),
    /// The tokens violate the statement shape, reference an undeclared name,
    /// carry an invalid function id, or mismatch the function's
    /// body declaration.
    Fail(Error),
}

/// Assembles the statement at the head of the token run: channel resolved
/// against the registry, function taken from its resolved token, inputs
/// resolved in order, outputs registered fresh in order, then the optional
/// body; the function's body declaration must match the body's presence.
pub open spec fn asm_one(toks: Seq<TokView>, m: NsModel) -> AsmStep {
    if !(toks.len() > 0 && toks[0] is Channel) {
        AsmStep::Fail(Error::InvalidInput)
    } else {
        match id_in(m.entries, toks[0]->Channel_0) {
            None => AsmStep::Fail(Error::InvalidInput),
            Some(ch) => if !(toks.len() > 1 && toks[1] is Function) {
                AsmStep::Fail(Error::InvalidInput)
            } else if !(toks.len() > 2 && toks[2] is InputStart) {
                AsmStep::Fail(Error::InvalidInput)
            } else {
                match parse_inputs(toks, 3, m) {
                    InStep::Fail(e) => AsmStep::Fail(e),
                    InStep::Done(ins, i2) => match parse_outputs(toks, i2, m) {
                        OutStep::Fail(e) => AsmStep::Fail(e),
                        OutStep::Done(outs, m2, i3) => {
                            let f = toks[1]->Function_0;
                            let body = if i3 < toks.len() && toks[i3] is Body {
                                Some(toks[i3]->Body_0)
                            } else {
                                None
                            };
                            let i4 = if body is Some {
                                i3 + 1
                            } else {
                                i3
                            };
                            if !(i4 < toks.len() && toks[i4] is EndOfStatement) {
                                AsmStep::Fail(Error::InvalidInput)
                            } else {
                                match function::fn_of_id(f) {
                                    None => AsmStep::Fail(Error::FnIdInvalid),
                                    Some(func) => if func.has_bin_spec() != (body is Some) {
                                        AsmStep::Fail(Error::InvalidInput)
                                    } else {
                                        AsmStep::Stmt(
                                            StmtView {
                                                channel: ch,
                                                function: f,
                                                inputs: ins,
                                                outputs: outs,
                                                body,
                                            },
                                            m2,
                                            i4 + 1,
                                        )
                                    },
                                }
                            }
                        },
                    },
                }
            },
        }
    }
}

/// A parsed input list ends past where it began and within the run.
pub proof fn lemma_parse_inputs_bounds(toks: Seq<TokView>, i: int, m: NsModel)
    ensures
        parse_inputs(toks, i, m) matches InStep::Done(ins, j) ==> i < j <= toks.len(),
    decreases toks.len() - i,
{
    if 0 <= i < toks.len() {
        match toks[i] {
            TokView::Input(_) => {
                lemma_parse_inputs_bounds(toks, i + 1, m);
            },
            _ => {},
        }
    }
}

/// A parsed output list ends past where it began and within the run.
pub proof fn lemma_parse_outputs_bounds(toks: Seq<TokView>, i: int, m: NsModel)
    ensures
        parse_outputs(toks, i, m) matches OutStep::Done(outs, mf, j) ==> i < j <= toks.len(),
    decreases toks.len() - i,
{
    if 0 <= i < toks.len() {
        match toks[i] {
            TokView::Output(n) => {
                lemma_parse_outputs_bounds(toks, i + 1, ns_add(m, n));
            },
            _ => {},
        }
    }
}

/// An assembled statement consumes at least its boundary token and no more
/// than the run holds.
pub proof fn lemma_asm_one_used(toks: Seq<TokView>, m: NsModel)
    ensures
        asm_one(toks, m) matches AsmStep::Stmt(st, m2, used) ==> 1 <= used <= toks.len(),
{
    lemma_parse_inputs_bounds(toks, 3, m);
    match parse_inputs(toks, 3, m) {
        InStep::Done(ins, i2) => {
            lemma_parse_outputs_bounds(toks, i2, m);
        },
        InStep::Fail(_) => {},
    }
}

/// What assembling every bounded statement yields.
pub enum AsmOutcome {
    /// Every statement with a boundary in the run, the registry after their
    /// outputs, and the leftover tokens of the unbounded tail.
    Done {
        /// The assembled statements, oldest first.
        stmts: Seq<StmtView>,
        /// The registry after every output registration.
        ns: NsModel,
        /// The tokens left for subsequent calls.
        toks: Seq<TokView>,
    },
    /// The tokens of some bounded statement are invalid.
    Fail(Error),
}

/// Assembles statements off the head of the token run as long as a boundary
/// is present, consuming each statement's tokens through its boundary: what
/// [`Statement::take_tokens`] does to its buffers.
pub open spec fn asm_all(toks: Seq<TokView>, m: NsModel, acc: Seq<StmtView>) -> AsmOutcome
    decreases toks.len(),
{
    if !has_eos(toks) {
        AsmOutcome::Done { stmts: acc, ns: m, toks }
    } else {
        match asm_one(toks, m) {
            AsmStep::Fail(e) => AsmOutcome::Fail(e),
            AsmStep::Stmt(st, m2, used) => {
                proof {
                    lemma_asm_one_used(toks, m);
                }
                asm_all(toks.skip(used), m2, acc.push(st))
            },
        }
    }
}

/// The continuation of an input parse: what the whole parse yields once the
/// ids collected so far are put back in front.
pub open spec fn in_cont(toks: Seq<TokView>, i: int, m: NsModel, acc: Seq<int>) -> InStep {
    match parse_inputs(toks, i, m) {
        InStep::Done(rest, j) => InStep::Done(acc + rest, j),
        InStep::Fail(e) => InStep::Fail(e),
    }
}

/// The continuation of an output parse, as [`in_cont`].
pub open spec fn out_cont(toks: Seq<TokView>, i: int, m: NsModel, acc: Seq<int>) -> OutStep {
    match parse_outputs(toks, i, m) {
        OutStep::Done(rest, mf, j) => OutStep::Done(acc + rest, mf, j),
        OutStep::Fail(e) => OutStep::Fail(e),
    }
}

/// A token and its view are always the same variant.
proof fn lemma_tok_view_cases(t: Token)
    ensures
        (t@ is Channel) <==> (t is Channel),
        (t@ is Function) <==> (t is Function),
        (t@ is InputStart) <==> (t is InputStart),
        (t@ is Input) <==> (t is Input),
        (t@ is InputEnd) <==> (t is InputEnd),
        (t@ is Output) <==> (t is Output),
        (t@ is LineFeed) <==> (t is LineFeed),
        (t@ is Body) <==> (t is Body),
        (t@ is EndOfStatement) <==> (t is EndOfStatement),
{
    match t {
        Token::Channel(_) => {},
        Token::Function(_) => {},
        Token::InputStart => {},
        Token::Input(_) => {},
        Token::InputEnd => {},
        Token::Output(_) => {},
        Token::LineFeed => {},
        Token::Body(_) => {},
        Token::EndOfStatement => {},
    }
}

/// The position of a statement boundary in the token run, if one is there.
fn find_eos(tokens: &Vec<Token>) -> (r: Option<usize>)
    ensures
        r matches Some(k) ==> k < tokens@.len() && tok_views(tokens@)[k as int]
            is EndOfStatement,
        r is None ==> !has_eos(tok_views(tokens@)),
{
    let mut k: usize = 0;
    while k < tokens.len()
        invariant
            k <= tokens@.len(),
            forall|j: int| 0 <= j < k ==> !((#[trigger] tok_views(tokens@)[j]) is EndOfStatement),
        decreases tokens@.len() - k,
    {
        proof {
            lemma_tok_view_cases(tokens@[k as int]);
            assert(tok_views(tokens@)[k as int] == tokens@[k as int]@);
        }
        match &tokens[k] {
            Token::EndOfStatement => {
                return Some(k);
            },
            _ => {},
        }
        k = k + 1;
    }
    None
}

/// Resolves the input list starting at `start` against the registry, exactly
/// as [`parse_inputs`] describes.
#[verifier::loop_isolation(false)]
fn take_inputs(tokens: &Vec<Token>, start: usize, namespace: &Namespace) -> (r: Result<
    (Vec<i32>, usize),
    Error,
>)
    requires
        start <= tokens@.len(),
    ensures
        r matches Ok(p) ==> parse_inputs(tok_views(tokens@), start as int, model_of(*namespace))
            == InStep::Done(p.0@.map_values(|x: i32| x as int), p.1 as int) && p.1
            <= tokens@.len(),
        r matches Err(e) ==> parse_inputs(tok_views(tokens@), start as int, model_of(*namespace))
            == InStep::Fail(e),
{
    let ghost toksv = tok_views(tokens@);
    let ghost m = model_of(*namespace);
    let mut ins: Vec<i32> = Vec::new();
    let mut i = start;
    proof {
        match parse_inputs(toksv, start as int, m) {
            InStep::Done(rest, j) => {
                assert(Seq::<int>::empty() + rest =~= rest);
            },
            InStep::Fail(_) => {},
        }
        assert(ins@.map_values(|x: i32| x as int) =~= Seq::<int>::empty());
    }
    while i < tokens.len()
        invariant
            start <= i,
            i <= tokens@.len(),
            in_cont(toksv, i as int, m, ins@.map_values(|x: i32| x as int)) == parse_inputs(
                toksv,
                start as int,
                m,
            ),
        decreases tokens@.len() - i,
    {
        proof {
            lemma_tok_view_cases(tokens@[i as int]);
            assert(toksv[i as int] == tokens@[i as int]@);
        }
        match &tokens[i] {
            Token::InputEnd => {
                proof {
                    assert(ins@.map_values(|x: i32| x as int) + Seq::<int>::empty() =~= ins@
                        .map_values(|x: i32| x as int));
                }
                return Ok((ins, i + 1));
            },
            Token::Input(n) => {
                match namespace.try_get_id(n) {
                    Ok(id) => {
                        proof {
                            let acc = ins@.map_values(|x: i32| x as int);
                            match parse_inputs(toksv, i + 1, m) {
                                InStep::Done(rest, j) => {
                                    assert(acc + (seq![id as int] + rest) =~= acc.push(id as int)
                                        + rest);
                                },
                                InStep::Fail(_) => {},
                            }
                            assert(ins@.push(id).map_values(|x: i32| x as int) =~= acc.push(
                                id as int,
                            ));
                        }
                        ins.push(id);
                        i = i + 1;
                    },
                    Err(e) => {
                        return Err(e);
                    },
                }
            },
            _ => {
                return Err(Error::InvalidInput);
            },
        }
    }
    Err(Error::InvalidInput)
}

/// Registers the output list starting at `start`, exactly as
/// [`parse_outputs`] describes.
#[verifier::loop_isolation(false)]
fn take_outputs(tokens: &Vec<Token>, start: usize, namespace: &mut Namespace) -> (r: Result<
    (Vec<i32>, usize),
    Error,
>)
    requires
        start <= tokens@.len(),
        old(namespace).wf(),
    ensures
        final(namespace).wf(),
        r matches Ok(p) ==> parse_outputs(
            tok_views(tokens@),
            start as int,
            model_of(*old(namespace)),
        ) == OutStep::Done(
            p.0@.map_values(|x: i32| x as int),
            model_of(*final(namespace)),
            p.1 as int,
        ) && p.1 <= tokens@.len(),
        r matches Err(e) ==> parse_outputs(
            tok_views(tokens@),
            start as int,
            model_of(*old(namespace)),
        ) == OutStep::Fail(e),
{
    let ghost toksv = tok_views(tokens@);
    let ghost m0 = model_of(*old(namespace));
    let mut outs: Vec<i32> = Vec::new();
    let mut i = start;
    proof {
        match parse_outputs(toksv, start as int, m0) {
            OutStep::Done(rest, mf, j) => {
                assert(Seq::<int>::empty() + rest =~= rest);
            },
            OutStep::Fail(_) => {},
        }
        assert(outs@.map_values(|x: i32| x as int) =~= Seq::<int>::empty());
    }
    while i < tokens.len()
        invariant
            start <= i,
            i <= tokens@.len(),
            namespace.wf(),
            out_cont(toksv, i as int, model_of(*namespace), outs@.map_values(|x: i32| x as int))
                == parse_outputs(toksv, start as int, m0),
        decreases tokens@.len() - i,
    {
        proof {
            lemma_tok_view_cases(tokens@[i as int]);
            assert(toksv[i as int] == tokens@[i as int]@);
        }
        match &tokens[i] {
            Token::LineFeed => {
                proof {
                    assert(outs@.map_values(|x: i32| x as int) + Seq::<int>::empty() =~= outs@
                        .map_values(|x: i32| x as int));
                }
                return Ok((outs, i + 1));
            },
            Token::Output(n) => {
                if namespace.last_id() == i32::MAX {
                    return Err(Error::InvalidInput);
                }
                let ghost m_cur = model_of(*namespace);
                let id = namespace.add_name(n);
                proof {
                    assert(model_of(*namespace) == ns_add(m_cur, n@));
                    let acc = outs@.map_values(|x: i32| x as int);
                    match parse_outputs(toksv, i + 1, ns_add(m_cur, n@)) {
                        OutStep::Done(rest, mf, j) => {
                            assert(acc + (seq![m_cur.last + 1] + rest) =~= acc.push(id as int)
                                + rest);
                        },
                        OutStep::Fail(_) => {},
                    }
                    assert(outs@.push(id).map_values(|x: i32| x as int) =~= acc.push(id as int));
                }
                outs.push(id);
                i = i + 1;
            },
            _ => {
                return Err(Error::InvalidInput);
            },
        }
    }
    Err(Error::InvalidInput)
}

/// Assembles the statement at the head of the token run, exactly as
/// [`asm_one`] describes, registering its outputs into the registry.
fn take_stmt(tokens: &Vec<Token>, namespace: &mut Namespace) -> (r: Result<
    (Statement, usize),
    Error,
>)
    requires
        old(namespace).wf(),
    ensures
        final(namespace).wf(),
        r matches Ok(p) ==> asm_one(tok_views(tokens@), model_of(*old(namespace)))
            == AsmStep::Stmt(p.0@, model_of(*final(namespace)), p.1 as int) && 1 <= p.1
            <= tokens@.len(),
        r matches Err(e) ==> asm_one(tok_views(tokens@), model_of(*old(namespace)))
            == AsmStep::Fail(e),
{
    let ghost toksv = tok_views(tokens@);
    let ghost m0 = model_of(*namespace);
    if tokens.len() == 0 {
        return Err(Error::InvalidInput);
    }
    proof {
        lemma_tok_view_cases(tokens@[0]);
        assert(toksv[0] == tokens@[0]@);
    }
    let ch = match &tokens[0] {
        Token::Channel(c) => match namespace.try_get_id(c) {
            Ok(id) => id,
            Err(e) => {
                return Err(e);
            },
        },
        _ => {
            return Err(Error::InvalidInput);
        },
    };
    if tokens.len() < 2 {
        return Err(Error::InvalidInput);
    }
    proof {
        lemma_tok_view_cases(tokens@[1]);
        assert(toksv[1] == tokens@[1]@);
    }
    let f = match &tokens[1] {
        Token::Function(ff) => *ff,
        _ => {
            return Err(Error::InvalidInput);
        },
    };
    if tokens.len() < 3 {
        return Err(Error::InvalidInput);
    }
    proof {
        lemma_tok_view_cases(tokens@[2]);
        assert(toksv[2] == tokens@[2]@);
    }
    match &tokens[2] {
        Token::InputStart => {},
        _ => {
            return Err(Error::InvalidInput);
        },
    }
    let (ins, i2) = match take_inputs(tokens, 3, namespace) {
        Ok(p) => p,
        Err(e) => {
            return Err(e);
        },
    };
    let (outs, i3) = match take_outputs(tokens, i2, namespace) {
        Ok(p) => p,
        Err(e) => {
            return Err(e);
        },
    };
    proof {
        if i3 < tokens@.len() {
            lemma_tok_view_cases(tokens@[i3 as int]);
            assert(toksv[i3 as int] == tokens@[i3 as int]@);
        }
    }
    let has_body = i3 < tokens.len() && matches!(&tokens[i3], Token::Body(_));
    let body: Option<Vec<u8>> = if has_body {
        match &tokens[i3] {
            Token::Body(b) => Some(crate::copy_bytes(b)),
            _ => None,
        }
    } else {
        None
    };
    let i4 = if has_body {
        i3 + 1
    } else {
        i3
    };
    if i4 >= tokens.len() {
        return Err(Error::InvalidInput);
    }
    proof {
        lemma_tok_view_cases(tokens@[i4 as int]);
        assert(toksv[i4 as int] == tokens@[i4 as int]@);
    }
    match &tokens[i4] {
        Token::EndOfStatement => {},
        _ => {
            return Err(Error::InvalidInput);
        },
    }
    let func = match Function::new(f) {
        Ok(fu) => fu,
        Err(e) => {
            return Err(e);
        },
    };
    if func.has_bin() != body.is_some() {
        return Err(Error::InvalidInput);
    }
    let st = Statement { channel: ch, function: f, inputs: ins, outputs: outs, body };
    Ok((st, i4 + 1))
}

/// The four big-endian bytes of a 32-bit integer.
pub open spec fn be32(x: i32) -> Seq<u8> {
    let u = x as u32;
    seq![(u >> 24) as u8, (u >> 16) as u8, (u >> 8) as u8, u as u8]
}

/// The big-endian bytes of a list of 32-bit integers, in order.
pub open spec fn cat32(v: Seq<i32>) -> Seq<u8>
    decreases v.len(),
{
    if v.len() == 0 {
        Seq::empty()
    } else {
        cat32(v.drop_last()) + be32(v.last())
    }
}

/// The byte rendering of a statement: channel, function, inputs and outputs
/// as big-endian 32-bit integers, then the body bytes if any.
pub open spec fn stmt_bytes(s: Statement) -> Seq<u8> {
    be32(s.channel) + be32(s.function) + cat32(s.inputs@) + cat32(s.outputs@) + (match s.body {
        Some(b) => b@,
        None => Seq::empty(),
    })
}

/// Appends the four big-endian bytes of `x`.
fn push_be32(buf: &mut Vec<u8>, x: i32)
    ensures
        final(buf)@ == old(buf)@ + be32(x),
{
    let u = x as u32;
    buf.push(#[verifier::truncate] ((u >> 24) as u8));
    buf.push(#[verifier::truncate] ((u >> 16) as u8));
    buf.push(#[verifier::truncate] ((u >> 8) as u8));
    buf.push(#[verifier::truncate] (u as u8));
    proof {
        assert(buf@ =~= old(buf)@ + be32(x));
    }
}

impl Statement {
    /// Renders the statement into `buf`, as [`stmt_bytes`] describes: the
    /// resolved ids as big-endian 32-bit integers, then the body bytes.
    #[verifier::loop_isolation(false)]
    pub fn write(&self, buf: &mut Vec<u8>)
        ensures
            final(buf)@ == old(buf)@ + stmt_bytes(*self),
    {
        push_be32(buf, self.channel);
        push_be32(buf, self.function);
        let ghost base = old(buf)@ + be32(self.channel) + be32(self.function);
        let mut i: usize = 0;
        proof {
            assert(cat32(self.inputs@.take(0)) =~= Seq::<u8>::empty());
            assert(buf@ =~= base + cat32(self.inputs@.take(0)));
        }
        while i < self.inputs.len()
            invariant
                i <= self.inputs@.len(),
                buf@ == base + cat32(self.inputs@.take(i as int)),
            decreases self.inputs@.len() - i,
        {
            push_be32(buf, self.inputs[i]);
            proof {
                assert(self.inputs@.take(i + 1).drop_last() =~= self.inputs@.take(i as int));
                assert(self.inputs@.take(i + 1).last() == self.inputs@[i as int]);
                assert(base + cat32(self.inputs@.take(i as int)) + be32(self.inputs@[i as int])
                    =~= base + cat32(self.inputs@.take(i + 1)));
            }
            i = i + 1;
        }
        proof {
            assert(self.inputs@.take(self.inputs@.len() as int) =~= self.inputs@);
        }
        let ghost base2 = base + cat32(self.inputs@);
        let mut j: usize = 0;
        proof {
            assert(cat32(self.outputs@.take(0)) =~= Seq::<u8>::empty());
            assert(buf@ =~= base2 + cat32(self.outputs@.take(0)));
        }
        while j < self.outputs.len()
            invariant
                j <= self.outputs@.len(),
                buf@ == base2 + cat32(self.outputs@.take(j as int)),
            decreases self.outputs@.len() - j,
        {
            push_be32(buf, self.outputs[j]);
            proof {
                assert(self.outputs@.take(j + 1).drop_last() =~= self.outputs@.take(j as int));
                assert(self.outputs@.take(j + 1).last() == self.outputs@[j as int]);
                assert(base2 + cat32(self.outputs@.take(j as int)) + be32(
                    self.outputs@[j as int],
                ) =~= base2 + cat32(self.outputs@.take(j + 1)));
            }
            j = j + 1;
        }
        proof {
            assert(self.outputs@.take(self.outputs@.len() as int) =~= self.outputs@);
        }
        match &self.body {
            Some(b) => {
                crate::append_bytes(buf, b);
            },
            None => {
                proof {
                    assert(buf@ =~= buf@ + Seq::<u8>::empty());
                }
            },
        }
        proof {
            assert(buf@ =~= old(buf)@ + stmt_bytes(*self));
        }
    }
}

/// Removes the first `n` elements of the token buffer.
fn drop_prefix(tokens: &mut Vec<Token>, n: usize)
    requires
        n <= old(tokens)@.len(),
    ensures
        final(tokens)@ == old(tokens)@.skip(n as int),
{
    let mut k: usize = 0;
    while k < n
        invariant
            k <= n <= old(tokens)@.len(),
            tokens@ == old(tokens)@.skip(k as int),
        decreases n - k,
    {
        let ghost before = tokens@;
        tokens.remove(0);
        proof {
            assert(before.remove(0) =~= before.skip(1));
            assert(old(tokens)@.skip(k as int).skip(1) =~= old(tokens)@.skip(k + 1));
        }
        k = k + 1;
    }
    proof {
        assert(tokens@ =~= old(tokens)@.skip(k as int));
    }
}

impl Statement {
    /// Assembles every statement with a boundary in the token run, consuming
    /// their tokens and registering their outputs; tokens of an unfinished
    /// statement stay for subsequent calls. Exactly [`asm_all`]; on an error
    /// the buffers hold the partial progress and the session is not
    /// resumable.
    pub fn take_tokens(tokens: &mut Vec<Token>, namespace: &mut Namespace) -> (r: Result<
        Vec<Statement>,
        Error,
    >)
        requires
            old(namespace).wf(),
        ensures
            final(namespace).wf(),
            (match asm_all(tok_views(old(tokens)@), model_of(*old(namespace)), Seq::empty()) {
                AsmOutcome::Done { stmts, ns, toks } => {
                    &&& r matches Ok(v) && stmt_views(v@) == stmts
                    &&& model_of(*final(namespace)) == ns
                    &&& tok_views(final(tokens)@) == toks
                },
                AsmOutcome::Fail(e) => r == Err::<Vec<Statement>, Error>(e),
            }),
    {
        let ghost t0 = tok_views(tokens@);
        let ghost m0 = model_of(*namespace);
        let mut stmts: Vec<Statement> = Vec::new();
        proof {
            assert(stmt_views(stmts@) =~= Seq::<StmtView>::empty());
        }
        loop
            invariant_except_break
                namespace.wf(),
                t0 == tok_views(old(tokens)@),
                m0 == model_of(*old(namespace)),
                asm_all(t0, m0, Seq::empty()) == asm_all(
                    tok_views(tokens@),
                    model_of(*namespace),
                    stmt_views(stmts@),
                ),
            ensures
                namespace.wf(),
                t0 == tok_views(old(tokens)@),
                m0 == model_of(*old(namespace)),
                !has_eos(tok_views(tokens@)),
                asm_all(t0, m0, Seq::empty()) == asm_all(
                    tok_views(tokens@),
                    model_of(*namespace),
                    stmt_views(stmts@),
                ),
            decreases tokens@.len(),
        {
            let ghost toks_cur = tok_views(tokens@);
            let ghost m_cur = model_of(*namespace);
            match find_eos(tokens) {
                None => {
                    break ;
                },
                Some(k) => {
                    proof {
                        assert(0 <= k < toks_cur.len() && toks_cur[k as int] is EndOfStatement);
                        assert(has_eos(toks_cur));
                    }
                    match take_stmt(tokens, namespace) {
                        Err(e) => {
                            return Err(e);
                        },
                        Ok((st, used)) => {
                            proof {
                                assert(asm_all(toks_cur, m_cur, stmt_views(stmts@)) == asm_all(
                                    toks_cur.skip(used as int),
                                    model_of(*namespace),
                                    stmt_views(stmts@).push(st@),
                                ));
                                assert(stmt_views(stmts@.push(st)) =~= stmt_views(stmts@).push(
                                    st@,
                                ));
                            }
                            stmts.push(st);
                            drop_prefix(tokens, used);
                            proof {
                                assert(tok_views(tokens@) =~= toks_cur.skip(used as int));
                            }
                        },
                    }
                },
            }
        }
        Ok(stmts)
    }
}

} // verus!
