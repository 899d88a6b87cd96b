use amnis::AmnisCore;
use amnis::Error;
use amnis::Gas;
use amnis::GasPlan;
use amnis::Statement;
use amnis::Utf8Input;
use amnis::Variable;

fn no_cost() -> Gas {
    Gas::none()
}

fn stmt(channel: i32, inputs: Vec<i32>, outputs: Vec<i32>) -> Statement {
    Statement { channel, function: 1, inputs, outputs, body: None }
}

#[test]
fn end_to_end_echo_emits_one_frame() {
    // parse side of the session
    let mut input = Utf8Input::new(());
    let channel = input.namespace.add_name(&b"1".to_vec());
    let a = input.namespace.add_name(&b"a".to_vec());
    let stmts = input.feed(&b"1 echo(a) b\n".to_vec()).unwrap();
    assert_eq!(stmts.len(), 1);
    let b = stmts[0].outputs[0];
    assert_eq!(input.namespace.get_id(&b"b".to_vec()), Some(b));
    // dispatch side, under an unrestricted plan
    let mut core = AmnisCore::new(GasPlan::max());
    core.state.variables.push((a, Variable::I32(42)));
    core.state.handle_statement(&stmts[0], &no_cost()).unwrap();
    let frames = core.state.take_frames();
    assert_eq!(frames.len(), 1);
    assert_eq!(frames[0].channel, channel);
    assert_eq!(frames[0].line, 1);
    assert_eq!(frames[0].size, 0);
    assert!(frames[0].payload.is_empty());
    // the declared output is bound
    let bound = core.state.variables.iter().find(|e| e.0 == b);
    assert!(matches!(bound, Some((_, Variable::Bytes(p))) if p.is_empty()));
}

#[test]
fn frames_of_one_channel_keep_their_order() {
    let mut core = AmnisCore::new(GasPlan::max());
    core.state.variables.push((10, Variable::I64(0)));
    core.state.handle_statement(&stmt(1, vec![10], vec![11]), &no_cost()).unwrap();
    core.state.handle_statement(&stmt(2, vec![10], vec![12]), &no_cost()).unwrap();
    core.state.handle_statement(&stmt(1, vec![10], vec![13]), &no_cost()).unwrap();
    let frames = core.state.take_frames();
    assert_eq!(frames.len(), 3);
    // per-channel order follows enqueue order; the cross-channel frame sits in between
    let on_one: Vec<i32> = frames.iter().filter(|f| f.channel == 1).map(|f| f.line).collect();
    let on_two: Vec<i32> = frames.iter().filter(|f| f.channel == 2).map(|f| f.line).collect();
    assert_eq!(on_one, vec![1, 3]);
    assert_eq!(on_two, vec![2]);
}

#[test]
fn exhausting_the_cap_is_fatal_and_uncommitted() {
    let plan = GasPlan::new(Some(5), None, None, None, None, None, None, None).unwrap();
    let mut core = AmnisCore::new(plan);
    let mut cost = Gas::none();
    cost.time = Some(10);
    let r = core.state.handle_statement(&stmt(1, vec![], vec![]), &cost);
    assert_eq!(r.err(), Some(Error::GasExhausted));
    assert!(core.state.take_frames().is_empty());
    assert_eq!(core.state.gas_used.sum(), Some(0));
}

#[test]
fn charging_within_the_cap_accumulates() {
    let plan = GasPlan::new(Some(5), None, None, None, None, None, None, None).unwrap();
    let mut core = AmnisCore::new(plan);
    let mut cost = Gas::none();
    cost.time = Some(2);
    core.state.handle_statement(&stmt(1, vec![], vec![]), &cost).unwrap();
    core.state.handle_statement(&stmt(1, vec![], vec![]), &cost).unwrap();
    assert_eq!(core.state.gas_used.sum(), Some(4));
    let r = core.state.handle_statement(&stmt(1, vec![], vec![]), &cost);
    assert_eq!(r.err(), Some(Error::GasExhausted));
    assert_eq!(core.state.gas_used.sum(), Some(4));
}

#[test]
fn counter_overflow_is_reported_not_wrapped() {
    let mut core = AmnisCore::new(GasPlan::max());
    let mut cost = Gas::none();
    cost.time = Some(i64::MAX);
    core.state.handle_statement(&stmt(1, vec![], vec![]), &cost).unwrap();
    let r = core.state.handle_statement(&stmt(1, vec![], vec![]), &cost);
    assert_eq!(r.err(), Some(Error::GasPanOverflow));
}

#[test]
fn invalid_function_id_is_recoverable_per_statement() {
    let mut core = AmnisCore::new(GasPlan::max());
    let bad = Statement { channel: 1, function: 9, inputs: vec![], outputs: vec![], body: None };
    let r = core.state.handle_statement(&bad, &no_cost());
    assert_eq!(r.err(), Some(Error::FnIdInvalid));
    // the session state is untouched and keeps serving
    core.state.handle_statement(&stmt(1, vec![], vec![]), &no_cost()).unwrap();
    assert_eq!(core.state.take_frames().len(), 1);
}

#[test]
fn unbound_input_id_is_invalid() {
    let mut core = AmnisCore::new(GasPlan::max());
    let r = core.state.handle_statement(&stmt(1, vec![77], vec![]), &no_cost());
    assert_eq!(r.err(), Some(Error::InvalidInput));
}

#[test]
fn line_counter_follows_statements_and_bodies() {
    let mut core = AmnisCore::new(GasPlan::max());
    core.state.handle_statement(&stmt(1, vec![], vec![]), &no_cost()).unwrap();
    let with_body = Statement {
        channel: 1,
        function: 1,
        inputs: vec![],
        outputs: vec![],
        body: Some(b"xy".to_vec()),
    };
    core.state.handle_statement(&with_body, &no_cost()).unwrap();
    core.state.handle_statement(&stmt(1, vec![], vec![]), &no_cost()).unwrap();
    let frames = core.state.take_frames();
    assert_eq!(frames[0].line, 1);
    assert_eq!(frames[1].line, 2);
    assert_eq!(frames[1].size, 2);
    assert_eq!(frames[2].line, 4);
}

#[test]
fn duplicate_copies_a_value() {
    let v = Variable::Str(b"hello".to_vec());
    let w = v.duplicate();
    assert!(matches!(w, Variable::Str(b) if b == b"hello".to_vec()));
    let v = Variable::I32Array(vec![1, 2, 3]);
    let w = v.duplicate();
    assert!(matches!(w, Variable::I32Array(a) if a == vec![1, 2, 3]));
}

#[test]
fn parse_state_hands_out_its_source() {
    let mut input = Utf8Input::new(5u8);
    assert_eq!(*input.inner(), 5);
    *input.inner_mut() = 6;
    assert_eq!(*input.inner(), 6);
    let (text, tokens, namespace) = input.borrow3();
    assert!(text.is_empty());
    assert!(tokens.is_empty());
    assert_eq!(namespace.last_id(), 0);
    assert_eq!(input.into_inner(), 6);
}
