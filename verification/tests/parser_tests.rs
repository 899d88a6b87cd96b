use amnis::token::first_non_whitespace_position;
use amnis::Error;
use amnis::Namespace;
use amnis::Statement;
use amnis::Token;
use amnis::Utf8Input;

fn session() -> Utf8Input<()> {
    let mut input = Utf8Input::new(());
    // the default channel's name
    input.namespace.add_name(&b"1".to_vec());
    input
}

#[test]
fn one_statement_with_inputs_and_outputs() {
    let mut input = session();
    let a = input.namespace.add_name(&b"a".to_vec());
    let b = input.namespace.add_name(&b"b".to_vec());
    let stmts = input.feed(&b"1 echo(a b) c d\n".to_vec()).unwrap();
    assert_eq!(stmts.len(), 1);
    let st = &stmts[0];
    assert_eq!(st.channel, 1);
    assert_eq!(st.function, 1);
    assert_eq!(st.inputs, vec![a, b]);
    assert_eq!(st.outputs, vec![4, 5]);
    assert!(st.body.is_none());
    assert_eq!(input.namespace.get_id(&b"c".to_vec()), Some(4));
    assert_eq!(input.namespace.get_id(&b"d".to_vec()), Some(5));
}

#[test]
fn incomplete_input_yields_nothing_and_no_error() {
    let mut input = session();
    input.namespace.add_name(&b"a".to_vec());
    let stmts = input.feed(&b"1 echo(a".to_vec()).unwrap();
    assert!(stmts.is_empty());
}

#[test]
fn fragmented_input_resumes_where_it_stopped() {
    let mut input = session();
    let a = input.namespace.add_name(&b"a".to_vec());
    assert!(input.feed(&b"1 ec".to_vec()).unwrap().is_empty());
    assert!(input.feed(&b"ho(a".to_vec()).unwrap().is_empty());
    let stmts = input.feed(&b") out\n".to_vec()).unwrap();
    assert_eq!(stmts.len(), 1);
    assert_eq!(stmts[0].inputs, vec![a]);
    assert_eq!(stmts[0].outputs.len(), 1);
    assert!(input.tokens.is_empty());
    assert!(input.text.is_empty());
}

#[test]
fn unbound_input_name_is_invalid() {
    let mut input = session();
    let r = input.feed(&b"1 echo(unbound) out\n".to_vec());
    assert_eq!(r.err(), Some(Error::InvalidInput));
}

#[test]
fn unknown_function_name_is_not_found() {
    let mut input = session();
    let r = input.feed(&b"1 nosuch() out\n".to_vec());
    assert_eq!(r.err(), Some(Error::FnNotFound));
}

#[test]
fn missing_input_list_is_invalid() {
    let mut input = session();
    let r = input.feed(&b"1 echo x\n".to_vec());
    assert_eq!(r.err(), Some(Error::InvalidInput));
}

#[test]
fn parenthesis_in_channel_position_is_invalid() {
    let mut input = session();
    let r = input.feed(&b"(1 echo() x\n".to_vec());
    assert_eq!(r.err(), Some(Error::InvalidInput));
}

#[test]
fn escaped_space_joins_a_name() {
    let mut input = session();
    let spaced = input.namespace.add_name(&b"a b".to_vec());
    let stmts = input.feed(&b"1 echo(a\\ b) out\n".to_vec()).unwrap();
    assert_eq!(stmts.len(), 1);
    assert_eq!(stmts[0].inputs, vec![spaced]);
}

#[test]
fn two_statements_in_one_chunk() {
    let mut input = session();
    let a = input.namespace.add_name(&b"a".to_vec());
    let stmts = input.feed(&b"1 echo(a) x\n1 echo(a) y\n".to_vec()).unwrap();
    assert_eq!(stmts.len(), 2);
    assert_eq!(stmts[0].inputs, vec![a]);
    assert_eq!(stmts[1].inputs, vec![a]);
    assert_ne!(stmts[0].outputs[0], stmts[1].outputs[0]);
}

#[test]
fn body_against_a_bodyless_function_is_invalid() {
    let mut namespace = Namespace::new();
    namespace.add_name(&b"1".to_vec());
    let mut tokens = vec![
        Token::Channel(b"1".to_vec()),
        Token::Function(1),
        Token::InputStart,
        Token::InputEnd,
        Token::LineFeed,
        Token::Body(b"x".to_vec()),
        Token::EndOfStatement,
    ];
    let r = Statement::take_tokens(&mut tokens, &mut namespace);
    assert_eq!(r.err(), Some(Error::InvalidInput));
}

#[test]
fn take_tokens_leaves_unbounded_tokens() {
    let mut namespace = Namespace::new();
    namespace.add_name(&b"1".to_vec());
    let mut tokens = vec![Token::Channel(b"1".to_vec()), Token::Function(1)];
    let stmts = Statement::take_tokens(&mut tokens, &mut namespace).unwrap();
    assert!(stmts.is_empty());
    assert_eq!(tokens.len(), 2);
}

#[test]
fn statement_write_renders_big_endian_ids() {
    let st = Statement {
        channel: 1,
        function: 1,
        inputs: vec![2],
        outputs: vec![3],
        body: None,
    };
    let mut buf: Vec<u8> = Vec::new();
    st.write(&mut buf);
    assert_eq!(
        buf,
        vec![0, 0, 0, 1, 0, 0, 0, 1, 0, 0, 0, 2, 0, 0, 0, 3]
    );
}

#[test]
fn statement_write_appends_the_body() {
    let st = Statement {
        channel: 1,
        function: 0,
        inputs: vec![],
        outputs: vec![],
        body: Some(b"pay".to_vec()),
    };
    let mut buf: Vec<u8> = Vec::new();
    st.write(&mut buf);
    assert_eq!(buf, vec![0, 0, 0, 1, 0, 0, 0, 0, 112, 97, 121]);
}

#[test]
fn whitespace_scan_finds_the_first_mark() {
    let s = b"  \t x".to_vec();
    assert_eq!(first_non_whitespace_position(&s, 0), Some(4));
    assert_eq!(first_non_whitespace_position(&s, 4), Some(4));
    assert_eq!(first_non_whitespace_position(&b"   ".to_vec(), 0), None);
    assert_eq!(first_non_whitespace_position(&Vec::new(), 0), None);
}
