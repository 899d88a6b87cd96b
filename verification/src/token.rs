//! The incremental lexer: a re-entrant state machine turning streamed raw
//! bytes into a flat sequence of typed tokens.
//!
//! A token is emitted only once its closing delimiter is present in the
//! buffer; otherwise the lexer reports insufficient data and is re-invoked
//! once more bytes arrive. It never emits a partial token.
use vstd::prelude::*;

use crate::function;
use crate::function::Function;
use crate::Error;

verus! {

/// One lexical token of the statement grammar
/// `<channel> <function>(<input>*) <output>*\n[<body>\n]`.
///
/// Names are carried as their bytes, with escape backslashes already
/// resolved.
pub enum Token {
    /// The channel name opening a statement.
    Channel(Vec<u8>),
    /// A function name, resolved to its catalogue id at lex time.
    Function(i32),
    /// The `(` opening the input list.
    InputStart,
    /// One input name.
    Input(Vec<u8>),
    /// The `)` closing the input list.
    InputEnd,
    /// One output name.
    Output(Vec<u8>),
    /// The line break closing the statement head.
    LineFeed,
    /// The attached binary body of a function that declares one.
    Body(Vec<u8>),
    /// The boundary closing a statement.
    EndOfStatement,
}

/// The mathematical shape of a [`Token`]: names as byte sequences.
pub enum TokView {
    /// The channel name opening a statement.
    Channel(Seq<u8>),
    /// A function name, resolved to its catalogue id.
    Function(int),
    /// The `(` opening the input list.
    InputStart,
    /// One input name.
    Input(Seq<u8>),
    /// The `)` closing the input list.
    InputEnd,
    /// One output name.
    Output(Seq<u8>),
    /// The line break closing the statement head.
    LineFeed,
    /// The attached binary body.
    Body(Seq<u8>),
    /// The boundary closing a statement.
    EndOfStatement,
}

impl View for Token {
    type V = TokView;

    open spec fn view(&self) -> TokView {
        match self {
            Token::Channel(n) => TokView::Channel(n@),
            Token::Function(f) => TokView::Function(*f as int),
            Token::InputStart => TokView::InputStart,
            Token::Input(n) => TokView::Input(n@),
            Token::InputEnd => TokView::InputEnd,
            Token::Output(n) => TokView::Output(n@),
            Token::LineFeed => TokView::LineFeed,
            Token::Body(b) => TokView::Body(b@),
            Token::EndOfStatement => TokView::EndOfStatement,
        }
    }
}

/// The views of a token list.
pub open spec fn tok_views(ts: Seq<Token>) -> Seq<TokView> {
    ts.map_values(|t: Token| t@)
}

/// ASCII whitespace: space, tab, line feed, form feed, carriage return.
pub open spec fn is_ws(b: u8) -> bool {
    b == 32 || b == 9 || b == 10 || b == 12 || b == 13
}

/// ASCII whitespace other than the line feed: what may separate output names
/// from the line break that ends the statement head.
pub open spec fn is_line_ws(b: u8) -> bool {
    is_ws(b) && b != 10
}

/// The token delimiters: whitespace and the input-list parentheses. A name
/// ends at the first delimiter not escaped by a backslash.
pub open spec fn is_delim(b: u8) -> bool {
    is_ws(b) || b == 40 || b == 41
}

/// The first position at or after `from` holding a byte that is not ASCII
/// whitespace.
pub open spec fn first_non_ws(s: Seq<u8>, from: int) -> Option<int>
    decreases s.len() - from,
{
    if !(0 <= from < s.len()) {
        None
    } else if !is_ws(s[from]) {
        Some(from)
    } else {
        first_non_ws(s, from + 1)
    }
}

/// The first position at or after `from` holding a byte that is not
/// whitespace-within-a-line; a line feed stops the skip.
pub open spec fn first_non_line_ws(s: Seq<u8>, from: int) -> Option<int>
    decreases s.len() - from,
{
    if !(0 <= from < s.len()) {
        None
    } else if !is_line_ws(s[from]) {
        Some(from)
    } else {
        first_non_line_ws(s, from + 1)
    }
}

/// The first position at or after `from` holding the byte `b`.
pub open spec fn find_byte(s: Seq<u8>, from: int, b: u8) -> Option<int>
    decreases s.len() - from,
{
    if !(0 <= from < s.len()) {
        None
    } else if s[from] == b {
        Some(from)
    } else {
        find_byte(s, from + 1, b)
    }
}

/// Scans a name starting at `from`: the unescaped bytes of the name and the
/// position of the delimiter that closed it. A backslash escapes an
/// immediately following delimiter into the name; before any other byte it is
/// an ordinary byte of the name. `None` means the closing delimiter has not
/// arrived yet.
pub open spec fn scan_name(s: Seq<u8>, from: int) -> Option<(Seq<u8>, int)>
    decreases s.len() - from,
{
    if !(0 <= from < s.len()) {
        None
    } else if is_delim(s[from]) {
        Some((Seq::empty(), from))
    } else if s[from] == 92 && from + 1 >= s.len() {
        None
    } else if s[from] == 92 && is_delim(s[from + 1]) {
        match scan_name(s, from + 2) {
            Some(r) => Some((seq![s[from + 1]] + r.0, r.1)),
            None => None,
        }
    } else {
        match scan_name(s, from + 1) {
            Some(r) => Some((seq![s[from]] + r.0, r.1)),
            None => None,
        }
    }
}

/// A found non-whitespace position lies between `from` and the end, holds no
/// whitespace, and nothing before it does; absence means whitespace to the
/// end.
pub proof fn lemma_first_non_ws_bounds(s: Seq<u8>, from: int)
    requires
        0 <= from <= s.len(),
    ensures
        first_non_ws(s, from) matches Some(i) ==> from <= i < s.len() && !is_ws(s[i]),
        first_non_ws(s, from) is None ==> forall|j: int| from <= j < s.len() ==> is_ws(#[trigger] s[j]),
    decreases s.len() - from,
{
    if from < s.len() && is_ws(s[from]) {
        lemma_first_non_ws_bounds(s, from + 1);
    }
}

/// As [`lemma_first_non_ws_bounds`], for whitespace-within-a-line.
pub proof fn lemma_first_non_line_ws_bounds(s: Seq<u8>, from: int)
    requires
        0 <= from <= s.len(),
    ensures
        first_non_line_ws(s, from) matches Some(i) ==> from <= i < s.len() && !is_line_ws(s[i]),
        first_non_line_ws(s, from) is None ==> forall|j: int|
            from <= j < s.len() ==> is_line_ws(#[trigger] s[j]),
    decreases s.len() - from,
{
    if from < s.len() && is_line_ws(s[from]) {
        lemma_first_non_line_ws_bounds(s, from + 1);
    }
}

/// A found byte position lies between `from` and the end and holds the byte.
pub proof fn lemma_find_byte_bounds(s: Seq<u8>, from: int, b: u8)
    requires
        0 <= from <= s.len(),
    ensures
        find_byte(s, from, b) matches Some(i) ==> from <= i < s.len() && s[i] == b,
    decreases s.len() - from,
{
    if from < s.len() && s[from] != b {
        lemma_find_byte_bounds(s, from + 1, b);
    }
}

/// A completed name scan ends at a delimiter within the buffer; a name that
/// starts at a non-delimiter moves the position strictly forward.
pub proof fn lemma_scan_name_bounds(s: Seq<u8>, from: int)
    requires
        0 <= from <= s.len(),
    ensures
        scan_name(s, from) matches Some(r) ==> from <= r.1 < s.len() && is_delim(s[r.1]) && ((
        from < s.len() && !is_delim(s[from])) ==> from < r.1),
    decreases s.len() - from,
{
    if 0 <= from < s.len() && !is_delim(s[from]) {
        if s[from] == 92 && from + 1 >= s.len() {
        } else if s[from] == 92 && is_delim(s[from + 1]) {
            lemma_scan_name_bounds(s, from + 2);
        } else {
            lemma_scan_name_bounds(s, from + 1);
        }
    }
}

/// The first position at or after `from` in `s` that holds a byte which is
/// not ASCII whitespace, or nothing if whitespace runs to the end of the
/// buffer.
pub fn first_non_whitespace_position(s: &Vec<u8>, from: usize) -> (r: Option<usize>)
    ensures
        r matches Some(i) ==> first_non_ws(s@, from as int) == Some(i as int),
        r is None ==> first_non_ws(s@, from as int) is None,
{
    let mut i = from;
    if i > s.len() {
        return None;
    }
    while i < s.len()
        invariant
            from <= i <= s@.len(),
            first_non_ws(s@, from as int) == first_non_ws(s@, i as int),
        decreases s@.len() - i,
    {
        let b = s[i];
        if !(b == 32 || b == 9 || b == 10 || b == 12 || b == 13) {
            return Some(i);
        }
        i = i + 1;
    }
    None
}

/// As [`first_non_whitespace_position`], stopping at a line feed as well.
fn first_non_line_ws_position(s: &Vec<u8>, from: usize) -> (r: Option<usize>)
    ensures
        r matches Some(i) ==> first_non_line_ws(s@, from as int) == Some(i as int),
        r is None ==> first_non_line_ws(s@, from as int) is None,
{
    let mut i = from;
    if i > s.len() {
        return None;
    }
    while i < s.len()
        invariant
            from <= i <= s@.len(),
            first_non_line_ws(s@, from as int) == first_non_line_ws(s@, i as int),
        decreases s@.len() - i,
    {
        let b = s[i];
        if !(b == 32 || b == 9 || b == 12 || b == 13) {
            return Some(i);
        }
        i = i + 1;
    }
    None
}

/// The first line feed at or after `from`.
fn find_newline(s: &Vec<u8>, from: usize) -> (r: Option<usize>)
    ensures
        r matches Some(i) ==> find_byte(s@, from as int, 10) == Some(i as int),
        r is None ==> find_byte(s@, from as int, 10) is None,
{
    let mut i = from;
    if i > s.len() {
        return None;
    }
    while i < s.len()
        invariant
            from <= i <= s@.len(),
            find_byte(s@, from as int, 10) == find_byte(s@, i as int, 10),
        decreases s@.len() - i,
    {
        if s[i] == 10 {
            return Some(i);
        }
        i = i + 1;
    }
    None
}

/// Scans a name starting at `from`, as [`scan_name`] describes: the unescaped
/// name bytes and the position of the closing delimiter, or nothing while the
/// delimiter has not arrived.
fn take_name(s: &Vec<u8>, from: usize) -> (r: Option<(Vec<u8>, usize)>)
    requires
        from <= s@.len(),
    ensures
        r matches Some(p) ==> scan_name(s@, from as int) == Some((p.0@, p.1 as int)) && from
            <= p.1 < s@.len(),
        r is None ==> scan_name(s@, from as int) is None,
{
    let mut name: Vec<u8> = Vec::new();
    let mut i = from;
    while i < s.len()
        invariant
            from <= i <= s@.len(),
            scan_cont(s@, i as int, name@) == scan_name(s@, from as int),
        decreases s@.len() - i,
    {
        let b = s[i];
        if b == 32 || b == 9 || b == 10 || b == 12 || b == 13 || b == 40 || b == 41 {
            proof {
                assert(name@ + Seq::<u8>::empty() =~= name@);
            }
            return Some((name, i));
        }
        if b == 92 {
            if i + 1 >= s.len() {
                return None;
            }
            let nb = s[i + 1];
            if nb == 32 || nb == 9 || nb == 10 || nb == 12 || nb == 13 || nb == 40 || nb == 41 {
                proof {
                    lemma_scan_cont_step(s@, i as int, name@, nb, (i + 2) as int);
                }
                name.push(nb);
                i = i + 2;
                continue;
            }
        }
        proof {
            lemma_scan_cont_step(s@, i as int, name@, b, (i + 1) as int);
        }
        name.push(b);
        i = i + 1;
    }
    None
}

/// The continuation of a name scan: what the whole scan yields once the bytes
/// accumulated so far are put back in front.
pub open spec fn scan_cont(s: Seq<u8>, i: int, acc: Seq<u8>) -> Option<(Seq<u8>, int)> {
    match scan_name(s, i) {
        Some(r) => Some((acc + r.0, r.1)),
        None => None,
    }
}

/// What one invocation of the lexer yields.
pub enum LexStep {
    /// More bytes must arrive before the next token is complete.
    More,
    /// The next token, and the position lexing resumes at.
    Tok(TokView, int),
    /// The stream violates the grammar or names an unknown function.
    Fail(Error),
}

/// Lexes a channel name: the first token of a statement. An input-list
/// parenthesis in channel position is a grammar violation.
pub open spec fn lex_channel(s: Seq<u8>, from: int) -> LexStep {
    match first_non_ws(s, from) {
        None => LexStep::More,
        Some(i) => if s[i] == 40 || s[i] == 41 {
            LexStep::Fail(Error::InvalidInput)
        } else {
            match scan_name(s, i) {
                None => LexStep::More,
                Some(r) => LexStep::Tok(TokView::Channel(r.0), r.1),
            }
        },
    }
}

/// Lexes a function name and resolves it against the catalogue at lex time.
pub open spec fn lex_function(s: Seq<u8>, from: int) -> LexStep {
    match first_non_ws(s, from) {
        None => LexStep::More,
        Some(i) => if s[i] == 40 || s[i] == 41 {
            LexStep::Fail(Error::InvalidInput)
        } else {
            match scan_name(s, i) {
                None => LexStep::More,
                Some(r) => match function::id_of_name(r.0) {
                    Some(id) => LexStep::Tok(TokView::Function(id), r.1),
                    None => LexStep::Fail(Error::FnNotFound),
                },
            }
        },
    }
}

/// Lexes the `(` that must open the input list.
pub open spec fn lex_input_start(s: Seq<u8>, from: int) -> LexStep {
    match first_non_ws(s, from) {
        None => LexStep::More,
        Some(i) => if s[i] == 40 {
            LexStep::Tok(TokView::InputStart, i + 1)
        } else {
            LexStep::Fail(Error::InvalidInput)
        },
    }
}

/// Lexes an input name, or the `)` closing the input list.
pub open spec fn lex_input(s: Seq<u8>, from: int) -> LexStep {
    match first_non_ws(s, from) {
        None => LexStep::More,
        Some(i) => if s[i] == 41 {
            LexStep::Tok(TokView::InputEnd, i + 1)
        } else if s[i] == 40 {
            LexStep::Fail(Error::InvalidInput)
        } else {
            match scan_name(s, i) {
                None => LexStep::More,
                Some(r) => LexStep::Tok(TokView::Input(r.0), r.1),
            }
        },
    }
}

/// Lexes an output name, or the line break that ends the statement head.
pub open spec fn lex_output(s: Seq<u8>, from: int) -> LexStep {
    match first_non_line_ws(s, from) {
        None => LexStep::More,
        Some(i) => if s[i] == 10 {
            LexStep::Tok(TokView::LineFeed, i + 1)
        } else if s[i] == 40 || s[i] == 41 {
            LexStep::Fail(Error::InvalidInput)
        } else {
            match scan_name(s, i) {
                None => LexStep::More,
                Some(r) => LexStep::Tok(TokView::Output(r.0), r.1),
            }
        },
    }
}

/// The id of the statement's `Function` token, looking back from the end of
/// the token run.
pub open spec fn last_function_id(toks: Seq<TokView>) -> Option<int>
    decreases toks.len(),
{
    if toks.len() == 0 {
        None
    } else {
        match toks.last() {
            TokView::Function(f) => Some(f),
            _ => last_function_id(toks.drop_last()),
        }
    }
}

/// Lexes the attached binary body: one full line of raw bytes.
pub open spec fn lex_body(s: Seq<u8>, from: int) -> LexStep {
    match find_byte(s, from, 10) {
        None => LexStep::More,
        Some(j) => LexStep::Tok(TokView::Body(s.subrange(from, j)), j + 1),
    }
}

/// After the line break the lexer looks back to the statement's `Function`
/// token: a function that declares a binary body is followed by one more
/// line; any other statement closes immediately.
pub open spec fn lex_after_line(s: Seq<u8>, from: int, toks: Seq<TokView>) -> LexStep {
    match last_function_id(toks) {
        None => LexStep::Fail(Error::InvalidInput),
        Some(f) => match function::fn_of_id(f) {
            None => LexStep::Fail(Error::FnIdInvalid),
            Some(func) => if func.has_bin_spec() {
                lex_body(s, from)
            } else {
                LexStep::Tok(TokView::EndOfStatement, from)
            },
        },
    }
}

/// One step of the lexer state machine, keyed by the most recently emitted
/// token: what [`Token::take_one`] yields on the buffer `s` at position
/// `from` with the token run `toks` behind it.
pub open spec fn lex_one(s: Seq<u8>, from: int, toks: Seq<TokView>) -> LexStep {
    if toks.len() == 0 {
        lex_channel(s, from)
    } else {
        match toks.last() {
            TokView::EndOfStatement => lex_channel(s, from),
            TokView::Channel(_) => lex_function(s, from),
            TokView::Function(_) => lex_input_start(s, from),
            TokView::InputStart => lex_input(s, from),
            TokView::Input(_) => lex_input(s, from),
            TokView::InputEnd => lex_output(s, from),
            TokView::Output(_) => lex_output(s, from),
            TokView::LineFeed => lex_after_line(s, from, toks),
            TokView::Body(_) => LexStep::Tok(TokView::EndOfStatement, from),
        }
    }
}

/// A copy of the bytes of `v` between `from` and `to`.
fn sub_bytes(v: &Vec<u8>, from: usize, to: usize) -> (r: Vec<u8>)
    requires
        from <= to <= v@.len(),
    ensures
        r@ == v@.subrange(from as int, to as int),
{
    let mut r: Vec<u8> = Vec::new();
    let mut i = from;
    while i < to
        invariant
            from <= i <= to <= v@.len(),
            r@ == v@.subrange(from as int, i as int),
        decreases to - i,
    {
        r.push(v[i]);
        proof {
            assert(r@ =~= v@.subrange(from as int, i + 1));
        }
        i = i + 1;
    }
    r
}

/// Lexes one channel token, as [`lex_channel`] describes.
fn channel_tok(text: &Vec<u8>, from: usize) -> (r: Result<Option<(Token, usize)>, Error>)
    requires
        from <= text@.len(),
    ensures
        r matches Ok(opt) ==> match opt {
            None => lex_channel(text@, from as int) is More,
            Some(p) => lex_channel(text@, from as int) == LexStep::Tok(p.0@, p.1 as int) && from
                <= p.1 <= text@.len(),
        },
        r matches Err(e) ==> lex_channel(text@, from as int) == LexStep::Fail(e),
{
    match first_non_whitespace_position(text, from) {
        None => Ok(None),
        Some(i) => {
            proof {
                lemma_first_non_ws_bounds(text@, from as int);
            }
            let n = text.len();
            let b = text[i];
            if b == 40 || b == 41 {
                Err(Error::InvalidInput)
            } else {
                match take_name(text, i) {
                    None => Ok(None),
                    Some((name, end)) => Ok(Some((Token::Channel(name), end))),
                }
            }
        },
    }
}

/// Lexes one function token, as [`lex_function`] describes.
fn function_tok(text: &Vec<u8>, from: usize) -> (r: Result<Option<(Token, usize)>, Error>)
    requires
        from <= text@.len(),
    ensures
        r matches Ok(opt) ==> match opt {
            None => lex_function(text@, from as int) is More,
            Some(p) => lex_function(text@, from as int) == LexStep::Tok(p.0@, p.1 as int) && from
                <= p.1 <= text@.len(),
        },
        r matches Err(e) ==> lex_function(text@, from as int) == LexStep::Fail(e),
{
    match first_non_whitespace_position(text, from) {
        None => Ok(None),
        Some(i) => {
            proof {
                lemma_first_non_ws_bounds(text@, from as int);
            }
            let n = text.len();
            let b = text[i];
            if b == 40 || b == 41 {
                Err(Error::InvalidInput)
            } else {
                match take_name(text, i) {
                    None => Ok(None),
                    Some((name, end)) => match Function::name_to_i32(&name) {
                        Ok(id) => Ok(Some((Token::Function(id), end))),
                        Err(e) => Err(e),
                    },
                }
            }
        },
    }
}

/// Lexes the `(` opening the input list, as [`lex_input_start`] describes.
fn input_start_tok(text: &Vec<u8>, from: usize) -> (r: Result<Option<(Token, usize)>, Error>)
    requires
        from <= text@.len(),
    ensures
        r matches Ok(opt) ==> match opt {
            None => lex_input_start(text@, from as int) is More,
            Some(p) => lex_input_start(text@, from as int) == LexStep::Tok(p.0@, p.1 as int)
                && from <= p.1 <= text@.len(),
        },
        r matches Err(e) ==> lex_input_start(text@, from as int) == LexStep::Fail(e),
{
    match first_non_whitespace_position(text, from) {
        None => Ok(None),
        Some(i) => {
            proof {
                lemma_first_non_ws_bounds(text@, from as int);
            }
            let n = text.len();
            if text[i] == 40 {
                Ok(Some((Token::InputStart, i + 1)))
            } else {
                Err(Error::InvalidInput)
            }
        },
    }
}

/// Lexes one input name or the `)` closing the list, as [`lex_input`]
/// describes.
fn input_tok(text: &Vec<u8>, from: usize) -> (r: Result<Option<(Token, usize)>, Error>)
    requires
        from <= text@.len(),
    ensures
        r matches Ok(opt) ==> match opt {
            None => lex_input(text@, from as int) is More,
            Some(p) => lex_input(text@, from as int) == LexStep::Tok(p.0@, p.1 as int) && from
                <= p.1 <= text@.len(),
        },
        r matches Err(e) ==> lex_input(text@, from as int) == LexStep::Fail(e),
{
    match first_non_whitespace_position(text, from) {
        None => Ok(None),
        Some(i) => {
            proof {
                lemma_first_non_ws_bounds(text@, from as int);
            }
            let n = text.len();
            let b = text[i];
            if b == 41 {
                Ok(Some((Token::InputEnd, i + 1)))
            } else if b == 40 {
                Err(Error::InvalidInput)
            } else {
                match take_name(text, i) {
                    None => Ok(None),
                    Some((name, end)) => Ok(Some((Token::Input(name), end))),
                }
            }
        },
    }
}

/// Lexes one output name or the line break, as [`lex_output`] describes.
fn output_tok(text: &Vec<u8>, from: usize) -> (r: Result<Option<(Token, usize)>, Error>)
    requires
        from <= text@.len(),
    ensures
        r matches Ok(opt) ==> match opt {
            None => lex_output(text@, from as int) is More,
            Some(p) => lex_output(text@, from as int) == LexStep::Tok(p.0@, p.1 as int) && from
                <= p.1 <= text@.len(),
        },
        r matches Err(e) ==> lex_output(text@, from as int) == LexStep::Fail(e),
{
    match first_non_line_ws_position(text, from) {
        None => Ok(None),
        Some(i) => {
            proof {
                lemma_first_non_line_ws_bounds(text@, from as int);
            }
            let n = text.len();
            let b = text[i];
            if b == 10 {
                Ok(Some((Token::LineFeed, i + 1)))
            } else if b == 40 || b == 41 {
                Err(Error::InvalidInput)
            } else {
                match take_name(text, i) {
                    None => Ok(None),
                    Some((name, end)) => Ok(Some((Token::Output(name), end))),
                }
            }
        },
    }
}

/// Lexes the attached binary body line, as [`lex_body`] describes.
fn body_tok(text: &Vec<u8>, from: usize) -> (r: Result<Option<(Token, usize)>, Error>)
    requires
        from <= text@.len(),
    ensures
        r matches Ok(opt) ==> match opt {
            None => lex_body(text@, from as int) is More,
            Some(p) => lex_body(text@, from as int) == LexStep::Tok(p.0@, p.1 as int) && from
                <= p.1 <= text@.len(),
        },
        r is Err ==> false,
{
    match find_newline(text, from) {
        None => Ok(None),
        Some(j) => {
            proof {
                lemma_find_byte_bounds(text@, from as int, 10);
            }
            let n = text.len();
            let bytes = sub_bytes(text, from, j);
            Ok(Some((Token::Body(bytes), j + 1)))
        },
    }
}

impl Token {
    /// Lexes the next token of `text` at position `from`, in the state the
    /// token run `tokens` puts the lexer in: the token and the position
    /// lexing resumes at; `None` while the token's closing delimiter has not
    /// arrived; an error where the stream violates the grammar or names an
    /// unknown function. Exactly [`lex_one`].
    pub fn take_one(text: &Vec<u8>, from: usize, tokens: &Vec<Token>) -> (r: Result<
        Option<(Token, usize)>,
        Error,
    >)
        requires
            from <= text@.len(),
        ensures
            r matches Ok(opt) ==> match opt {
                None => lex_one(text@, from as int, tok_views(tokens@)) is More,
                Some(p) => lex_one(text@, from as int, tok_views(tokens@)) == LexStep::Tok(
                    p.0@,
                    p.1 as int,
                ) && from <= p.1 <= text@.len(),
            },
            r matches Err(e) ==> lex_one(text@, from as int, tok_views(tokens@)) == LexStep::Fail(
                e,
            ),
    {
        let ghost toks = tok_views(tokens@);
        if tokens.len() == 0 {
            return channel_tok(text, from);
        }
        proof {
            assert(toks.last() == tokens@.last()@);
        }
        match &tokens[tokens.len() - 1] {
            Token::EndOfStatement => channel_tok(text, from),
            Token::Channel(_) => function_tok(text, from),
            Token::Function(_) => input_start_tok(text, from),
            Token::InputStart => input_tok(text, from),
            Token::Input(_) => input_tok(text, from),
            Token::InputEnd => output_tok(text, from),
            Token::Output(_) => output_tok(text, from),
            Token::Body(_) => Ok(Some((Token::EndOfStatement, from))),
            Token::LineFeed => {
                // look back to the statement's Function token
                let mut k = tokens.len();
                proof {
                    assert(toks.take(tokens@.len() as int) =~= toks);
                }
                while k > 0
                    invariant
                        k <= tokens@.len(),
                        from <= text@.len(),
                        toks == tok_views(tokens@),
                        toks.len() > 0,
                        toks.last() == TokView::LineFeed,
                        last_function_id(toks) == last_function_id(toks.take(k as int)),
                    decreases k,
                {
                    k = k - 1;
                    proof {
                        assert(toks.take(k + 1).last() == toks[k as int]);
                        assert(toks.take(k + 1).drop_last() =~= toks.take(k as int));
                    }
                    match &tokens[k] {
                        Token::Function(f) => {
                            proof {
                                assert(last_function_id(toks) == Some(*f as int));
                            }
                            let func = match Function::new(*f) {
                                Ok(func) => func,
                                Err(e) => return Err(e),
                            };
                            if func.has_bin() {
                                return body_tok(text, from);
                            } else {
                                return Ok(Some((Token::EndOfStatement, from)));
                            }
                        },
                        _ => {},
                    }
                }
                proof {
                    assert(toks.take(0) =~= Seq::<TokView>::empty());
                }
                Err(Error::InvalidInput)
            },
        }
    }
}

/// The outcome of running the lexer over a buffer until it stops.
pub enum LexOutcome {
    /// Lexing stopped waiting for more bytes: the prefix length consumed,
    /// and the token run with every completed token appended.
    Done {
        /// How many bytes of the buffer were consumed.
        consumed: int,
        /// The token run after lexing.
        toks: Seq<TokView>,
    },
    /// The stream violates the grammar or names an unknown function.
    Fail(Error),
}

/// How many zero-length lexer steps can still follow in the state `toks`
/// puts the lexer in: closing a statement consumes no bytes.
pub open spec fn ctx_rank(toks: Seq<TokView>) -> int {
    if toks.len() == 0 {
        0
    } else {
        match toks.last() {
            TokView::LineFeed => 2,
            TokView::Body(_) => 1,
            _ => 0,
        }
    }
}

/// A completed lexer step lands inside the buffer, and a step that consumes
/// no bytes closes a statement, lowering the state rank: the measure behind
/// the lexer's termination.
pub proof fn lemma_lex_one_bounds(s: Seq<u8>, from: int, toks: Seq<TokView>)
    requires
        0 <= from <= s.len(),
    ensures
        lex_one(s, from, toks) matches LexStep::Tok(t, end) ==> from <= end <= s.len() && (end
            > from || ctx_rank(toks.push(t)) < ctx_rank(toks)),
{
    lemma_first_non_ws_bounds(s, from);
    lemma_first_non_line_ws_bounds(s, from);
    lemma_find_byte_bounds(s, from, 10);
    match first_non_ws(s, from) {
        Some(i) => {
            lemma_scan_name_bounds(s, i);
        },
        None => {},
    }
    match first_non_line_ws(s, from) {
        Some(i) => {
            lemma_scan_name_bounds(s, i);
        },
        None => {},
    }
}

/// Runs the lexer from position `from` until it either wants more bytes --
/// yielding what was consumed and every token emitted on the way -- or
/// fails. What [`Token::take`] does to its buffers.
pub open spec fn lex_all(s: Seq<u8>, from: int, toks: Seq<TokView>) -> LexOutcome
    decreases s.len() - from, ctx_rank(toks),
        when 0 <= from <= s.len()
{
    match lex_one(s, from, toks) {
        LexStep::More => LexOutcome::Done { consumed: from, toks },
        LexStep::Fail(e) => LexOutcome::Fail(e),
        LexStep::Tok(t, end) => {
            proof {
                lemma_lex_one_bounds(s, from, toks);
            }
            lex_all(s, end, toks.push(t))
        },
    }
}

impl Token {
    /// Lexes every completed token out of `text`, pushing each onto
    /// `tokens`, and drops the consumed prefix of `text`; the unconsumed
    /// remainder stays for the next read. Exactly [`lex_all`] from the start
    /// of the buffer; on an error the buffers hold the partial progress and
    /// the session is not resumable.
    pub fn take(text: &mut Vec<u8>, tokens: &mut Vec<Token>) -> (r: Result<(), Error>)
        ensures
            (match lex_all(old(text)@, 0, tok_views(old(tokens)@)) {
                LexOutcome::Done { consumed, toks } => {
                    &&& r is Ok
                    &&& final(text)@ == old(text)@.skip(consumed)
                    &&& tok_views(final(tokens)@) == toks
                },
                LexOutcome::Fail(e) => r == Err::<(), Error>(e),
            }),
    {
        let ghost s0 = text@;
        let ghost t0 = tok_views(tokens@);
        let mut i: usize = 0;
        loop
            invariant_except_break
                i <= text@.len(),
                text@ == s0,
                s0 == old(text)@,
                t0 == tok_views(old(tokens)@),
                lex_all(s0, 0, t0) == lex_all(s0, i as int, tok_views(tokens@)),
            ensures
                i <= text@.len(),
                text@ == s0,
                s0 == old(text)@,
                t0 == tok_views(old(tokens)@),
                lex_all(s0, 0, t0) == (LexOutcome::Done {
                    consumed: i as int,
                    toks: tok_views(tokens@),
                }),
            decreases text@.len() - i, ctx_rank(tok_views(tokens@)),
        {
            proof {
                lemma_lex_one_bounds(s0, i as int, tok_views(tokens@));
            }
            match Token::take_one(text, i, tokens) {
                Err(e) => {
                    return Err(e);
                },
                Ok(None) => {
                    break ;
                },
                Ok(Some((t, end))) => {
                    proof {
                        assert(tok_views(tokens@.push(t)) =~= tok_views(tokens@).push(t@));
                    }
                    tokens.push(t);
                    i = end;
                },
            }
        }
        let n = text.len();
        let rest = sub_bytes(text, i, n);
        proof {
            assert(s0.subrange(i as int, s0.len() as int) =~= s0.skip(i as int));
        }
        *text = rest;
        Ok(())
    }
}

/// One accumulator step of the name scan: consuming the byte `b` (one or two
/// raw bytes, for an escape) and appending it to the accumulator leaves the
/// continuation unchanged.
proof fn lemma_scan_cont_step(s: Seq<u8>, i: int, acc: Seq<u8>, b: u8, next: int)
    requires
        0 <= i < s.len(),
        !is_delim(s[i]),
        if s[i] == 92 && i + 1 < s.len() && is_delim(s[i + 1]) {
            next == i + 2 && b == s[i + 1]
        } else {
            !(s[i] == 92 && i + 1 >= s.len()) && next == i + 1 && b == s[i]
        },
    ensures
        scan_cont(s, next, acc.push(b)) == scan_cont(s, i, acc),
{
    match scan_name(s, next) {
        Some(r) => {
            assert(scan_name(s, i) == Some((seq![b] + r.0, r.1)));
            assert(acc.push(b) + r.0 =~= acc + (seq![b] + r.0));
        },
        None => {
            assert(scan_name(s, i) is None);
        },
    }
}

} // verus!
