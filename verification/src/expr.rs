//! A tiny pure expression language over the audio-analysis variables,
//! compiled once at preset load.
//!
//! Grammar (recursive descent, standard precedence):
//!
//! ```text
//! expr   := term  (('+' | '-') term)*
//! term   := unary (('*' | '/') unary)*
//! unary  := ('-' | '+')? primary
//! primary:= number | ident | ident '(' expr (',' expr)* ')' | '(' expr ')'
//! ```
//!
//! Variables: `bass mid treb onset beat bar time`. Functions: `sin abs floor
//! min max clamp lerp`. Compilation is fallible: a malformed expression is
//! rejected with an error, never a panic. A compiled tree only names valid
//! variable slots and calls every function with its arity, so evaluating it
//! is total.
use vstd::prelude::*;

use crate::text::{chars_of, decimal, decimal_string, push_char, str_eq, string_from_chars};

verus! {

/// Number of expression variables.
pub const VAR_COUNT: usize = 7;

/// The name of variable `slot`, in slot order
/// `bass mid treb onset beat bar time`.
pub open spec fn var_name(slot: int) -> Seq<char> {
    if slot == 0 {
        "bass"@
    } else if slot == 1 {
        "mid"@
    } else if slot == 2 {
        "treb"@
    } else if slot == 3 {
        "onset"@
    } else if slot == 4 {
        "beat"@
    } else if slot == 5 {
        "bar"@
    } else {
        "time"@
    }
}

/// The slot of the variable called `name`, if any.
pub open spec fn spec_var_slot(name: Seq<char>) -> Option<usize> {
    if name == "bass"@ {
        Some(0usize)
    } else if name == "mid"@ {
        Some(1usize)
    } else if name == "treb"@ {
        Some(2usize)
    } else if name == "onset"@ {
        Some(3usize)
    } else if name == "beat"@ {
        Some(4usize)
    } else if name == "bar"@ {
        Some(5usize)
    } else if name == "time"@ {
        Some(6usize)
    } else {
        None
    }
}

/// The slot of the variable called `name`, or `None` for an unknown name.
pub fn var_slot(name: &str) -> (r: Option<usize>)
    ensures
        r == spec_var_slot(name@),
{
    if str_eq(name, "bass") {
        Some(0)
    } else if str_eq(name, "mid") {
        Some(1)
    } else if str_eq(name, "treb") {
        Some(2)
    } else if str_eq(name, "onset") {
        Some(3)
    } else if str_eq(name, "beat") {
        Some(4)
    } else if str_eq(name, "bar") {
        Some(5)
    } else if str_eq(name, "time") {
        Some(6)
    } else {
        None
    }
}

/// Built-in functions, tagged with their arity so the parser can check it.
#[derive(Debug, Clone, Copy, PartialEq, Eq, Structural)]
pub enum Func {
    Sin,
    Abs,
    Floor,
    Min,
    Max,
    Clamp,
    Lerp,
}

/// The function called `name`, if any.
pub open spec fn spec_func_from_name(name: Seq<char>) -> Option<Func> {
    if name == "sin"@ {
        Some(Func::Sin)
    } else if name == "abs"@ {
        Some(Func::Abs)
    } else if name == "floor"@ {
        Some(Func::Floor)
    } else if name == "min"@ {
        Some(Func::Min)
    } else if name == "max"@ {
        Some(Func::Max)
    } else if name == "clamp"@ {
        Some(Func::Clamp)
    } else if name == "lerp"@ {
        Some(Func::Lerp)
    } else {
        None
    }
}

/// Number of arguments `f` takes.
pub open spec fn spec_arity(f: Func) -> usize {
    match f {
        Func::Sin | Func::Abs | Func::Floor => 1,
        Func::Min | Func::Max => 2,
        Func::Clamp | Func::Lerp => 3,
    }
}

impl Func {
    /// The built-in called `name`, or `None` for an unknown name.
    pub fn from_name(name: &str) -> (r: Option<Func>)
        ensures
            r == spec_func_from_name(name@),
    {
        if str_eq(name, "sin") {
            Some(Func::Sin)
        } else if str_eq(name, "abs") {
            Some(Func::Abs)
        } else if str_eq(name, "floor") {
            Some(Func::Floor)
        } else if str_eq(name, "min") {
            Some(Func::Min)
        } else if str_eq(name, "max") {
            Some(Func::Max)
        } else if str_eq(name, "clamp") {
            Some(Func::Clamp)
        } else if str_eq(name, "lerp") {
            Some(Func::Lerp)
        } else {
            None
        }
    }

    /// Number of arguments the function takes.
    pub fn arity(self) -> (n: usize)
        ensures
            n == spec_arity(self),
    {
        match self {
            Func::Sin | Func::Abs | Func::Floor => 1,
            Func::Min | Func::Max => 2,
            Func::Clamp | Func::Lerp => 3,
        }
    }
}

/// A binary operator.
#[derive(Debug, Clone, Copy, PartialEq, Eq, Structural)]
pub enum BinOp {
    Add,
    Sub,
    Mul,
    Div,
}

/// Compiled tree. A constant keeps the text of its literal (digits and at
/// most one `.`), which always parses as a number.
#[derive(Debug)]
pub enum Node {
    Const(String),
    Var(usize),
    Neg(Box<Node>),
    Bin(BinOp, Box<Node>, Box<Node>),
    Call(Func, Vec<Node>),
}

/// The tree as a plain value.
pub enum SpecNode {
    Const(Seq<char>),
    Var(usize),
    Neg(Box<SpecNode>),
    Bin(BinOp, Box<SpecNode>, Box<SpecNode>),
    Call(Func, Seq<SpecNode>),
}

/// The plain value of a tree.
pub open spec fn node_view(n: Node) -> SpecNode
    decreases n,
{
    match n {
        Node::Const(s) => SpecNode::Const(s@),
        Node::Var(v) => SpecNode::Var(v),
        Node::Neg(b) => SpecNode::Neg(Box::new(node_view(*b))),
        Node::Bin(op, l, r) => SpecNode::Bin(op, Box::new(node_view(*l)), Box::new(node_view(*r))),
        Node::Call(f, args) => SpecNode::Call(f, nodes_view(args@)),
    }
}

/// The plain values of a sequence of trees.
pub open spec fn nodes_view(s: Seq<Node>) -> Seq<SpecNode>
    decreases s,
{
    if s.len() == 0 {
        Seq::empty()
    } else {
        nodes_view(s.drop_last()).push(node_view(s.last()))
    }
}

/// A tree every part of which is evaluable: variables name one of the
/// `VAR_COUNT` slots and every call has exactly its function's arity.
pub open spec fn well_formed(n: SpecNode) -> bool
    decreases n,
{
    match n {
        SpecNode::Const(_) => true,
        SpecNode::Var(slot) => slot < VAR_COUNT,
        SpecNode::Neg(b) => well_formed(*b),
        SpecNode::Bin(_, l, r) => well_formed(*l) && well_formed(*r),
        SpecNode::Call(f, args) => args.len() == spec_arity(f) && all_well_formed(args),
    }
}

/// Every tree of the sequence is well formed.
pub open spec fn all_well_formed(s: Seq<SpecNode>) -> bool
    decreases s,
{
    if s.len() == 0 {
        true
    } else {
        all_well_formed(s.drop_last()) && well_formed(s.last())
    }
}

/// A compiled expression.
#[derive(Debug)]
pub struct Expr {
    root: Node,
}

impl Expr {
    /// The tree as a plain value.
    pub closed spec fn view(&self) -> SpecNode {
        node_view(self.root)
    }

    /// The compiled tree.
    pub fn root(&self) -> (r: &Node)
        ensures
            node_view(*r) == self.view(),
    {
        &self.root
    }
}

/// Why an expression failed to compile.
#[derive(Debug, Clone, PartialEq)]
pub enum ExprError {
    /// A character the tokenizer does not recognize.
    UnexpectedChar(char),
    /// A numeric literal that does not parse as a number.
    BadNumber(String),
    /// An identifier that is neither a known variable nor function.
    UnknownIdent(String),
    /// A function called with the wrong number of arguments.
    WrongArity {
        /// Function name.
        func: String,
        /// Arity the function requires.
        expected: usize,
        /// Arity supplied.
        got: usize,
    },
    /// A token appeared where the grammar did not allow it.
    UnexpectedToken(String),
    /// The expression ended earlier than the grammar allows.
    UnexpectedEnd,
    /// Extra tokens remained after a complete expression.
    TrailingTokens,
}

/// A compile error as a plain value.
pub enum SpecExprError {
    UnexpectedChar(char),
    BadNumber(Seq<char>),
    UnknownIdent(Seq<char>),
    WrongArity { func: Seq<char>, expected: usize, got: usize },
    UnexpectedToken(Seq<char>),
    UnexpectedEnd,
    TrailingTokens,
}

impl ExprError {
    /// The error as a plain value.
    pub open spec fn view(&self) -> SpecExprError {
        match self {
            ExprError::UnexpectedChar(c) => SpecExprError::UnexpectedChar(*c),
            ExprError::BadNumber(s) => SpecExprError::BadNumber(s@),
            ExprError::UnknownIdent(s) => SpecExprError::UnknownIdent(s@),
            ExprError::WrongArity { func, expected, got } => SpecExprError::WrongArity {
                func: func@,
                expected: *expected,
                got: *got,
            },
            ExprError::UnexpectedToken(s) => SpecExprError::UnexpectedToken(s@),
            ExprError::UnexpectedEnd => SpecExprError::UnexpectedEnd,
            ExprError::TrailingTokens => SpecExprError::TrailingTokens,
        }
    }
}

/// The human-readable description of a compile error.
pub open spec fn error_message(e: SpecExprError) -> Seq<char> {
    match e {
        SpecExprError::UnexpectedChar(c) => "unexpected character '"@ + seq![c] + "'"@,
        SpecExprError::BadNumber(s) => "invalid number '"@ + s + "'"@,
        SpecExprError::UnknownIdent(s) => "unknown variable or function '"@ + s + "'"@,
        SpecExprError::WrongArity { func, expected, got } => func + "() takes "@ + decimal(
            expected as nat,
        ) + " argument(s), got "@ + decimal(got as nat),
        SpecExprError::UnexpectedToken(s) => "unexpected token '"@ + s + "'"@,
        SpecExprError::UnexpectedEnd => "unexpected end of expression"@,
        SpecExprError::TrailingTokens => "unexpected trailing tokens"@,
    }
}

impl ExprError {
    /// The human-readable description of the error.
    pub fn message(&self) -> (s: String)
        ensures
            s@ == error_message(self.view()),
    {
        let mut s = String::new();
        match self {
            ExprError::UnexpectedChar(c) => {
                s.append("unexpected character '");
                push_char(&mut s, *c);
                s.append("'");
            },
            ExprError::BadNumber(t) => {
                s.append("invalid number '");
                s.append(t.as_str());
                s.append("'");
            },
            ExprError::UnknownIdent(t) => {
                s.append("unknown variable or function '");
                s.append(t.as_str());
                s.append("'");
            },
            ExprError::WrongArity { func, expected, got } => {
                s.append(func.as_str());
                s.append("() takes ");
                s.append(decimal_string(*expected as u64).as_str());
                s.append(" argument(s), got ");
                s.append(decimal_string(*got as u64).as_str());
            },
            ExprError::UnexpectedToken(t) => {
                s.append("unexpected token '");
                s.append(t.as_str());
                s.append("'");
            },
            ExprError::UnexpectedEnd => {
                s.append("unexpected end of expression");
            },
            ExprError::TrailingTokens => {
                s.append("unexpected trailing tokens");
            },
        }
        s
    }
}

// ---------------------------------------------------------------- characters

/// Unicode `White_Space`, as `char::is_whitespace` classifies it.
pub open spec fn is_ws(c: char) -> bool {
    let u = c as u32;
    ||| u == 0x20
    ||| 0x09 <= u <= 0x0d
    ||| u == 0x85
    ||| u == 0xa0
    ||| u == 0x1680
    ||| 0x2000 <= u <= 0x200a
    ||| u == 0x2028
    ||| u == 0x2029
    ||| u == 0x202f
    ||| u == 0x205f
    ||| u == 0x3000
}

/// An ASCII decimal digit.
pub open spec fn is_digit(c: char) -> bool {
    '0' <= c <= '9'
}

/// An ASCII letter.
pub open spec fn is_alpha(c: char) -> bool {
    ('a' <= c <= 'z') || ('A' <= c <= 'Z')
}

/// A character that may continue a number literal.
pub open spec fn is_num_char(c: char) -> bool {
    is_digit(c) || c == '.'
}

/// A character that may start an identifier.
pub open spec fn is_ident_start(c: char) -> bool {
    is_alpha(c) || c == '_'
}

/// A character that may continue an identifier.
pub open spec fn is_ident_char(c: char) -> bool {
    is_alpha(c) || is_digit(c) || c == '_'
}

fn is_ws_exec(c: char) -> (r: bool)
    ensures
        r == is_ws(c),
{
    let u = c as u32;
    u == 0x20 || (0x09 <= u && u <= 0x0d) || u == 0x85 || u == 0xa0 || u == 0x1680 || (0x2000
        <= u && u <= 0x200a) || u == 0x2028 || u == 0x2029 || u == 0x202f || u == 0x205f || u
        == 0x3000
}

fn is_num_char_exec(c: char) -> (r: bool)
    ensures
        r == is_num_char(c),
{
    ('0' <= c && c <= '9') || c == '.'
}

fn is_ident_start_exec(c: char) -> (r: bool)
    ensures
        r == is_ident_start(c),
{
    ('a' <= c && c <= 'z') || ('A' <= c && c <= 'Z') || c == '_'
}

fn is_ident_char_exec(c: char) -> (r: bool)
    ensures
        r == is_ident_char(c),
{
    ('a' <= c && c <= 'z') || ('A' <= c && c <= 'Z') || ('0' <= c && c <= '9') || c == '_'
}

// -------------------------------------------------------------------- tokens

/// A lexical token.
#[derive(Debug, Clone, PartialEq)]
pub enum Token {
    Num(String),
    Ident(String),
    Plus,
    Minus,
    Star,
    Slash,
    LParen,
    RParen,
    Comma,
}

/// A token as a plain value.
pub enum SpecToken {
    Num(Seq<char>),
    Ident(Seq<char>),
    Plus,
    Minus,
    Star,
    Slash,
    LParen,
    RParen,
    Comma,
}

impl Token {
    /// The token as a plain value.
    pub open spec fn view(&self) -> SpecToken {
        match self {
            Token::Num(s) => SpecToken::Num(s@),
            Token::Ident(s) => SpecToken::Ident(s@),
            Token::Plus => SpecToken::Plus,
            Token::Minus => SpecToken::Minus,
            Token::Star => SpecToken::Star,
            Token::Slash => SpecToken::Slash,
            Token::LParen => SpecToken::LParen,
            Token::RParen => SpecToken::RParen,
            Token::Comma => SpecToken::Comma,
        }
    }

    /// How the token is shown in an error: a literal or name as written,
    /// an operator or punctuation as its character. A number literal is shown
    /// as its source text (`2.50`, `.5`, `007`), not as the shortest text of
    /// the `f32` it denotes (`2.5`, `0.5`, `7`): the library holds no floats.
    fn describe(&self) -> (s: String)
        ensures
            s@ == describe(self.view()),
    {
        match self {
            Token::Num(n) => n.clone(),
            Token::Ident(n) => n.clone(),
            Token::Plus => one_char('+'),
            Token::Minus => one_char('-'),
            Token::Star => one_char('*'),
            Token::Slash => one_char('/'),
            Token::LParen => one_char('('),
            Token::RParen => one_char(')'),
            Token::Comma => one_char(','),
        }
    }
}

fn one_char(c: char) -> (s: String)
    ensures
        s@ == seq![c],
{
    let mut s = String::new();
    push_char(&mut s, c);
    assert(s@ =~= seq![c]);
    s
}

/// How a token is shown in an error; a number literal as its source text.
pub open spec fn describe(t: SpecToken) -> Seq<char> {
    match t {
        SpecToken::Num(s) => s,
        SpecToken::Ident(s) => s,
        SpecToken::Plus => seq!['+'],
        SpecToken::Minus => seq!['-'],
        SpecToken::Star => seq!['*'],
        SpecToken::Slash => seq!['/'],
        SpecToken::LParen => seq!['('],
        SpecToken::RParen => seq![')'],
        SpecToken::Comma => seq![','],
    }
}

/// The plain values of a token vector.
pub open spec fn tokens_view(v: Seq<Token>) -> Seq<SpecToken> {
    v.map_values(|t: Token| t.view())
}

/// First index at or after `i` that does not continue a number literal.
pub open spec fn num_end(s: Seq<char>, i: int) -> int
    decreases s.len() - i,
{
    if 0 <= i < s.len() && is_num_char(s[i]) {
        num_end(s, i + 1)
    } else {
        i
    }
}

/// First index at or after `i` that does not continue an identifier.
pub open spec fn ident_end(s: Seq<char>, i: int) -> int
    decreases s.len() - i,
{
    if 0 <= i < s.len() && is_ident_char(s[i]) {
        ident_end(s, i + 1)
    } else {
        i
    }
}

/// How many times `c` occurs in `s`.
pub open spec fn count_char(s: Seq<char>, c: char) -> nat
    decreases s.len(),
{
    if s.len() == 0 {
        0
    } else {
        count_char(s.drop_last(), c) + if s.last() == c {
            1nat
        } else {
            0nat
        }
    }
}

/// How many ASCII digits `s` holds.
pub open spec fn count_digits(s: Seq<char>) -> nat
    decreases s.len(),
{
    if s.len() == 0 {
        0
    } else {
        count_digits(s.drop_last()) + if is_digit(s.last()) {
            1nat
        } else {
            0nat
        }
    }
}

/// Whether a run of digits and dots is a decimal number literal (what
/// `str::parse::<f32>` accepts among such runs): at least one digit and at
/// most one decimal point.
pub open spec fn valid_number(s: Seq<char>) -> bool {
    count_digits(s) >= 1 && count_char(s, '.') <= 1
}

/// `t` in front of the tokens of `r`, or `r`'s error.
pub open spec fn cons_token(
    t: SpecToken,
    r: Result<Seq<SpecToken>, SpecExprError>,
) -> Result<Seq<SpecToken>, SpecExprError> {
    match r {
        Ok(rest) => Ok(seq![t] + rest),
        Err(e) => Err(e),
    }
}

/// The tokens of `s[i..]`, or the first lexical error in it.
pub open spec fn tokens_from(s: Seq<char>, i: int) -> Result<Seq<SpecToken>, SpecExprError>
    decreases s.len() - i, 1int,
{
    if i < 0 || i >= s.len() {
        Ok(Seq::empty())
    } else {
        let c = s[i];
        if is_ws(c) {
            tokens_from(s, i + 1)
        } else if c == '+' {
            cons_token(SpecToken::Plus, tokens_from(s, i + 1))
        } else if c == '-' {
            cons_token(SpecToken::Minus, tokens_from(s, i + 1))
        } else if c == '*' {
            cons_token(SpecToken::Star, tokens_from(s, i + 1))
        } else if c == '/' {
            cons_token(SpecToken::Slash, tokens_from(s, i + 1))
        } else if c == '(' {
            cons_token(SpecToken::LParen, tokens_from(s, i + 1))
        } else if c == ')' {
            cons_token(SpecToken::RParen, tokens_from(s, i + 1))
        } else if c == ',' {
            cons_token(SpecToken::Comma, tokens_from(s, i + 1))
        } else if is_num_char(c) {
            let j = num_end(s, i + 1);
            let text = s.subrange(i, j);
            if !valid_number(text) {
                Err(SpecExprError::BadNumber(text))
            } else {
                proof {
                    lemma_num_end_bounds(s, i + 1);
                }
                cons_token(SpecToken::Num(text), tokens_from(s, j))
            }
        } else if is_ident_start(c) {
            let j = ident_end(s, i + 1);
            proof {
                lemma_ident_end_bounds(s, i + 1);
            }
            cons_token(SpecToken::Ident(s.subrange(i, j)), tokens_from(s, j))
        } else {
            Err(SpecExprError::UnexpectedChar(c))
        }
    }
}

/// The tokens of `s`, or its first lexical error.
pub open spec fn spec_tokenize(s: Seq<char>) -> Result<Seq<SpecToken>, SpecExprError> {
    tokens_from(s, 0)
}

/// `acc` in front of the tokens of `r`, or `r`'s error.
pub open spec fn prepend_tokens(
    acc: Seq<SpecToken>,
    r: Result<Seq<SpecToken>, SpecExprError>,
) -> Result<Seq<SpecToken>, SpecExprError> {
    match r {
        Ok(rest) => Ok(acc + rest),
        Err(e) => Err(e),
    }
}

/// A number literal's run ends between its start and the end of the text.
pub proof fn lemma_num_end_bounds(s: Seq<char>, i: int)
    requires
        0 <= i <= s.len(),
    ensures
        i <= num_end(s, i) <= s.len(),
    decreases s.len() - i,
{
    if i < s.len() && is_num_char(s[i]) {
        lemma_num_end_bounds(s, i + 1);
    }
}

/// An identifier's run ends between its start and the end of the text.
pub proof fn lemma_ident_end_bounds(s: Seq<char>, i: int)
    requires
        0 <= i <= s.len(),
    ensures
        i <= ident_end(s, i) <= s.len(),
    decreases s.len() - i,
{
    if i < s.len() && is_ident_char(s[i]) {
        lemma_ident_end_bounds(s, i + 1);
    }
}

proof fn lemma_prepend_push(acc: Seq<SpecToken>, t: SpecToken, r: Result<Seq<SpecToken>, SpecExprError>)
    ensures
        prepend_tokens(acc, cons_token(t, r)) == prepend_tokens(acc.push(t), r),
{
    match r {
        Ok(rest) => {
            assert(acc + (seq![t] + rest) =~= acc.push(t) + rest);
        },
        Err(_) => {},
    }
}

/// Whether the literal `s` is a well-formed number; counts as it scans.
fn number_is_valid(s: &String) -> (r: bool)
    ensures
        r == valid_number(s@),
{
    let chars = chars_of(s.as_str());
    let mut digits: usize = 0;
    let mut dots: usize = 0;
    let mut i: usize = 0;
    while i < chars.len()
        invariant
            chars@ == s@,
            i <= chars@.len(),
            digits == count_digits(chars@.take(i as int)),
            dots == count_char(chars@.take(i as int), '.'),
            digits <= i,
            dots <= i,
        decreases chars.len() - i,
    {
        assert(chars@.take(i + 1).drop_last() =~= chars@.take(i as int));
        let c = chars[i];
        if '0' <= c && c <= '9' {
            digits = digits + 1;
        }
        if c == '.' {
            dots = dots + 1;
        }
        i = i + 1;
    }
    assert(chars@.take(chars@.len() as int) =~= chars@);
    digits >= 1 && dots <= 1
}

/// Split `src` into tokens, or report its first lexical error.
fn tokenize(src: &str) -> (res: Result<Vec<Token>, ExprError>)
    ensures
        match spec_tokenize(src@) {
            Ok(toks) => res is Ok && tokens_view(res->Ok_0@) == toks,
            Err(e) => res is Err && res->Err_0.view() == e,
        },
{
    let chars = chars_of(src);
    let ghost s = chars@;
    let mut tokens: Vec<Token> = Vec::new();
    let mut i: usize = 0;
    assert(tokens_view(tokens@) =~= Seq::<SpecToken>::empty());
    assert(prepend_tokens(Seq::empty(), tokens_from(s, 0)) == tokens_from(s, 0)) by {
        match tokens_from(s, 0) {
            Ok(rest) => {
                assert(Seq::<SpecToken>::empty() + rest =~= rest);
            },
            Err(_) => {},
        }
    }
    while i < chars.len()
        invariant
            s == chars@,
            s == src@,
            i <= s.len(),
            spec_tokenize(s) == prepend_tokens(tokens_view(tokens@), tokens_from(s, i as int)),
        decreases chars.len() - i,
    {
        let ghost acc = tokens_view(tokens@);
        let c = chars[i];
        if is_ws_exec(c) {
            i = i + 1;
        } else if c == '+' || c == '-' || c == '*' || c == '/' || c == '(' || c == ')' || c
            == ',' {
            let t = if c == '+' {
                Token::Plus
            } else if c == '-' {
                Token::Minus
            } else if c == '*' {
                Token::Star
            } else if c == '/' {
                Token::Slash
            } else if c == '(' {
                Token::LParen
            } else if c == ')' {
                Token::RParen
            } else {
                Token::Comma
            };
            proof {
                lemma_prepend_push(acc, t.view(), tokens_from(s, i + 1));
            }
            tokens.push(t);
            assert(tokens_view(tokens@) =~= acc.push(t.view()));
            i = i + 1;
        } else if is_num_char_exec(c) {
            let mut j = i + 1;
            while j < chars.len() && is_num_char_exec(chars[j])
                invariant
                    i < j <= chars@.len(),
                    num_end(s, i + 1) == num_end(s, j as int),
                    s == chars@,
                decreases chars.len() - j,
            {
                j = j + 1;
            }
            let text = string_from_chars(&chars, i, j);
            if !number_is_valid(&text) {
                return Err(ExprError::BadNumber(text));
            }
            proof {
                lemma_prepend_push(acc, SpecToken::Num(text@), tokens_from(s, j as int));
            }
            let t = Token::Num(text);
            tokens.push(t);
            assert(tokens_view(tokens@) =~= acc.push(t.view()));
            i = j;
        } else if is_ident_start_exec(c) {
            let mut j = i + 1;
            while j < chars.len() && is_ident_char_exec(chars[j])
                invariant
                    i < j <= chars@.len(),
                    ident_end(s, i + 1) == ident_end(s, j as int),
                    s == chars@,
                decreases chars.len() - j,
            {
                j = j + 1;
            }
            let text = string_from_chars(&chars, i, j);
            proof {
                lemma_prepend_push(acc, SpecToken::Ident(text@), tokens_from(s, j as int));
            }
            let t = Token::Ident(text);
            tokens.push(t);
            assert(tokens_view(tokens@) =~= acc.push(t.view()));
            i = j;
        } else {
            return Err(ExprError::UnexpectedChar(c));
        }
    }
    assert(tokens_view(tokens@) + Seq::<SpecToken>::empty() =~= tokens_view(tokens@));
    Ok(tokens)
}

// -------------------------------------------------------------------- parser

/// A parse outcome: the tree and the position after it, or an error.
pub type Parsed = Result<(SpecNode, int), SpecExprError>;

/// The token at `pos` is `t`.
pub open spec fn tok_is(toks: Seq<SpecToken>, pos: int, t: SpecToken) -> bool {
    0 <= pos < toks.len() && toks[pos] == t
}

/// `expr := term (('+' | '-') term)*`
pub open spec fn p_expr(toks: Seq<SpecToken>, pos: int) -> Parsed
    decreases toks.len() - pos, 6int,
{
    match p_term(toks, pos) {
        Err(e) => Err(e),
        Ok((left, p)) => if pos <= p <= toks.len() {
            p_expr_rest(toks, p, left)
        } else {
            Err(SpecExprError::UnexpectedEnd)
        },
    }
}

/// The `(('+' | '-') term)*` tail of an expression, folding to the left.
pub open spec fn p_expr_rest(toks: Seq<SpecToken>, pos: int, left: SpecNode) -> Parsed
    decreases toks.len() - pos, 5int,
{
    if tok_is(toks, pos, SpecToken::Plus) || tok_is(toks, pos, SpecToken::Minus) {
        let op = if tok_is(toks, pos, SpecToken::Plus) {
            BinOp::Add
        } else {
            BinOp::Sub
        };
        match p_term(toks, pos + 1) {
            Err(e) => Err(e),
            Ok((right, p)) => if pos + 1 <= p <= toks.len() {
                p_expr_rest(toks, p, SpecNode::Bin(op, Box::new(left), Box::new(right)))
            } else {
                Err(SpecExprError::UnexpectedEnd)
            },
        }
    } else {
        Ok((left, pos))
    }
}

/// `term := unary (('*' | '/') unary)*`
pub open spec fn p_term(toks: Seq<SpecToken>, pos: int) -> Parsed
    decreases toks.len() - pos, 4int,
{
    match p_unary(toks, pos) {
        Err(e) => Err(e),
        Ok((left, p)) => if pos <= p <= toks.len() {
            p_term_rest(toks, p, left)
        } else {
            Err(SpecExprError::UnexpectedEnd)
        },
    }
}

/// The `(('*' | '/') unary)*` tail of a term, folding to the left.
pub open spec fn p_term_rest(toks: Seq<SpecToken>, pos: int, left: SpecNode) -> Parsed
    decreases toks.len() - pos, 3int,
{
    if tok_is(toks, pos, SpecToken::Star) || tok_is(toks, pos, SpecToken::Slash) {
        let op = if tok_is(toks, pos, SpecToken::Star) {
            BinOp::Mul
        } else {
            BinOp::Div
        };
        match p_unary(toks, pos + 1) {
            Err(e) => Err(e),
            Ok((right, p)) => if pos + 1 <= p <= toks.len() {
                p_term_rest(toks, p, SpecNode::Bin(op, Box::new(left), Box::new(right)))
            } else {
                Err(SpecExprError::UnexpectedEnd)
            },
        }
    } else {
        Ok((left, pos))
    }
}

/// `unary := ('-' | '+')? primary` (signs may repeat; `+` is dropped).
pub open spec fn p_unary(toks: Seq<SpecToken>, pos: int) -> Parsed
    decreases toks.len() - pos, 2int,
{
    if tok_is(toks, pos, SpecToken::Minus) {
        match p_unary(toks, pos + 1) {
            Err(e) => Err(e),
            Ok((inner, p)) => Ok((SpecNode::Neg(Box::new(inner)), p)),
        }
    } else if tok_is(toks, pos, SpecToken::Plus) {
        p_unary(toks, pos + 1)
    } else {
        p_primary(toks, pos)
    }
}

/// Consume the token `want` at `pos`: the next position, or the error for
/// what stands there instead.
pub open spec fn p_expect(toks: Seq<SpecToken>, pos: int, want: SpecToken) -> Result<
    int,
    SpecExprError,
> {
    if !(0 <= pos < toks.len()) {
        Err(SpecExprError::UnexpectedEnd)
    } else if toks[pos] == want {
        Ok(pos + 1)
    } else {
        Err(SpecExprError::UnexpectedToken(describe(toks[pos])))
    }
}

/// `primary := number | ident | ident '(' args ')' | '(' expr ')'`
pub open spec fn p_primary(toks: Seq<SpecToken>, pos: int) -> Parsed
    decreases toks.len() - pos, 1int,
{
    if !(0 <= pos < toks.len()) {
        Err(SpecExprError::UnexpectedEnd)
    } else {
        match toks[pos] {
            SpecToken::Num(text) => Ok((SpecNode::Const(text), pos + 1)),
            SpecToken::LParen => match p_expr(toks, pos + 1) {
                Err(e) => Err(e),
                Ok((inner, p)) => match p_expect(toks, p, SpecToken::RParen) {
                    Err(e) => Err(e),
                    Ok(p2) => Ok((inner, p2)),
                },
            },
            SpecToken::Ident(name) => if tok_is(toks, pos + 1, SpecToken::LParen) {
                p_call(toks, pos + 1, name)
            } else {
                match spec_var_slot(name) {
                    Some(slot) => Ok((SpecNode::Var(slot), pos + 1)),
                    None => Err(SpecExprError::UnknownIdent(name)),
                }
            },
            other => Err(SpecExprError::UnexpectedToken(describe(other))),
        }
    }
}

/// A call of `name` whose `(` is at `pos`: the function is looked up first,
/// then its comma-separated arguments are parsed and their count checked.
pub open spec fn p_call(toks: Seq<SpecToken>, pos: int, name: Seq<char>) -> Parsed
    decreases toks.len() - pos, 0int,
{
    match spec_func_from_name(name) {
        None => Err(SpecExprError::UnknownIdent(name)),
        Some(f) => match p_expect(toks, pos, SpecToken::LParen) {
            Err(e) => Err(e),
            Ok(p1) => {
                let args = if tok_is(toks, p1, SpecToken::RParen) {
                    Ok((Seq::<SpecNode>::empty(), p1))
                } else {
                    p_args(toks, p1, Seq::empty())
                };
                match args {
                    Err(e) => Err(e),
                    Ok((list, p2)) => match p_expect(toks, p2, SpecToken::RParen) {
                        Err(e) => Err(e),
                        Ok(p3) => if list.len() != spec_arity(f) {
                            Err(
                                SpecExprError::WrongArity {
                                    func: name,
                                    expected: spec_arity(f),
                                    got: list.len() as usize,
                                },
                            )
                        } else {
                            Ok((SpecNode::Call(f, list), p3))
                        },
                    },
                }
            },
        },
    }
}

/// Comma-separated arguments from `pos`, appended to `acc`.
pub open spec fn p_args(toks: Seq<SpecToken>, pos: int, acc: Seq<SpecNode>) -> Result<
    (Seq<SpecNode>, int),
    SpecExprError,
>
    decreases toks.len() - pos, 7int,
{
    match p_expr(toks, pos) {
        Err(e) => Err(e),
        Ok((arg, p)) => if pos <= p <= toks.len() {
            if tok_is(toks, p, SpecToken::Comma) {
                p_args(toks, p + 1, acc.push(arg))
            } else {
                Ok((acc.push(arg), p))
            }
        } else {
            Err(SpecExprError::UnexpectedEnd)
        },
    }
}

/// What `compile` computes: the tree of the whole source, or the first
/// error (lexical errors first, then grammar errors, then leftover tokens).
pub open spec fn spec_compile(src: Seq<char>) -> Result<SpecNode, SpecExprError> {
    match spec_tokenize(src) {
        Err(e) => Err(e),
        Ok(toks) => match p_expr(toks, 0) {
            Err(e) => Err(e),
            Ok((root, p)) => if p != toks.len() {
                Err(SpecExprError::TrailingTokens)
            } else {
                Ok(root)
            },
        },
    }
}

/// An exec parse result with its end position, as a plain outcome.
pub open spec fn outcome(res: Result<Node, ExprError>, pos: int) -> Parsed {
    match res {
        Ok(n) => Ok((node_view(n), pos)),
        Err(e) => Err(e.view()),
    }
}

struct Parser {
    tokens: Vec<Token>,
    pos: usize,
}

impl Parser {
    spec fn toks(&self) -> Seq<SpecToken> {
        tokens_view(self.tokens@)
    }

    spec fn ok(&self) -> bool {
        self.pos <= self.tokens@.len()
    }

    /// Whether the next token is the symbol `want` (a token carrying no text).
    fn at(&self, want: &Token) -> (r: bool)
        requires
            !(want is Num),
            !(want is Ident),
        ensures
            r == tok_is(self.toks(), self.pos as int, want.view()),
            r ==> self.pos < self.tokens.len(),
    {
        if self.pos >= self.tokens.len() {
            return false;
        }
        let t = &self.tokens[self.pos];
        let r = match (t, want) {
            (Token::Plus, Token::Plus) => true,
            (Token::Minus, Token::Minus) => true,
            (Token::Star, Token::Star) => true,
            (Token::Slash, Token::Slash) => true,
            (Token::LParen, Token::LParen) => true,
            (Token::RParen, Token::RParen) => true,
            (Token::Comma, Token::Comma) => true,
            _ => false,
        };
        assert(self.toks()[self.pos as int] == t.view());
        r
    }

    fn expect(&mut self, want: &Token) -> (res: Result<(), ExprError>)
        requires
            old(self).ok(),
            !(want is Num),
            !(want is Ident),
        ensures
            final(self).tokens == old(self).tokens,
            final(self).ok(),
            match p_expect(old(self).toks(), old(self).pos as int, want.view()) {
                Ok(p) => res is Ok && final(self).pos == p,
                Err(e) => res is Err && res->Err_0.view() == e,
            },
    {
        if self.pos >= self.tokens.len() {
            return Err(ExprError::UnexpectedEnd);
        }
        if self.at(want) {
            self.pos = self.pos + 1;
            Ok(())
        } else {
            assert(self.toks()[self.pos as int] == self.tokens@[self.pos as int].view());
            Err(ExprError::UnexpectedToken(self.tokens[self.pos].describe()))
        }
    }

    fn parse_expr(&mut self) -> (res: Result<Node, ExprError>)
        requires
            old(self).ok(),
        ensures
            final(self).tokens == old(self).tokens,
            final(self).ok(),
            outcome(res, final(self).pos as int) == p_expr(old(self).toks(), old(self).pos as int),
            res is Ok ==> old(self).pos < final(self).pos,
        decreases old(self).tokens@.len() - old(self).pos, 6int,
    {
        let ghost toks = self.toks();
        let ghost start = self.pos as int;
        let mut left = self.parse_term()?;
        loop
            invariant
                self.tokens@ == old(self).tokens@,
                self.tokens == old(self).tokens,
                toks == self.toks(),
                toks == old(self).toks(),
                start == old(self).pos,
                self.ok(),
                start < self.pos,
                p_expr(toks, start) == p_expr_rest(toks, self.pos as int, node_view(left)),
            decreases self.tokens@.len() - self.pos,
        {
            let is_add = self.at(&Token::Plus);
            if !(is_add || self.at(&Token::Minus)) {
                assert(p_expr_rest(toks, self.pos as int, node_view(left)) == Ok::<(SpecNode, int), SpecExprError>((node_view(left), self.pos as int)));
                return Ok(left);
            }
            let op = if is_add {
                BinOp::Add
            } else {
                BinOp::Sub
            };
            self.pos = self.pos + 1;
            let right = self.parse_term()?;
            left = Node::Bin(op, Box::new(left), Box::new(right));
        }
    }

    fn parse_term(&mut self) -> (res: Result<Node, ExprError>)
        requires
            old(self).ok(),
        ensures
            final(self).tokens == old(self).tokens,
            final(self).ok(),
            outcome(res, final(self).pos as int) == p_term(old(self).toks(), old(self).pos as int),
            res is Ok ==> old(self).pos < final(self).pos,
        decreases old(self).tokens@.len() - old(self).pos, 4int,
    {
        let ghost toks = self.toks();
        let ghost start = self.pos as int;
        let mut left = self.parse_unary()?;
        loop
            invariant
                self.tokens == old(self).tokens,
                toks == self.toks(),
                toks == old(self).toks(),
                start == old(self).pos,
                self.ok(),
                start < self.pos,
                p_term(toks, start) == p_term_rest(toks, self.pos as int, node_view(left)),
            decreases self.tokens@.len() - self.pos,
        {
            let is_mul = self.at(&Token::Star);
            if !(is_mul || self.at(&Token::Slash)) {
                return Ok(left);
            }
            let op = if is_mul {
                BinOp::Mul
            } else {
                BinOp::Div
            };
            self.pos = self.pos + 1;
            let right = self.parse_unary()?;
            left = Node::Bin(op, Box::new(left), Box::new(right));
        }
    }

    fn parse_unary(&mut self) -> (res: Result<Node, ExprError>)
        requires
            old(self).ok(),
        ensures
            final(self).tokens == old(self).tokens,
            final(self).ok(),
            outcome(res, final(self).pos as int) == p_unary(old(self).toks(), old(self).pos as int),
            res is Ok ==> old(self).pos < final(self).pos,
        decreases old(self).tokens@.len() - old(self).pos, 2int,
    {
        if self.at(&Token::Minus) {
            self.pos = self.pos + 1;
            let inner = self.parse_unary()?;
            Ok(Node::Neg(Box::new(inner)))
        } else if self.at(&Token::Plus) {
            self.pos = self.pos + 1;
            self.parse_unary()
        } else {
            self.parse_primary()
        }
    }

    fn parse_primary(&mut self) -> (res: Result<Node, ExprError>)
        requires
            old(self).ok(),
        ensures
            final(self).tokens == old(self).tokens,
            final(self).ok(),
            outcome(res, final(self).pos as int) == p_primary(
                old(self).toks(),
                old(self).pos as int,
            ),
            res is Ok ==> old(self).pos < final(self).pos,
        decreases old(self).tokens@.len() - old(self).pos, 1int,
    {
        if self.pos >= self.tokens.len() {
            return Err(ExprError::UnexpectedEnd);
        }
        let ghost toks = self.toks();
        let at = self.pos;
        assert(toks[at as int] == self.tokens@[at as int].view());
        match &self.tokens[at] {
            Token::Num(text) => {
                let text = text.clone();
                self.pos = at + 1;
                Ok(Node::Const(text))
            },
            Token::LParen => {
                self.pos = at + 1;
                let inner = self.parse_expr()?;
                self.expect(&Token::RParen)?;
                Ok(inner)
            },
            Token::Ident(name) => {
                let name = name.clone();
                self.pos = at + 1;
                if self.at(&Token::LParen) {
                    self.parse_call(name)
                } else {
                    match var_slot(name.as_str()) {
                        Some(slot) => Ok(Node::Var(slot)),
                        None => Err(ExprError::UnknownIdent(name)),
                    }
                }
            },
            other => Err(ExprError::UnexpectedToken(other.describe())),
        }
    }

    fn parse_call(&mut self, name: String) -> (res: Result<Node, ExprError>)
        requires
            old(self).ok(),
        ensures
            final(self).tokens == old(self).tokens,
            final(self).ok(),
            outcome(res, final(self).pos as int) == p_call(
                old(self).toks(),
                old(self).pos as int,
                name@,
            ),
            res is Ok ==> old(self).pos < final(self).pos,
        decreases old(self).tokens@.len() - old(self).pos, 0int,
    {
        let ghost toks = self.toks();
        let func = match Func::from_name(name.as_str()) {
            Some(f) => f,
            None => return Err(ExprError::UnknownIdent(name)),
        };
        self.expect(&Token::LParen)?;
        let ghost p1 = self.pos as int;
        let mut args: Vec<Node> = Vec::new();
        if !self.at(&Token::RParen) {
            loop
                invariant_except_break
                    p_args(toks, p1, Seq::empty()) == p_args(
                        toks,
                        self.pos as int,
                        nodes_view(args@),
                    ),
                invariant
                    self.tokens == old(self).tokens,
                    toks == self.toks(),
                    toks == old(self).toks(),
                    self.ok(),
                    p1 <= self.pos,
                    p1 == old(self).pos + 1,
                    !tok_is(toks, p1, SpecToken::RParen),
                    spec_func_from_name(name@) == Some(func),
                    p_expect(toks, old(self).pos as int, SpecToken::LParen) == Ok::<
                        int,
                        SpecExprError,
                    >(p1),
                ensures
                    p_args(toks, p1, Seq::empty()) == Ok::<(Seq<SpecNode>, int), SpecExprError>(
                        (nodes_view(args@), self.pos as int),
                    ),
                decreases self.tokens@.len() - self.pos,
            {
                let ghost before = self.pos as int;
                let ghost acc = nodes_view(args@);
                let arg = self.parse_expr()?;
                proof {
                    assert(nodes_view(args@.push(arg)) == acc.push(node_view(arg))) by {
                        assert(args@.push(arg).drop_last() =~= args@);
                    }
                }
                args.push(arg);
                if self.at(&Token::Comma) {
                    self.pos = self.pos + 1;
                } else {
                    break;
                }
            }
        } else {
            assert(nodes_view(args@) =~= Seq::<SpecNode>::empty());
        }
        self.expect(&Token::RParen)?;
        let want = func.arity();
        if args.len() != want {
            proof {
                lemma_nodes_view_len(args@);
            }
            return Err(ExprError::WrongArity { func: name, expected: want, got: args.len() });
        }
        proof {
            lemma_nodes_view_len(args@);
        }
        Ok(Node::Call(func, args))
    }
}

/// Viewing a sequence of trees keeps its length.
proof fn lemma_nodes_view_len(s: Seq<Node>)
    ensures
        nodes_view(s).len() == s.len(),
    decreases s.len(),
{
    if s.len() > 0 {
        lemma_nodes_view_len(s.drop_last());
    }
}

/// Compile a source expression into an evaluatable [`Expr`].
pub fn compile(src: &str) -> (res: Result<Expr, ExprError>)
    ensures
        match spec_compile(src@) {
            Ok(root) => res is Ok && res->Ok_0.view() == root,
            Err(e) => res is Err && res->Err_0.view() == e,
        },
{
    let tokens = tokenize(src)?;
    let mut parser = Parser { tokens, pos: 0 };
    let root = parser.parse_expr()?;
    if parser.pos != parser.tokens.len() {
        return Err(ExprError::TrailingTokens);
    }
    Ok(Expr { root })
}

// ---------------------------------------------------------------------- laws

/// Pushing a well-formed tree keeps a sequence well formed.
proof fn lemma_all_wf_push(s: Seq<SpecNode>, n: SpecNode)
    requires
        all_well_formed(s),
        well_formed(n),
    ensures
        all_well_formed(s.push(n)),
{
    assert(s.push(n).drop_last() =~= s);
}

proof fn lemma_expr_wf(toks: Seq<SpecToken>, pos: int)
    ensures
        p_expr(toks, pos) matches Ok((n, _)) ==> well_formed(n),
    decreases toks.len() - pos, 6int,
{
    if let Ok((left, p)) = p_term(toks, pos) {
        lemma_term_wf(toks, pos);
        if pos <= p <= toks.len() {
            lemma_expr_rest_wf(toks, p, left);
        }
    }
}

proof fn lemma_expr_rest_wf(toks: Seq<SpecToken>, pos: int, left: SpecNode)
    requires
        well_formed(left),
    ensures
        p_expr_rest(toks, pos, left) matches Ok((n, _)) ==> well_formed(n),
    decreases toks.len() - pos, 5int,
{
    if tok_is(toks, pos, SpecToken::Plus) || tok_is(toks, pos, SpecToken::Minus) {
        let op = if tok_is(toks, pos, SpecToken::Plus) {
            BinOp::Add
        } else {
            BinOp::Sub
        };
        if let Ok((right, p)) = p_term(toks, pos + 1) {
            lemma_term_wf(toks, pos + 1);
            if pos + 1 <= p <= toks.len() {
                lemma_expr_rest_wf(toks, p, SpecNode::Bin(op, Box::new(left), Box::new(right)));
            }
        }
    }
}

proof fn lemma_term_wf(toks: Seq<SpecToken>, pos: int)
    ensures
        p_term(toks, pos) matches Ok((n, _)) ==> well_formed(n),
    decreases toks.len() - pos, 4int,
{
    if let Ok((left, p)) = p_unary(toks, pos) {
        lemma_unary_wf(toks, pos);
        if pos <= p <= toks.len() {
            lemma_term_rest_wf(toks, p, left);
        }
    }
}

proof fn lemma_term_rest_wf(toks: Seq<SpecToken>, pos: int, left: SpecNode)
    requires
        well_formed(left),
    ensures
        p_term_rest(toks, pos, left) matches Ok((n, _)) ==> well_formed(n),
    decreases toks.len() - pos, 3int,
{
    if tok_is(toks, pos, SpecToken::Star) || tok_is(toks, pos, SpecToken::Slash) {
        let op = if tok_is(toks, pos, SpecToken::Star) {
            BinOp::Mul
        } else {
            BinOp::Div
        };
        if let Ok((right, p)) = p_unary(toks, pos + 1) {
            lemma_unary_wf(toks, pos + 1);
            if pos + 1 <= p <= toks.len() {
                lemma_term_rest_wf(toks, p, SpecNode::Bin(op, Box::new(left), Box::new(right)));
            }
        }
    }
}

proof fn lemma_unary_wf(toks: Seq<SpecToken>, pos: int)
    ensures
        p_unary(toks, pos) matches Ok((n, _)) ==> well_formed(n),
    decreases toks.len() - pos, 2int,
{
    if tok_is(toks, pos, SpecToken::Minus) || tok_is(toks, pos, SpecToken::Plus) {
        lemma_unary_wf(toks, pos + 1);
    } else {
        lemma_primary_wf(toks, pos);
    }
}

proof fn lemma_primary_wf(toks: Seq<SpecToken>, pos: int)
    ensures
        p_primary(toks, pos) matches Ok((n, _)) ==> well_formed(n),
    decreases toks.len() - pos, 1int,
{
    if 0 <= pos < toks.len() {
        match toks[pos] {
            SpecToken::LParen => {
                lemma_expr_wf(toks, pos + 1);
            },
            SpecToken::Ident(name) => {
                if tok_is(toks, pos + 1, SpecToken::LParen) {
                    lemma_call_wf(toks, pos + 1, name);
                }
            },
            _ => {},
        }
    }
}

proof fn lemma_call_wf(toks: Seq<SpecToken>, pos: int, name: Seq<char>)
    ensures
        p_call(toks, pos, name) matches Ok((n, _)) ==> well_formed(n),
    decreases toks.len() - pos, 0int,
{
    if let Some(f) = spec_func_from_name(name) {
        if let Ok(p1) = p_expect(toks, pos, SpecToken::LParen) {
            if !tok_is(toks, p1, SpecToken::RParen) {
                lemma_args_wf(toks, p1, Seq::empty());
            }
        }
    }
}

proof fn lemma_args_wf(toks: Seq<SpecToken>, pos: int, acc: Seq<SpecNode>)
    requires
        all_well_formed(acc),
    ensures
        p_args(toks, pos, acc) matches Ok((list, _)) ==> all_well_formed(list),
    decreases toks.len() - pos, 7int,
{
    if let Ok((arg, p)) = p_expr(toks, pos) {
        lemma_expr_wf(toks, pos);
        if pos <= p <= toks.len() {
            lemma_all_wf_push(acc, arg);
            if tok_is(toks, p, SpecToken::Comma) {
                lemma_args_wf(toks, p + 1, acc.push(arg));
            }
        }
    }
}

/// Compilation only ever produces evaluable trees: every variable names one
/// of the seven slots and every call has exactly its function's arity, so
/// evaluating a compiled expression cannot fail.
pub proof fn law_compiled_tree_is_evaluable(src: Seq<char>)
    ensures
        spec_compile(src) matches Ok(root) ==> well_formed(root),
{
    if let Ok(toks) = spec_tokenize(src) {
        lemma_expr_wf(toks, 0);
    }
}

/// An expression compiles only when its tokens are used up: the tree
/// covers the whole source.
pub proof fn law_compile_consumes_everything(src: Seq<char>)
    ensures
        spec_compile(src) is Ok ==> (spec_tokenize(src) matches Ok(toks) && p_expr(toks, 0) matches Ok(
            (_, p),
        ) && p == toks.len()),
{
}

/// The operator an additive or multiplicative token denotes.
pub open spec fn op_of(t: SpecToken) -> BinOp {
    match t {
        SpecToken::Plus => BinOp::Add,
        SpecToken::Minus => BinOp::Sub,
        SpecToken::Star => BinOp::Mul,
        _ => BinOp::Div,
    }
}

/// An additive operator token.
pub open spec fn is_additive(t: SpecToken) -> bool {
    t == SpecToken::Plus || t == SpecToken::Minus
}

/// A multiplicative operator token.
pub open spec fn is_multiplicative(t: SpecToken) -> bool {
    t == SpecToken::Star || t == SpecToken::Slash
}

/// `+` and `-` are left-associative at one level: each further operator and
/// term of an expression's tail is combined with everything to its left, so
/// the tail continues with exactly `Bin(op, left, term)` whatever `left` is.
pub proof fn law_additive_tail_folds_left(toks: Seq<SpecToken>, pos: int, left: SpecNode)
    requires
        0 <= pos < toks.len(),
        is_additive(toks[pos]),
        p_term(toks, pos + 1) is Ok,
        pos + 1 <= p_term(toks, pos + 1)->Ok_0.1 <= toks.len(),
    ensures
        p_expr_rest(toks, pos, left) == p_expr_rest(
            toks,
            p_term(toks, pos + 1)->Ok_0.1,
            SpecNode::Bin(
                op_of(toks[pos]),
                Box::new(left),
                Box::new(p_term(toks, pos + 1)->Ok_0.0),
            ),
        ),
{
}

/// `*` and `/` are left-associative at one level, like `+` and `-`.
pub proof fn law_multiplicative_tail_folds_left(toks: Seq<SpecToken>, pos: int, left: SpecNode)
    requires
        0 <= pos < toks.len(),
        is_multiplicative(toks[pos]),
        p_unary(toks, pos + 1) is Ok,
        pos + 1 <= p_unary(toks, pos + 1)->Ok_0.1 <= toks.len(),
    ensures
        p_term_rest(toks, pos, left) == p_term_rest(
            toks,
            p_unary(toks, pos + 1)->Ok_0.1,
            SpecNode::Bin(
                op_of(toks[pos]),
                Box::new(left),
                Box::new(p_unary(toks, pos + 1)->Ok_0.0),
            ),
        ),
{
}

/// Three numbers joined by two operators of the same level parse as
/// `(a op1 b) op2 c`: `1 - 2 + 3` is `(1 - 2) + 3`, `8 / 4 * 2` is
/// `(8 / 4) * 2`, and the whole token run is consumed.
pub proof fn law_same_level_chains_group_left(
    a: Seq<char>,
    b: Seq<char>,
    c: Seq<char>,
    op1: SpecToken,
    op2: SpecToken,
)
    requires
        (is_additive(op1) && is_additive(op2)) || (is_multiplicative(op1) && is_multiplicative(
            op2,
        )),
    ensures
        p_expr(
            seq![SpecToken::Num(a), op1, SpecToken::Num(b), op2, SpecToken::Num(c)],
            0,
        ) == Ok::<(SpecNode, int), SpecExprError>(
            (
                SpecNode::Bin(
                    op_of(op2),
                    Box::new(
                        SpecNode::Bin(
                            op_of(op1),
                            Box::new(SpecNode::Const(a)),
                            Box::new(SpecNode::Const(b)),
                        ),
                    ),
                    Box::new(SpecNode::Const(c)),
                ),
                5,
            ),
        ),
{
    let toks = seq![SpecToken::Num(a), op1, SpecToken::Num(b), op2, SpecToken::Num(c)];
    let ca = SpecNode::Const(a);
    let cb = SpecNode::Const(b);
    let cc = SpecNode::Const(c);
    assert(p_primary(toks, 0) == Ok::<(SpecNode, int), SpecExprError>((ca, 1)));
    assert(p_unary(toks, 0) == Ok::<(SpecNode, int), SpecExprError>((ca, 1)));
    assert(p_primary(toks, 2) == Ok::<(SpecNode, int), SpecExprError>((cb, 3)));
    assert(p_unary(toks, 2) == Ok::<(SpecNode, int), SpecExprError>((cb, 3)));
    assert(p_primary(toks, 4) == Ok::<(SpecNode, int), SpecExprError>((cc, 5)));
    assert(p_unary(toks, 4) == Ok::<(SpecNode, int), SpecExprError>((cc, 5)));
    let ab = SpecNode::Bin(op_of(op1), Box::new(ca), Box::new(cb));
    let abc = SpecNode::Bin(op_of(op2), Box::new(ab), Box::new(cc));
    if is_additive(op1) {
        assert(p_term_rest(toks, 1, ca) == Ok::<(SpecNode, int), SpecExprError>((ca, 1)));
        assert(p_term(toks, 0) == Ok::<(SpecNode, int), SpecExprError>((ca, 1)));
        assert(p_term_rest(toks, 3, cb) == Ok::<(SpecNode, int), SpecExprError>((cb, 3)));
        assert(p_term(toks, 2) == Ok::<(SpecNode, int), SpecExprError>((cb, 3)));
        assert(p_term_rest(toks, 5, cc) == Ok::<(SpecNode, int), SpecExprError>((cc, 5)));
        assert(p_term(toks, 4) == Ok::<(SpecNode, int), SpecExprError>((cc, 5)));
        assert(p_expr_rest(toks, 5, abc) == Ok::<(SpecNode, int), SpecExprError>((abc, 5)));
        assert(p_expr_rest(toks, 3, ab) == Ok::<(SpecNode, int), SpecExprError>((abc, 5)));
        assert(p_expr_rest(toks, 1, ca) == Ok::<(SpecNode, int), SpecExprError>((abc, 5)));
    } else {
        assert(p_term_rest(toks, 5, abc) == Ok::<(SpecNode, int), SpecExprError>((abc, 5)));
        assert(p_term_rest(toks, 3, ab) == Ok::<(SpecNode, int), SpecExprError>((abc, 5)));
        assert(p_term_rest(toks, 1, ca) == Ok::<(SpecNode, int), SpecExprError>((abc, 5)));
        assert(p_term(toks, 0) == Ok::<(SpecNode, int), SpecExprError>((abc, 5)));
        assert(p_expr_rest(toks, 5, abc) == Ok::<(SpecNode, int), SpecExprError>((abc, 5)));
    }
}

/// `*` and `/` bind tighter than `+` and `-`: `a + b * c` is `a + (b * c)`
/// and `a * b + c` is `(a * b) + c`.
pub proof fn law_products_bind_tighter(
    a: Seq<char>,
    b: Seq<char>,
    c: Seq<char>,
    add: SpecToken,
    mul: SpecToken,
)
    requires
        is_additive(add),
        is_multiplicative(mul),
    ensures
        p_expr(seq![SpecToken::Num(a), add, SpecToken::Num(b), mul, SpecToken::Num(c)], 0)
            == Ok::<(SpecNode, int), SpecExprError>(
            (
                SpecNode::Bin(
                    op_of(add),
                    Box::new(SpecNode::Const(a)),
                    Box::new(
                        SpecNode::Bin(
                            op_of(mul),
                            Box::new(SpecNode::Const(b)),
                            Box::new(SpecNode::Const(c)),
                        ),
                    ),
                ),
                5,
            ),
        ),
        p_expr(seq![SpecToken::Num(a), mul, SpecToken::Num(b), add, SpecToken::Num(c)], 0)
            == Ok::<(SpecNode, int), SpecExprError>(
            (
                SpecNode::Bin(
                    op_of(add),
                    Box::new(
                        SpecNode::Bin(
                            op_of(mul),
                            Box::new(SpecNode::Const(a)),
                            Box::new(SpecNode::Const(b)),
                        ),
                    ),
                    Box::new(SpecNode::Const(c)),
                ),
                5,
            ),
        ),
{
    let ca = SpecNode::Const(a);
    let cb = SpecNode::Const(b);
    let cc = SpecNode::Const(c);
    let t1 = seq![SpecToken::Num(a), add, SpecToken::Num(b), mul, SpecToken::Num(c)];
    assert(p_unary(t1, 0) == Ok::<(SpecNode, int), SpecExprError>((ca, 1)));
    assert(p_term_rest(t1, 1, ca) == Ok::<(SpecNode, int), SpecExprError>((ca, 1)));
    assert(p_term(t1, 0) == Ok::<(SpecNode, int), SpecExprError>((ca, 1)));
    assert(p_unary(t1, 2) == Ok::<(SpecNode, int), SpecExprError>((cb, 3)));
    assert(p_unary(t1, 4) == Ok::<(SpecNode, int), SpecExprError>((cc, 5)));
    let bc = SpecNode::Bin(op_of(mul), Box::new(cb), Box::new(cc));
    assert(p_term_rest(t1, 5, bc) == Ok::<(SpecNode, int), SpecExprError>((bc, 5)));
    assert(p_term_rest(t1, 3, cb) == Ok::<(SpecNode, int), SpecExprError>((bc, 5)));
    assert(p_term(t1, 2) == Ok::<(SpecNode, int), SpecExprError>((bc, 5)));
    let r1 = SpecNode::Bin(op_of(add), Box::new(ca), Box::new(bc));
    assert(p_expr_rest(t1, 5, r1) == Ok::<(SpecNode, int), SpecExprError>((r1, 5)));
    assert(p_expr_rest(t1, 1, ca) == Ok::<(SpecNode, int), SpecExprError>((r1, 5)));

    let t2 = seq![SpecToken::Num(a), mul, SpecToken::Num(b), add, SpecToken::Num(c)];
    assert(p_unary(t2, 0) == Ok::<(SpecNode, int), SpecExprError>((ca, 1)));
    assert(p_unary(t2, 2) == Ok::<(SpecNode, int), SpecExprError>((cb, 3)));
    let ab = SpecNode::Bin(op_of(mul), Box::new(ca), Box::new(cb));
    assert(p_term_rest(t2, 3, ab) == Ok::<(SpecNode, int), SpecExprError>((ab, 3)));
    assert(p_term_rest(t2, 1, ca) == Ok::<(SpecNode, int), SpecExprError>((ab, 3)));
    assert(p_term(t2, 0) == Ok::<(SpecNode, int), SpecExprError>((ab, 3)));
    assert(p_unary(t2, 4) == Ok::<(SpecNode, int), SpecExprError>((cc, 5)));
    assert(p_term_rest(t2, 5, cc) == Ok::<(SpecNode, int), SpecExprError>((cc, 5)));
    assert(p_term(t2, 4) == Ok::<(SpecNode, int), SpecExprError>((cc, 5)));
    let r2 = SpecNode::Bin(op_of(add), Box::new(ab), Box::new(cc));
    assert(p_expr_rest(t2, 5, r2) == Ok::<(SpecNode, int), SpecExprError>((r2, 5)));
    assert(p_expr_rest(t2, 3, ab) == Ok::<(SpecNode, int), SpecExprError>((r2, 5)));
}

/// The token an operator character stands for.
pub open spec fn op_token(c: char) -> SpecToken {
    if c == '+' {
        SpecToken::Plus
    } else if c == '-' {
        SpecToken::Minus
    } else if c == '*' {
        SpecToken::Star
    } else {
        SpecToken::Slash
    }
}

/// Tokenizing a digit, an operator, a digit, an operator and a digit gives
/// the five tokens in order.
proof fn lemma_tokenize_digit_chain(d1: char, o1: char, d2: char, o2: char, d3: char)
    requires
        is_digit(d1),
        is_digit(d2),
        is_digit(d3),
        o1 == '+' || o1 == '-' || o1 == '*' || o1 == '/',
        o2 == '+' || o2 == '-' || o2 == '*' || o2 == '/',
    ensures
        spec_tokenize(seq![d1, o1, d2, o2, d3]) == Ok::<Seq<SpecToken>, SpecExprError>(
            seq![
                SpecToken::Num(seq![d1]),
                op_token(o1),
                SpecToken::Num(seq![d2]),
                op_token(o2),
                SpecToken::Num(seq![d3]),
            ],
        ),
{
    let s = seq![d1, o1, d2, o2, d3];
    assert(num_end(s, 1) == 1);
    assert(num_end(s, 3) == 3);
    assert(num_end(s, 5) == 5);
    assert forall|d: char| is_digit(d) implies valid_number(seq![d]) by {
        let one = seq![d];
        assert(one.drop_last() =~= Seq::<char>::empty());
        assert(one.last() == d);
        assert(count_digits(Seq::<char>::empty()) == 0);
        assert(count_char(Seq::<char>::empty(), '.') == 0);
        assert(count_digits(one) == 1);
        assert(count_char(one, '.') == 0);
    }
    assert(s.subrange(0, 1) =~= seq![d1]);
    assert(s.subrange(2, 3) =~= seq![d2]);
    assert(s.subrange(4, 5) =~= seq![d3]);
    assert(tokens_from(s, 5) == Ok::<Seq<SpecToken>, SpecExprError>(Seq::empty()));
    let t4 = seq![SpecToken::Num(seq![d3])];
    assert(tokens_from(s, 4) == Ok::<Seq<SpecToken>, SpecExprError>(t4)) by {
        assert(seq![SpecToken::Num(seq![d3])] + Seq::<SpecToken>::empty() =~= t4);
    }
    let t3 = seq![op_token(o2)] + t4;
    assert(tokens_from(s, 3) == Ok::<Seq<SpecToken>, SpecExprError>(t3));
    let t2 = seq![SpecToken::Num(seq![d2])] + t3;
    assert(tokens_from(s, 2) == Ok::<Seq<SpecToken>, SpecExprError>(t2));
    let t1 = seq![op_token(o1)] + t2;
    assert(tokens_from(s, 1) == Ok::<Seq<SpecToken>, SpecExprError>(t1));
    let t0 = seq![SpecToken::Num(seq![d1])] + t1;
    assert(tokens_from(s, 0) == Ok::<Seq<SpecToken>, SpecExprError>(t0));
    assert(t0 =~= seq![
        SpecToken::Num(seq![d1]),
        op_token(o1),
        SpecToken::Num(seq![d2]),
        op_token(o2),
        SpecToken::Num(seq![d3]),
    ]);
}

/// Compiling `d1 o1 d2 o2 d3` with single digits and two operators of the
/// same level groups to the left: `1-2+3` compiles to `(1 - 2) + 3` and
/// `8/4*2` to `(8 / 4) * 2`.
pub proof fn law_compile_groups_same_level_left(d1: char, o1: char, d2: char, o2: char, d3: char)
    requires
        is_digit(d1),
        is_digit(d2),
        is_digit(d3),
        ((o1 == '+' || o1 == '-') && (o2 == '+' || o2 == '-')) || ((o1 == '*' || o1 == '/') && (
        o2 == '*' || o2 == '/')),
    ensures
        spec_compile(seq![d1, o1, d2, o2, d3]) == Ok::<SpecNode, SpecExprError>(
            SpecNode::Bin(
                op_of(op_token(o2)),
                Box::new(
                    SpecNode::Bin(
                        op_of(op_token(o1)),
                        Box::new(SpecNode::Const(seq![d1])),
                        Box::new(SpecNode::Const(seq![d2])),
                    ),
                ),
                Box::new(SpecNode::Const(seq![d3])),
            ),
        ),
        op_of(op_token('+')) == BinOp::Add && op_of(op_token('-')) == BinOp::Sub && op_of(
            op_token('*'),
        ) == BinOp::Mul && op_of(op_token('/')) == BinOp::Div,
{
    lemma_tokenize_digit_chain(d1, o1, d2, o2, d3);
    law_same_level_chains_group_left(seq![d1], seq![d2], seq![d3], op_token(o1), op_token(o2));
}

/// The variables are named `bass mid treb onset beat bar time`, in slot
/// order: each name resolves to its own slot, and a name resolves to a slot
/// only if it is that slot's name.
pub proof fn law_variable_slots_follow_their_names(name: Seq<char>, i: int)
    ensures
        0 <= i < VAR_COUNT ==> spec_var_slot(var_name(i)) == Some(i as usize),
        spec_var_slot(name) matches Some(s) ==> s < VAR_COUNT && name == var_name(s as int),
{
    reveal_strlit("bass");
    reveal_strlit("mid");
    reveal_strlit("treb");
    reveal_strlit("onset");
    reveal_strlit("beat");
    reveal_strlit("bar");
    reveal_strlit("time");
    assert("bass"@.len() == 4 && "mid"@.len() == 3 && "treb"@.len() == 4);
    assert("onset"@.len() == 5 && "beat"@.len() == 4 && "bar"@.len() == 3 && "time"@.len() == 4);
    assert("bass"@[0] == 'b' && "bass"@[1] == 'a' && "treb"@[0] == 't' && "beat"@[1] == 'e');
    assert("time"@[0] == 't' && "time"@[1] == 'i' && "treb"@[1] == 'r' && "beat"@[0] == 'b');
    assert("bass"@ != "treb"@ && "bass"@ != "beat"@ && "bass"@ != "time"@);
    assert("treb"@ != "beat"@ && "treb"@ != "time"@ && "beat"@ != "time"@);
    assert("mid"@[0] == 'm' && "bar"@[0] == 'b');
    assert("mid"@ != "bar"@);
}

/// The built-in functions and their arities: `sin`, `abs`, `floor` take one
/// argument, `min`, `max` two, `clamp`, `lerp` three; no other name is a
/// function.
pub proof fn law_function_names_and_arities(name: Seq<char>)
    ensures
        spec_func_from_name("sin"@) == Some(Func::Sin) && spec_arity(Func::Sin) == 1,
        spec_func_from_name("abs"@) == Some(Func::Abs) && spec_arity(Func::Abs) == 1,
        spec_func_from_name("floor"@) == Some(Func::Floor) && spec_arity(Func::Floor) == 1,
        spec_func_from_name("min"@) == Some(Func::Min) && spec_arity(Func::Min) == 2,
        spec_func_from_name("max"@) == Some(Func::Max) && spec_arity(Func::Max) == 2,
        spec_func_from_name("clamp"@) == Some(Func::Clamp) && spec_arity(Func::Clamp) == 3,
        spec_func_from_name("lerp"@) == Some(Func::Lerp) && spec_arity(Func::Lerp) == 3,
        spec_func_from_name(name) is Some ==> (name == "sin"@ || name == "abs"@ || name
            == "floor"@ || name == "min"@ || name == "max"@ || name == "clamp"@ || name
            == "lerp"@),
{
    reveal_strlit("sin");
    reveal_strlit("abs");
    reveal_strlit("floor");
    reveal_strlit("min");
    reveal_strlit("max");
    reveal_strlit("clamp");
    reveal_strlit("lerp");
    assert("sin"@[0] == 's' && "abs"@[0] == 'a' && "min"@[0] == 'm' && "max"@[0] == 'm');
    assert("min"@[1] == 'i' && "max"@[1] == 'a');
    assert("sin"@ != "abs"@ && "sin"@ != "min"@ && "sin"@ != "max"@);
    assert("abs"@ != "min"@ && "abs"@ != "max"@ && "min"@ != "max"@);
    assert("floor"@[0] == 'f' && "clamp"@[0] == 'c');
    assert("floor"@ != "clamp"@ && "clamp"@.len() == 5 && "lerp"@.len() == 4);
    assert("floor"@.len() == 5 && "sin"@.len() == 3);
}

} // verus!
