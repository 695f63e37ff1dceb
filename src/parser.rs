//! The recursive-descent parser: turns the token sequence into a `Program`
//! node holding the declared functions in source order.
use vstd::prelude::*;

use crate::lexer::{Token, TokenType, is_literal_kind};
use crate::text::{chars_eq, chars_to_string, decimal, push_decimal, push_str, str_chars};

verus! {

#[derive(Debug, Clone, PartialEq)]
pub enum ConstValue {
    String { value: String },
    Integer { value: i128 },
    Boolean { value: bool },
    /// A floating-point literal, kept as the text it was written as.
    FloatingPoint { value: String },
}

#[derive(Debug, Clone, Copy, PartialEq, Eq, Structural)]
pub enum VariableType {
    String,
    Integer,
    Boolean,
    FloatingPoint,
    Void,
}

#[derive(Debug, Clone, Copy, PartialEq, Eq, Structural)]
pub enum BinaryOperation {
    Add,
    Sub,
    Mul,
    Div,
}

#[derive(Debug, PartialEq)]
pub enum Node {
    Program { body: Vec<Box<Node>> },
    Function {
        name: String,
        return_type: VariableType,
        args: Vec<Box<Node>>,
        body: Vec<Box<Node>>,
    },
    FunctionCall { name: String, args: Vec<Box<Node>> },
    Expr { value: Box<Node> },
    Assign { name: String, var_type: VariableType, value: Box<Node> },
    VariableReference { name: String },
    Const { value_type: ConstValue },
    Return { value: Box<Node> },
    BinaryOp { left: Box<Node>, op: BinaryOperation, right: Box<Node> },
    Blank,
}

/// The literal kinds' variable types.
pub open spec fn literal_variable_type(t: TokenType) -> Option<VariableType> {
    match t {
        TokenType::String => Some(VariableType::String),
        TokenType::Integer => Some(VariableType::Integer),
        TokenType::FloatingPoint => Some(VariableType::FloatingPoint),
        TokenType::Boolean => Some(VariableType::Boolean),
        _ => None,
    }
}

/// The variable type a type name denotes.
pub open spec fn type_name_variable_type(s: Seq<char>) -> Option<VariableType> {
    if s == "string"@ {
        Some(VariableType::String)
    } else if s == "int"@ {
        Some(VariableType::Integer)
    } else if s == "float"@ {
        Some(VariableType::FloatingPoint)
    } else if s == "bool"@ {
        Some(VariableType::Boolean)
    } else {
        None
    }
}

/// The words that start a variable declaration or a parameter.
pub open spec fn is_type_name(s: Seq<char>) -> bool {
    s == "int"@ || s == "string"@ || s == "char"@ || s == "bool"@ || s == "float"@
}

/// The value of a text of decimal digits.
pub open spec fn digits_value(s: Seq<char>) -> int
    decreases s.len(),
{
    if s.len() == 0 {
        0
    } else {
        digits_value(s.drop_last()) * 10 + (s.last() as int - '0' as int)
    }
}

pub open spec fn all_digits(s: Seq<char>) -> bool {
    forall|k: int| 0 <= k < s.len() ==> '0' <= #[trigger] s[k] <= '9'
}

/// The variable type of a literal token kind.
pub fn token_type_to_variable_type(token_type: TokenType) -> (r: VariableType)
    requires
        is_literal_kind(token_type),
    ensures
        literal_variable_type(token_type) == Some(r),
{
    match token_type {
        TokenType::String => VariableType::String,
        TokenType::Integer => VariableType::Integer,
        TokenType::FloatingPoint => VariableType::FloatingPoint,
        _ => VariableType::Boolean,
    }
}

fn variable_type_of_name(string: &str) -> (r: Option<VariableType>)
    ensures
        r == type_name_variable_type(string@),
{
    let v = str_chars(string);
    if chars_eq(&v, "string") {
        Some(VariableType::String)
    } else if chars_eq(&v, "int") {
        Some(VariableType::Integer)
    } else if chars_eq(&v, "float") {
        Some(VariableType::FloatingPoint)
    } else if chars_eq(&v, "bool") {
        Some(VariableType::Boolean)
    } else {
        None
    }
}

/// The variable type a type name denotes: `string`, `int`, `float` or `bool`.
pub fn string_to_variable_type(string: &str) -> (r: VariableType)
    requires
        type_name_variable_type(string@) is Some,
    ensures
        type_name_variable_type(string@) == Some(r),
{
    match variable_type_of_name(string) {
        Some(t) => t,
        None => VariableType::Void,
    }
}

fn is_type_name_exec(s: &String) -> (r: bool)
    ensures
        r == is_type_name(s@),
{
    let v = str_chars(s.as_str());
    chars_eq(&v, "int") || chars_eq(&v, "string") || chars_eq(&v, "char") || chars_eq(&v, "bool")
        || chars_eq(&v, "float")
}

/// The length of the sign that may start an integer text: one for `+` or `-`.
pub open spec fn sign_len(s: Seq<char>) -> int {
    if s.len() > 0 && (s[0] == '-' || s[0] == '+') {
        1
    } else {
        0
    }
}

/// The digits of an integer text, after its sign.
pub open spec fn unsigned_part(s: Seq<char>) -> Seq<char> {
    s.subrange(sign_len(s), s.len() as int)
}

/// An optional `+` or `-` followed by at least one decimal digit.
pub open spec fn integer_text(s: Seq<char>) -> bool {
    unsigned_part(s).len() > 0 && all_digits(unsigned_part(s))
}

/// The value of an integer text.
pub open spec fn integer_value(s: Seq<char>) -> int {
    if s.len() > 0 && s[0] == '-' {
        -digits_value(unsigned_part(s))
    } else {
        digits_value(unsigned_part(s))
    }
}

/// An integer text whose value fits an `i128`.
pub open spec fn i128_text(s: Seq<char>) -> bool {
    integer_text(s) && i128::MIN <= integer_value(s) <= i128::MAX
}

/// The value of the digits of `v` from `start` on, if they are all digits, at
/// least one, and the value fits a `u128`.
fn parse_unsigned(v: &Vec<char>, start: usize) -> (r: Option<u128>)
    requires
        start <= v@.len(),
    ensures
        r matches Some(n) ==> v@.len() > start && all_digits(v@.subrange(start as int, v@.len() as int))
            && n == digits_value(v@.subrange(start as int, v@.len() as int)),
        r is None ==> v@.len() == start || !all_digits(v@.subrange(start as int, v@.len() as int))
            || digits_value(v@.subrange(start as int, v@.len() as int)) > u128::MAX,
{
    let ghost u = v@.subrange(start as int, v@.len() as int);
    if v.len() == start {
        return None;
    }
    let mut acc: u128 = 0;
    let mut k: usize = start;
    while k < v.len()
        invariant
            u == v@.subrange(start as int, v@.len() as int),
            start <= k <= v@.len(),
            all_digits(u.take(k - start)),
            acc == digits_value(u.take(k - start)),
        decreases v@.len() - k,
    {
        let c = v[k];
        assert(u.take(k - start + 1).drop_last() =~= u.take(k - start));
        assert(u[k - start] == c);
        if c < '0' || c > '9' {
            assert(!all_digits(u)) by {
                assert(!('0' <= u[k - start] <= '9'));
            }
            return None;
        }
        let d: u128 = ((c as u32) - ('0' as u32)) as u128;
        if acc > (u128::MAX - d) / 10 {
            proof {
                lemma_digits_monotone(u, k - start + 1);
            }
            return None;
        }
        acc = acc * 10 + d;
        k = k + 1;
    }
    assert(u.take(u.len() as int) =~= u);
    Some(acc)
}

/// The value of an integer text, if it is one and fits an `i128`.
fn parse_integer(s: &String) -> (r: Option<i128>)
    ensures
        r matches Some(v) ==> i128_text(s@) && v == integer_value(s@),
        r is None ==> !i128_text(s@),
{
    let v = str_chars(s.as_str());
    let negative = v.len() > 0 && v[0] == '-';
    let start: usize = if v.len() > 0 && (v[0] == '-' || v[0] == '+') {
        1
    } else {
        0
    };
    assert(v@.subrange(start as int, v@.len() as int) == unsigned_part(s@));
    let m = match parse_unsigned(&v, start) {
        Some(m) => m,
        None => {
            proof {
                if integer_text(s@) {
                    lemma_digits_nonneg(unsigned_part(s@));
                }
            }
            return None;
        },
    };
    if negative {
        if m > 170141183460469231731687303715884105728u128 {
            return None;
        } else if m == 170141183460469231731687303715884105728u128 {
            return Some(i128::MIN);
        }
        Some(-(m as i128))
    } else {
        if m > 170141183460469231731687303715884105727u128 {
            return None;
        }
        Some(m as i128)
    }
}

proof fn lemma_digits_monotone(s: Seq<char>, k: int)
    requires
        0 <= k <= s.len(),
    ensures
        all_digits(s) ==> digits_value(s) >= digits_value(s.take(k)),
    decreases s.len() - k,
{
    if k < s.len() && all_digits(s) {
        lemma_digits_monotone(s, k + 1);
        assert(s.take(k + 1).drop_last() =~= s.take(k));
        assert(digits_value(s.take(k)) >= 0) by {
            lemma_digits_nonneg(s.take(k));
        }
    } else if k == s.len() {
        assert(s.take(k) =~= s);
    }
}

proof fn lemma_digits_nonneg(s: Seq<char>)
    requires
        all_digits(s),
    ensures
        digits_value(s) >= 0,
    decreases s.len(),
{
    if s.len() > 0 {
        assert(all_digits(s.drop_last())) by {
            assert forall|k: int| 0 <= k < s.drop_last().len() implies '0' <= #[trigger] s.drop_last()[k]
                <= '9' by {
                assert(s.drop_last()[k] == s[k]);
            }
        }
        lemma_digits_nonneg(s.drop_last());
    }
}

/// The constant node of a literal token.
pub open spec fn constant_of(tok: Token, n: Node) -> bool {
    match n {
        Node::Const { value_type } => match value_type {
            ConstValue::String { value } => tok.token_type == TokenType::String && value@ == tok.value@,
            ConstValue::Integer { value } => tok.token_type == TokenType::Integer && i128_text(
                tok.value@,
            ) && value == integer_value(tok.value@),
            ConstValue::Boolean { value } => tok.token_type == TokenType::Boolean && ((value
                && tok.value@ == "true"@) || (!value && tok.value@ == "false"@)),
            ConstValue::FloatingPoint { value } => tok.token_type == TokenType::FloatingPoint
                && value@ == tok.value@,
        },
        _ => false,
    }
}

/// The constant node for a literal token. `None` for a token of another kind,
/// an integer whose text is not a signed decimal number that fits an `i128`,
/// and a boolean whose text is neither `true` nor `false`.
pub fn token_as_constant_node(tok: Token) -> (r: Option<Node>)
    ensures
        r matches Some(n) ==> constant_of(tok, n),
        r is None <==> !is_literal_kind(tok.token_type) || (tok.token_type == TokenType::Integer
            && !i128_text(tok.value@)) || (tok.token_type == TokenType::Boolean && tok.value@
            != "true"@ && tok.value@ != "false"@),
{
    match tok.token_type {
        TokenType::String => Some(Node::Const { value_type: ConstValue::String { value: tok.value } }),
        TokenType::Integer => match parse_integer(&tok.value) {
            Some(v) => Some(Node::Const { value_type: ConstValue::Integer { value: v } }),
            None => None,
        },
        TokenType::Boolean => {
            let v = str_chars(tok.value.as_str());
            if chars_eq(&v, "true") {
                Some(Node::Const { value_type: ConstValue::Boolean { value: true } })
            } else if chars_eq(&v, "false") {
                Some(Node::Const { value_type: ConstValue::Boolean { value: false } })
            } else {
                None
            }
        },
        TokenType::FloatingPoint => Some(
            Node::Const { value_type: ConstValue::FloatingPoint { value: tok.value } },
        ),
        _ => None,
    }
}

/// What kind of grammar violation stopped the parser.
#[derive(Debug, Clone, Copy, PartialEq, Eq, Structural)]
pub enum ParseErrorKind {
    Semantics,
    Expectation,
    Unexpected,
    Undefined,
    Type,
    Unsupported,
    Syntax,
    /// The input ended with `count` function bodies still open.
    UnclosedScopes { count: u32 },
}

/// A fatal parse diagnostic: its kind, a description, and the line and column
/// of the token at which it arose.
#[derive(Debug)]
pub struct ParseError {
    pub kind: ParseErrorKind,
    pub description: String,
    pub line: usize,
    pub column: usize,
}

impl ParseError {
    /// The category word of the diagnostic.
    pub fn category(&self) -> (r: &'static str)
        ensures
            r@ == category_name(self.kind),
    {
        match self.kind {
            ParseErrorKind::Semantics => "Semantics",
            ParseErrorKind::Expectation => "Expectation",
            ParseErrorKind::Unexpected => "Unexpected",
            ParseErrorKind::Undefined => "Undefined",
            ParseErrorKind::Type => "Type",
            ParseErrorKind::Unsupported => "Unsupported",
            ParseErrorKind::Syntax => "Syntax",
            ParseErrorKind::UnclosedScopes { .. } => "Syntax",
        }
    }

    /// The diagnostic as text: `'<category> Error: <description>' at line <l>, char <c>`.
    pub fn message(&self) -> (r: String)
        ensures
            r@ == seq!['\''] + category_name(self.kind) + " Error: "@ + self.description@
                + "' at line "@ + decimal(self.line as nat) + ", char "@ + decimal(
                self.column as nat,
            ),
    {
        let mut m: Vec<char> = Vec::new();
        m.push('\'');
        push_str(&mut m, self.category());
        push_str(&mut m, " Error: ");
        push_str(&mut m, self.description.as_str());
        push_str(&mut m, "' at line ");
        push_decimal(&mut m, self.line as u128);
        push_str(&mut m, ", char ");
        push_decimal(&mut m, self.column as u128);
        assert(m@ =~= seq!['\''] + category_name(self.kind) + " Error: "@ + self.description@
            + "' at line "@ + decimal(self.line as nat) + ", char "@ + decimal(self.column as nat));
        chars_to_string(&m)
    }
}

/// The diagnostic `e` carries the line and column of the token at `i` (past
/// the end, of the last token).
pub open spec fn located_at(toks: Seq<Token>, i: int, e: ParseError) -> bool {
    if 0 <= i < toks.len() {
        e.line == toks[i].x && e.column == toks[i].y
    } else if toks.len() > 0 {
        e.line == toks.last().x && e.column == toks.last().y
    } else {
        e.line == 0 && e.column == 0
    }
}

/// A diagnostic located at token `i` of a tokenization of `src` reports the
/// line and column at which that token starts, and that position leads back
/// to no other index of the source.
pub proof fn lemma_diagnostic_position(
    src: Seq<char>,
    toks: Seq<Token>,
    offs: Seq<usize>,
    i: int,
    e: ParseError,
)
    requires
        crate::lexer::tokens_of(src, toks, offs),
        0 <= i < toks.len(),
        located_at(toks, i, e),
    ensures
        crate::lexer::pos_at(src, offs[i] as int) == (e.line as int, e.column as int),
        forall|k: int|
            0 <= k <= src.len() && crate::lexer::pos_at(src, k) == (e.line as int, e.column as int)
                ==> k == offs[i],
{
    crate::lexer::lemma_token_positions_round_trip(src, toks, offs);
    if i < toks.len() - 1 {
        assert(crate::lexer::token_at(src, toks[i], offs[i] as int));
    }
}

/// The category word of a diagnostic kind.
pub open spec fn category_name(k: ParseErrorKind) -> Seq<char> {
    match k {
        ParseErrorKind::Semantics => "Semantics"@,
        ParseErrorKind::Expectation => "Expectation"@,
        ParseErrorKind::Unexpected => "Unexpected"@,
        ParseErrorKind::Undefined => "Undefined"@,
        ParseErrorKind::Type => "Type"@,
        ParseErrorKind::Unsupported => "Unsupported"@,
        ParseErrorKind::Syntax => "Syntax"@,
        ParseErrorKind::UnclosedScopes { .. } => "Syntax"@,
    }
}

/// The kind of the token at `i`; past the end, the end of input.
pub open spec fn kind_at(toks: Seq<Token>, i: int) -> TokenType {
    if 0 <= i < toks.len() {
        toks[i].token_type
    } else {
        TokenType::EndOfFile
    }
}

/// How many of the first `n` tokens are of kind `k`.
pub open spec fn count_kind(toks: Seq<Token>, n: int, k: TokenType) -> nat
    decreases n,
{
    if n <= 0 {
        0
    } else {
        count_kind(toks, n - 1, k) + if kind_at(toks, n - 1) == k {
            1nat
        } else {
            0nat
        }
    }
}

/// The text of the token after `i`, which names a function after `function`.
pub open spec fn name_after(toks: Seq<Token>, i: int) -> Seq<char> {
    if 0 <= i + 1 < toks.len() {
        toks[i + 1].value@
    } else {
        Seq::empty()
    }
}

/// The names of the functions declared among the first `n` tokens, in order.
pub open spec fn fun_names(toks: Seq<Token>, n: int) -> Seq<Seq<char>>
    decreases n,
{
    if n <= 0 {
        Seq::empty()
    } else {
        fun_names(toks, n - 1) + if kind_at(toks, n - 1) == TokenType::Fun {
            seq![name_after(toks, n - 1)]
        } else {
            Seq::empty()
        }
    }
}

/// The statement shapes that a function body holds.
pub open spec fn is_statement(n: Node) -> bool {
    n is Assign || n is FunctionCall || n is Return
}

pub open spec fn function_name(n: Node) -> Seq<char> {
    match n {
        Node::Function { name, .. } => name@,
        _ => Seq::empty(),
    }
}

/// A function node whose body holds only statements.
pub open spec fn function_shaped(n: Node) -> bool {
    match n {
        Node::Function { body, .. } => forall|j: int|
            0 <= j < body@.len() ==> is_statement(*#[trigger] body@[j]),
        _ => false,
    }
}

/// `p` holds, in order, one well-shaped function for each name in `names`.
pub open spec fn functions_named(p: Seq<Box<Node>>, names: Seq<Seq<char>>) -> bool {
    &&& p.len() == names.len()
    &&& forall|j: int| 0 <= j < p.len() ==> function_shaped(*#[trigger] p[j])
    &&& forall|j: int| 0 <= j < p.len() ==> function_name(*#[trigger] p[j]) == names[j]
}

/// The tokens from `i` up to `j` neither declare a function, nor close a
/// scope, nor end the input.
pub open spec fn plain_span(toks: Seq<Token>, i: int, j: int) -> bool {
    forall|k: int|
        i <= k < j ==> kind_at(toks, k) != TokenType::Fun && kind_at(toks, k)
            != TokenType::CurlyBracketClose && kind_at(toks, k) != TokenType::EndOfFile
}

proof fn lemma_plain_span(toks: Seq<Token>, i: int, j: int)
    requires
        0 <= i <= j,
        plain_span(toks, i, j),
    ensures
        count_kind(toks, j, TokenType::Fun) == count_kind(toks, i, TokenType::Fun),
        count_kind(toks, j, TokenType::CurlyBracketClose) == count_kind(
            toks,
            i,
            TokenType::CurlyBracketClose,
        ),
        fun_names(toks, j) == fun_names(toks, i),
    decreases j - i,
{
    if i < j {
        lemma_plain_span(toks, i, j - 1);
        assert(fun_names(toks, j) =~= fun_names(toks, j - 1));
    }
}

/// `n` is the operand node of the single-token value `tok`: a reference for a
/// name, the constant for a literal.
pub open spec fn operand_of(tok: Token, n: Node) -> bool {
    match n {
        Node::VariableReference { name } => tok.token_type == TokenType::Identifier && name@
            == tok.value@,
        _ => constant_of(tok, n),
    }
}

/// `n` is an expression node wrapping the operand of `tok`.
pub open spec fn expr_of(tok: Token, n: Node) -> bool {
    match n {
        Node::Expr { value } => operand_of(tok, *value),
        _ => false,
    }
}

/// The tokens from `a` up to `b` are one statement whose node is `n`:
/// `<type> <name> <- <literal> ;`, `return <value> ;` or
/// `<name> ( <value>, ... ) ;`.
pub open spec fn statement_at(toks: Seq<Token>, a: int, b: int, n: Node) -> bool {
    &&& 0 <= a < b <= toks.len()
    &&& kind_at(toks, b - 1) == TokenType::EndLine
    &&& match n {
        Node::Assign { name, var_type, value } => {
            &&& b == a + 5
            &&& kind_at(toks, a) == TokenType::Identifier
            &&& type_name_variable_type(toks[a].value@) == Some(var_type)
            &&& kind_at(toks, a + 1) == TokenType::Identifier
            &&& name@ == toks[a + 1].value@
            &&& kind_at(toks, a + 2) == TokenType::AssignmentArrow
            &&& is_literal_kind(kind_at(toks, a + 3))
            &&& match *value {
                Node::Expr { value } => constant_of(toks[a + 3], *value),
                _ => false,
            }
        },
        Node::Return { value } => {
            &&& b == a + 3
            &&& kind_at(toks, a) == TokenType::Return
            &&& expr_of(toks[a + 1], *value)
        },
        Node::FunctionCall { name, args } => {
            &&& kind_at(toks, a) == TokenType::Identifier
            &&& name@ == toks[a].value@
            &&& kind_at(toks, a + 1) == TokenType::ParenthesisOpen
            &&& b == if args@.len() == 0 {
                a + 4
            } else {
                a + 3 + 2 * args@.len()
            }
            &&& kind_at(toks, b - 2) == TokenType::ParenthesisClose
            &&& forall|m: int| 0 <= m < args@.len() ==> expr_of(toks[a + 2 + 2 * m], *#[trigger] args@[m])
            &&& forall|m: int|
                0 <= m < args@.len() - 1 ==> #[trigger] kind_at(toks, a + 3 + 2 * m)
                    == TokenType::SeparatorComma
        },
        _ => false,
    }
}

/// `n` is the node of some statement among the first `e` tokens.
pub open spec fn stated_before(toks: Seq<Token>, e: int, n: Node) -> bool {
    exists|a: int, b: int| b <= e && statement_at(toks, a, b, n)
}

/// The statements of a function node.
pub open spec fn fn_body(n: Node) -> Seq<Box<Node>> {
    match n {
        Node::Function { body, .. } => body@,
        _ => Seq::empty(),
    }
}

/// How many statements the functions of `p` hold together.
pub open spec fn total_statements(p: Seq<Box<Node>>) -> nat
    decreases p.len(),
{
    if p.len() == 0 {
        0
    } else {
        total_statements(p.drop_last()) + fn_body(*p.last()).len()
    }
}

/// Every statement of every function of `p` is the node of a statement among
/// the first `e` tokens.
pub open spec fn all_stated(toks: Seq<Token>, e: int, p: Seq<Box<Node>>) -> bool {
    forall|j: int, m: int|
        0 <= j < p.len() && 0 <= m < fn_body(*p[j]).len() ==> stated_before(
            toks,
            e,
            *#[trigger] fn_body(*p[j])[m],
        )
}

/// The parameters of a function node.
pub open spec fn fn_args(n: Node) -> Seq<Box<Node>> {
    match n {
        Node::Function { args, .. } => args@,
        _ => Seq::empty(),
    }
}

/// The return type of a function node.
pub open spec fn fn_return(n: Node) -> VariableType {
    match n {
        Node::Function { return_type, .. } => return_type,
        _ => VariableType::Void,
    }
}

/// `q` is `p` with `node` appended to the body of its last function.
pub open spec fn pushed_statement(p: Seq<Box<Node>>, q: Seq<Box<Node>>, node: Node) -> bool {
    &&& p.len() > 0
    &&& q.len() == p.len()
    &&& q.drop_last() == p.drop_last()
    &&& fn_body(*q.last()).len() == fn_body(*p.last()).len() + 1
    &&& fn_body(*q.last()).drop_last() == fn_body(*p.last())
    &&& *fn_body(*q.last()).last() == node
    &&& function_name(*q.last()) == function_name(*p.last())
    &&& fn_args(*q.last()) == fn_args(*p.last())
    &&& fn_return(*q.last()) == fn_return(*p.last())
    &&& (*q.last() is Function <==> *p.last() is Function)
}

/// No end of line among the tokens from `i` up to `j`.
pub open spec fn no_endline(toks: Seq<Token>, i: int, j: int) -> bool {
    forall|k: int| i <= k < j ==> kind_at(toks, k) != TokenType::EndLine
}

proof fn lemma_no_endline(toks: Seq<Token>, i: int, j: int)
    requires
        0 <= i <= j,
        no_endline(toks, i, j),
    ensures
        count_kind(toks, j, TokenType::EndLine) == count_kind(toks, i, TokenType::EndLine),
    decreases j - i,
{
    if i < j {
        lemma_no_endline(toks, i, j - 1);
    }
}

proof fn lemma_stated_later(toks: Seq<Token>, e: int, f: int, p: Seq<Box<Node>>)
    requires
        e <= f,
        all_stated(toks, e, p),
    ensures
        all_stated(toks, f, p),
{
    assert forall|j: int, m: int|
        0 <= j < p.len() && 0 <= m < fn_body(*p[j]).len() implies stated_before(
        toks,
        f,
        *#[trigger] fn_body(*p[j])[m],
    ) by {
        assert(stated_before(toks, e, *fn_body(*p[j])[m]));
        let (a, b) = choose|a: int, b: int| b <= e && statement_at(toks, a, b, *fn_body(*p[j])[m]);
        assert(b <= f && statement_at(toks, a, b, *fn_body(*p[j])[m]));
    }
}

/// `q` holds the functions of `p`, with the same names, each still well shaped.
pub open spec fn keeps_functions(p: Seq<Box<Node>>, q: Seq<Box<Node>>) -> bool {
    &&& q.len() == p.len()
    &&& forall|j: int| 0 <= j < p.len() ==> function_name(*#[trigger] q[j]) == function_name(*p[j])
    &&& forall|j: int| 0 <= j < p.len() ==> function_shaped(*#[trigger] p[j]) ==> function_shaped(*q[j])
}

/// Tokens that may stand as a value: literals, operators and names.
pub open spec fn value_token_kind(k: TokenType) -> bool {
    is_literal_kind(k) || k == TokenType::ComparisonOperation || k == TokenType::MathOperation || k
        == TokenType::Identifier
}

fn value_token_kind_exec(k: TokenType) -> (r: bool)
    ensures
        r == value_token_kind(k),
{
    match k {
        TokenType::String | TokenType::Integer | TokenType::FloatingPoint | TokenType::Boolean
        | TokenType::ComparisonOperation | TokenType::MathOperation | TokenType::Identifier => true,
        _ => false,
    }
}

/// The operand node of a single-token value: a constant for a literal, a
/// reference for a name.
fn operand_node(tok: &Token) -> (r: Option<Node>)
    ensures
        r matches Some(n) ==> (n is Const || n is VariableReference) && operand_of(*tok, n),
        tok.token_type == TokenType::Identifier || literal_ok(*tok) <==> r is Some,
{
    match tok.token_type {
        TokenType::Identifier => Some(Node::VariableReference { name: tok.value.clone() }),
        _ => match token_as_constant_node(tok.clone()) {
            Some(n) => {
                assert(n is Const);
                Some(n)
            },
            None => None,
        },
    }
}

pub struct Parser {
    tokens: Vec<Token>,
    program: Vec<Box<Node>>,
    scopes: u32,
    index: usize,
}

impl Parser {
    /// The tokens being parsed.
    pub closed spec fn token_seq(&self) -> Seq<Token> {
        self.tokens@
    }

    /// The index of the current token.
    pub closed spec fn position(&self) -> int {
        self.index as int
    }

    /// No token consumed and nothing built yet.
    pub closed spec fn is_fresh(&self) -> bool {
        self.index == 0 && self.program@.len() == 0 && self.scopes == 0
    }

    pub fn new(tokens: Vec<Token>) -> (r: Parser)
        ensures
            r.token_seq() == tokens@,
            r.is_fresh(),
    {
        Parser { tokens, program: Vec::new(), scopes: 0, index: 0 }
    }

    fn kind(&self, i: usize) -> (r: TokenType)
        ensures
            r == kind_at(self.tokens@, i as int),
    {
        if i < self.tokens.len() {
            self.tokens[i].token_type
        } else {
            TokenType::EndOfFile
        }
    }

    /// A diagnostic located at the current token.
    fn error(&self, kind: ParseErrorKind, description: &str) -> (r: ParseError)
        ensures
            r.kind == kind,
            r.description@ == description@,
            located_at(self.tokens@, self.index as int, r),
    {
        let (line, column) = if self.index < self.tokens.len() {
            (self.tokens[self.index].x, self.tokens[self.index].y)
        } else if self.tokens.len() > 0 {
            (self.tokens[self.tokens.len() - 1].x, self.tokens[self.tokens.len() - 1].y)
        } else {
            (0, 0)
        };
        let mut d: Vec<char> = Vec::new();
        push_str(&mut d, description);
        ParseError { kind, description: chars_to_string(&d), line, column }
    }

    /// Appends a statement to the body of the function being built.
    fn push_top_program(&mut self, node: Node) -> (r: Result<(), ParseError>)
        requires
            is_statement(node),
        ensures
            r matches Err(e) ==> located_at(final(self).tokens@, final(self).index as int, e),
            final(self).tokens@ == old(self).tokens@,
            r matches Err(e) ==> !(e.kind is UnclosedScopes),
            final(self).index == old(self).index,
            final(self).scopes == old(self).scopes,
            r is Ok ==> keeps_functions(old(self).program@, final(self).program@),
            r is Ok ==> pushed_statement(old(self).program@, final(self).program@, node),
            r is Ok <==> old(self).program@.len() > 0 && *old(self).program@.last() is Function,
            r matches Err(e) ==> e.kind == ParseErrorKind::Semantics,
    {
        if self.program.len() == 0 {
            return Err(self.error(ParseErrorKind::Semantics, "Statement outside of function"));
        }
        let ghost before = self.program@;
        let top = self.program.pop().unwrap();
        let top: Node = *top;
        match top {
            Node::Function { name, return_type, args, mut body } => {
                let ghost old_body = body@;
                body.push(Box::new(node));
                let ghost new_body = body@;
                self.program.push(Box::new(Node::Function { name, return_type, args, body }));
                assert forall|j: int|
                    0 <= j < before.len() && function_shaped(*before[j]) implies function_shaped(
                    *#[trigger] self.program@[j],
                ) by {
                    if j < before.len() - 1 {
                        assert(self.program@[j] == before[j]);
                    } else {
                        assert forall|m: int| 0 <= m < new_body.len() implies is_statement(
                            *#[trigger] new_body[m],
                        ) by {
                            if m < old_body.len() {
                                assert(new_body[m] == old_body[m]);
                            }
                        }
                    }
                }
                assert(self.program@.drop_last() =~= before.drop_last());
                assert(new_body.drop_last() =~= old_body);
                Ok(())
            },
            _ => Err(self.error(ParseErrorKind::Semantics, "Statement outside of function")),
        }
    }

    /// A function is being built, so a statement has one to join.
    spec fn in_function(&self) -> bool {
        self.program@.len() > 0 && *self.program@.last() is Function
    }

    /// `after` is this parser after one statement: later index, the tokens in
    /// between plain, the same functions and the same open scopes.
    spec fn statement_step(&self, after: &Parser) -> bool {
        &&& after.tokens@ == self.tokens@
        &&& after.scopes == self.scopes
        &&& self.index < after.index <= self.tokens@.len()
        &&& plain_span(self.tokens@, self.index as int, after.index as int)
        &&& no_endline(self.tokens@, self.index as int, after.index - 1)
        &&& keeps_functions(self.program@, after.program@)
        &&& pushed_statement(self.program@, after.program@, *fn_body(*after.program@.last()).last())
        &&& statement_at(
            self.tokens@,
            self.index as int,
            after.index as int,
            *fn_body(*after.program@.last()).last(),
        )
    }

    /// Consumes value tokens after the current one up to the end of line; the
    /// current token is left on the `;`. Returns how many there were and the
    /// index of the last.
    fn scan_values(&mut self) -> (r: Result<(usize, usize), ParseError>)
        requires
            old(self).index < old(self).tokens@.len() < usize::MAX,
            plain_span(old(self).tokens@, old(self).index as int, old(self).index + 1),
        ensures
            r matches Err(e) ==> located_at(final(self).tokens@, final(self).index as int, e),
            final(self).tokens@ == old(self).tokens@,
            r matches Err(e) ==> !(e.kind is UnclosedScopes),
            final(self).program@ == old(self).program@,
            final(self).scopes == old(self).scopes,
            r is Ok ==> old(self).index < final(self).index < final(self).tokens@.len(),
            r is Ok ==> kind_at(final(self).tokens@, final(self).index as int) == TokenType::EndLine,
            r is Ok ==> plain_span(final(self).tokens@, old(self).index as int, final(self).index + 1),
            r matches Ok((n, last)) ==> (n == 1 ==> old(self).index < last < final(self).index
                && value_token_kind(kind_at(final(self).tokens@, last as int))),
            r matches Ok((n, last)) ==> final(self).index == old(self).index + n + 1 && (n >= 1
                ==> last == old(self).index + n),
            r is Ok ==> no_endline(final(self).tokens@, old(self).index + 1, final(self).index as int),
            value_token_kind(kind_at(old(self).tokens@, old(self).index + 1)) && kind_at(
                old(self).tokens@,
                old(self).index + 2,
            ) == TokenType::EndLine ==> (r matches Ok((n, last)) && n == 1 && last == old(self).index
                + 1),
    {
        let ghost start = self.index as int;
        let mut count: usize = 0;
        let mut last: usize = 0;
        loop
            invariant
                self.tokens@ == old(self).tokens@,
                self.tokens@.len() < usize::MAX,
                self.program@ == old(self).program@,
                self.scopes == old(self).scopes,
                start == old(self).index,
                start <= self.index < self.tokens@.len(),
                plain_span(self.tokens@, start, self.index + 1),
                count == self.index - start,
                count >= 1 ==> start < last == self.index && value_token_kind(
                    kind_at(self.tokens@, last as int),
                ),
                no_endline(self.tokens@, start + 1, self.index + 1),
                value_token_kind(kind_at(self.tokens@, start + 1)) && kind_at(self.tokens@, start + 2)
                    == TokenType::EndLine ==> self.index <= start + 1,
            decreases self.tokens@.len() - self.index,
        {
            self.index = self.index + 1;
            let k = self.kind(self.index);
            if k == TokenType::EndLine {
                assert(plain_span(self.tokens@, start, self.index + 1)) by {
                    assert forall|m: int| start <= m < self.index + 1 implies kind_at(self.tokens@, m)
                        != TokenType::Fun && kind_at(self.tokens@, m) != TokenType::CurlyBracketClose
                        && kind_at(self.tokens@, m) != TokenType::EndOfFile by {
                        if m < self.index {
                            assert(start <= m < self.index);
                        }
                    }
                }
                return Ok((count, last));
            }
            if k == TokenType::EndOfFile {
                return Err(self.error(ParseErrorKind::Expectation, "Expected End Of Line"));
            }
            if !value_token_kind_exec(k) {
                return Err(self.error(ParseErrorKind::Unexpected, "Not a value token"));
            }
            count = count + 1;
            last = self.index;
            assert(no_endline(self.tokens@, start + 1, self.index + 1)) by {
                assert forall|m: int| start + 1 <= m < self.index + 1 implies kind_at(self.tokens@, m)
                    != TokenType::EndLine by {
                    if m < self.index {
                        assert(start + 1 <= m < self.index);
                    }
                }
            }
        }
    }

    /// `<type> <name> <- <literal> ;`
    fn parse_declaration(&mut self) -> (r: Result<(), ParseError>)
        requires
            old(self).index < old(self).tokens@.len() < usize::MAX,
            kind_at(old(self).tokens@, old(self).index as int) == TokenType::Identifier,
        ensures
            r is Ok ==> stmt_end(old(self).tokens@, old(self).index as int) == Some(final(self).index as int),
            old(self).in_function() && is_type_name(old(self).tokens@[old(self).index as int].value@)
                && stmt_end(old(self).tokens@, old(self).index as int) is Some ==> r is Ok && final(self).index == stmt_end(
                old(self).tokens@,
                old(self).index as int,
            )->Some_0,
            r matches Err(e) ==> located_at(final(self).tokens@, final(self).index as int, e),
            final(self).tokens@ == old(self).tokens@,
            r matches Err(e) ==> !(e.kind is UnclosedScopes),
            r is Ok ==> old(self).statement_step(final(self)),
    {
        if self.program.len() == 0 {
            return Err(self.error(ParseErrorKind::Semantics, "cannot Assign outside of function"));
        }
        let start = self.index;
        let var_type = variable_type_of_name(self.tokens[start].value.as_str());
        self.index = start + 1;
        if self.kind(self.index) != TokenType::Identifier {
            return Err(self.error(ParseErrorKind::Expectation, "Expected var name"));
        }
        let name_index = self.index;
        self.index = self.index + 1;
        if self.kind(self.index) != TokenType::AssignmentArrow {
            return Err(self.error(ParseErrorKind::Expectation, "Expected assignment arrow"));
        }
        let (count, last) = match self.scan_values() {
            Ok(v) => v,
            Err(e) => {
                return Err(e);
            },
        };
        if count == 0 {
            return Err(self.error(ParseErrorKind::Expectation, "Expected Variable Values"));
        }
        if count != 1 || !self.tokens[last].is_data_type() {
            return Err(self.error(ParseErrorKind::Unsupported, "Only a single literal value is supported"));
        }
        let var_type = match var_type {
            Some(t) => t,
            None => {
                return Err(self.error(ParseErrorKind::Type, "Invalid Variable Type"));
            },
        };
        let value = match token_as_constant_node(self.tokens[last].clone()) {
            Some(n) => n,
            None => {
                return Err(self.error(ParseErrorKind::Unsupported, "Invalid literal"));
            },
        };
        let name = self.tokens[name_index].value.clone();
        self.index = self.index + 1;
        let node = Node::Assign {
            name,
            var_type,
            value: Box::new(Node::Expr { value: Box::new(value) }),
        };
        self.push_top_program(node)
    }

    /// `return <value> ;`
    fn parse_return(&mut self) -> (r: Result<(), ParseError>)
        requires
            old(self).index < old(self).tokens@.len() < usize::MAX,
            kind_at(old(self).tokens@, old(self).index as int) == TokenType::Return,
        ensures
            r is Ok ==> stmt_end(old(self).tokens@, old(self).index as int) == Some(final(self).index as int),
            old(self).in_function() && stmt_end(old(self).tokens@, old(self).index as int) is Some
                ==> r is Ok && final(self).index == stmt_end(
                old(self).tokens@,
                old(self).index as int,
            )->Some_0,
            r matches Err(e) ==> located_at(final(self).tokens@, final(self).index as int, e),
            final(self).tokens@ == old(self).tokens@,
            r matches Err(e) ==> !(e.kind is UnclosedScopes),
            r is Ok ==> old(self).statement_step(final(self)),
    {
        let (count, last) = match self.scan_values() {
            Ok(v) => v,
            Err(e) => {
                return Err(e);
            },
        };
        if count != 1 {
            return Err(self.error(ParseErrorKind::Unsupported, "Only a single return value is supported"));
        }
        let value = match operand_node(&self.tokens[last]) {
            Some(n) => n,
            None => {
                return Err(self.error(ParseErrorKind::Unsupported, "Unsupported return value"));
            },
        };
        self.index = self.index + 1;
        self.push_top_program(Node::Return { value: Box::new(Node::Expr { value: Box::new(value) }) })
    }

    /// `<name> ( <value>, ... ) ;`
    fn parse_call(&mut self) -> (r: Result<(), ParseError>)
        requires
            old(self).index + 1 < old(self).tokens@.len() < usize::MAX,
            kind_at(old(self).tokens@, old(self).index as int) == TokenType::Identifier,
            kind_at(old(self).tokens@, old(self).index + 1) == TokenType::ParenthesisOpen,
        ensures
            r is Ok && !is_type_name(old(self).tokens@[old(self).index as int].value@) ==> stmt_end(
                old(self).tokens@,
                old(self).index as int,
            ) == Some(final(self).index as int),
            old(self).in_function() && !is_type_name(old(self).tokens@[old(self).index as int].value@)
                && stmt_end(old(self).tokens@, old(self).index as int) is Some ==> r is Ok && final(self).index == stmt_end(
                old(self).tokens@,
                old(self).index as int,
            )->Some_0,
            r matches Err(e) ==> located_at(final(self).tokens@, final(self).index as int, e),
            final(self).tokens@ == old(self).tokens@,
            r matches Err(e) ==> !(e.kind is UnclosedScopes),
            r is Ok ==> old(self).statement_step(final(self)),
    {
        let ghost a = self.index as int;
        let ghost good = old(self).in_function() && !is_type_name(self.tokens@[a].value@) && stmt_end(
            self.tokens@,
            a,
        ) is Some;
        let ghost target = args_from(self.tokens@, a + 2);
        let name = self.tokens[self.index].value.clone();
        self.index = self.index + 1;
        let mut params: Vec<Box<Node>> = Vec::new();
        if self.kind(self.index + 1) == TokenType::ParenthesisClose {
            self.index = self.index + 1;
        } else {
            loop
                invariant_except_break
                    params@.len() > 0 ==> kind_at(self.tokens@, self.index as int)
                        == TokenType::SeparatorComma,
                    good && kind_at(self.tokens@, a + 2) != TokenType::ParenthesisClose ==> target
                        is Some,
                    args_from(self.tokens@, self.index + 1) == target,
                invariant
                    self.tokens@ == old(self).tokens@,
                    self.tokens@.len() < usize::MAX,
                    self.program@ == old(self).program@,
                    self.scopes == old(self).scopes,
                    a == old(self).index,
                    self.index == a + 1 + 2 * params@.len(),
                    self.index < self.tokens@.len(),
                    plain_span(self.tokens@, a, self.index + 1),
                    no_endline(self.tokens@, a, self.index + 1),
                    forall|m: int|
                        0 <= m < params@.len() ==> expr_of(
                            self.tokens@[a + 2 + 2 * m],
                            *#[trigger] params@[m],
                        ),
                    forall|m: int|
                        0 <= m < params@.len() - 1 ==> #[trigger] kind_at(self.tokens@, a + 3 + 2 * m)
                            == TokenType::SeparatorComma,
                    good == (old(self).in_function() && !is_type_name(self.tokens@[a].value@)
                        && stmt_end(self.tokens@, a) is Some),
                    target == args_from(self.tokens@, a + 2),
                    kind_at(self.tokens@, a + 2) != TokenType::ParenthesisClose,
                ensures
                    params@.len() > 0,
                    kind_at(self.tokens@, self.index as int) == TokenType::ParenthesisClose,
                    target == Some(self.index as int),
                decreases self.tokens@.len() - self.index,
            {
                self.index = self.index + 1;
                let k = self.kind(self.index);
                if !value_token_kind_exec(k) {
                    return Err(self.error(ParseErrorKind::Unexpected, "Expected an argument value"));
                }
                let arg = match operand_node(&self.tokens[self.index]) {
                    Some(n) => n,
                    None => {
                        return Err(self.error(ParseErrorKind::Unsupported, "Unsupported argument"));
                    },
                };
                let ghost before = params@;
                params.push(Box::new(Node::Expr { value: Box::new(arg) }));
                self.index = self.index + 1;
                let k2 = self.kind(self.index);
                if k2 == TokenType::ParenthesisClose {
                    proof {
                        assert forall|m: int| 0 <= m < params@.len() - 1 implies #[trigger] kind_at(
                            self.tokens@,
                            a + 3 + 2 * m,
                        ) == TokenType::SeparatorComma by {
                            if m < before.len() - 1 {
                            } else {
                                assert(a + 3 + 2 * m == self.index - 2);
                            }
                        }
                    }
                    break;
                }
                if k2 != TokenType::SeparatorComma {
                    return Err(self.error(ParseErrorKind::Unsupported, "Each argument must be a single value"));
                }
                proof {
                    assert forall|m: int| 0 <= m < params@.len() - 1 implies #[trigger] kind_at(
                        self.tokens@,
                        a + 3 + 2 * m,
                    ) == TokenType::SeparatorComma by {
                        if m < before.len() - 1 {
                        } else {
                            assert(a + 3 + 2 * m == self.index - 2);
                        }
                    }
                }
            }
        }
        self.index = self.index + 1;
        if self.kind(self.index) != TokenType::EndLine {
            return Err(self.error(ParseErrorKind::Expectation, "Expected End Line"));
        }
        self.index = self.index + 1;
        let ghost args = params@;
        let node = Node::FunctionCall { name, args: params };
        assert(statement_at(self.tokens@, a, self.index as int, node));
        self.push_top_program(node)
    }

    /// `function <name> ( [<type> <name>], ... ) [-> <type>] {`: pushes a new
    /// function and opens its scope.
    fn parse_function(&mut self) -> (r: Result<(), ParseError>)
        requires
            old(self).index < old(self).tokens@.len() < usize::MAX,
            kind_at(old(self).tokens@, old(self).index as int) == TokenType::Fun,
        ensures
            r is Ok ==> header_end(old(self).tokens@, old(self).index as int) == Some(final(self).index as int),
            r matches Err(e) ==> located_at(final(self).tokens@, final(self).index as int, e),
            final(self).tokens@ == old(self).tokens@,
            r matches Err(e) ==> !(e.kind is UnclosedScopes),
            header_end(old(self).tokens@, old(self).index as int) is Some && old(self).scopes
                < u32::MAX ==> r is Ok && final(self).index == header_end(
                old(self).tokens@,
                old(self).index as int,
            )->Some_0,
            r is Ok ==> {
                &&& final(self).tokens@ == old(self).tokens@
                &&& old(self).index < final(self).index <= final(self).tokens@.len()
                &&& plain_span(final(self).tokens@, old(self).index + 1, final(self).index as int)
                &&& no_endline(final(self).tokens@, old(self).index + 1, final(self).index as int)
                &&& fn_body(*final(self).program@.last()).len() == 0
                &&& final(self).scopes == old(self).scopes + 1
                &&& final(self).program@.len() == old(self).program@.len() + 1
                &&& forall|j: int|
                    0 <= j < old(self).program@.len() ==> #[trigger] final(self).program@[j]
                        == old(self).program@[j]
                &&& function_shaped(*final(self).program@.last())
                &&& function_name(*final(self).program@.last()) == name_after(
                    old(self).tokens@,
                    old(self).index as int,
                )
                &&& header_of(old(self).tokens@, old(self).index as int, *final(self).program@.last())
            },
    {
        let ghost start = self.index as int;
        self.index = self.index + 1;
        if self.kind(self.index) != TokenType::Identifier {
            return Err(self.error(ParseErrorKind::Expectation, "Expected function"));
        }
        let function_name = self.tokens[self.index].value.clone();
        self.index = self.index + 1;
        if self.kind(self.index) != TokenType::ParenthesisOpen {
            return Err(self.error(ParseErrorKind::Expectation, "Expected open parenthesis for argument"));
        }
        let mut last_was_type = false;
        let mut last_was_arg = false;
        let mut arg_type = VariableType::String;
        let mut args: Vec<Box<Node>> = Vec::new();
        let ghost good = header_end(self.tokens@, start) is Some;
        let ghost empty = kind_at(self.tokens@, start + 3) == TokenType::ParenthesisClose;
        let ghost target = if empty {
            Some(start + 3)
        } else {
            params_from(self.tokens@, start + 3)
        };
        loop
            invariant_except_break
                !last_was_type && !last_was_arg ==> self.index == start + 2 + 3 * args@.len() && (
                args@.len() > 0 ==> kind_at(self.tokens@, self.index as int)
                    == TokenType::SeparatorComma),
                last_was_type ==> self.index == start + 3 + 3 * args@.len() && type_ok(
                    self.tokens@,
                    self.index as int,
                ) && type_name_variable_type(self.tokens@[self.index as int].value@) == Some(arg_type)
                    && (args@.len() > 0 ==> kind_at(self.tokens@, self.index - 1)
                    == TokenType::SeparatorComma),
                last_was_arg ==> args@.len() > 0 && self.index == start + 1 + 3 * args@.len(),
                empty ==> self.index == start + 2,
                !empty ==> {
                    ||| (!last_was_type && !last_was_arg && params_from(self.tokens@, self.index + 1)
                        == target)
                    ||| (last_was_type && !last_was_arg && type_ok(self.tokens@, self.index as int)
                        && params_from(self.tokens@, self.index as int) == target)
                    ||| (!last_was_type && last_was_arg && name_ok(self.tokens@, self.index as int)
                        && type_ok(self.tokens@, self.index - 1) && params_from(
                        self.tokens@,
                        self.index - 1,
                    ) == target)
                },
            invariant
                self.tokens@ == old(self).tokens@,
                self.tokens@.len() < usize::MAX,
                self.program@ == old(self).program@,
                self.scopes == old(self).scopes,
                start == old(self).index,
                start < self.index < self.tokens@.len(),
                plain_span(self.tokens@, start + 1, self.index + 1),
                no_endline(self.tokens@, start + 1, self.index + 1),
                good == (header_end(self.tokens@, start) is Some),
                empty == (kind_at(self.tokens@, start + 3) == TokenType::ParenthesisClose),
                target == if empty {
                    Some(start + 3)
                } else {
                    params_from(self.tokens@, start + 3)
                },
                good ==> target is Some,
                self.index >= start + 2,
                self.index == start + 2 ==> !last_was_type && !last_was_arg,
                !(last_was_type && last_was_arg),
                kind_at(self.tokens@, start + 2) == TokenType::ParenthesisOpen,
                forall|m: int| 0 <= m < args@.len() ==> param_at(self.tokens@, start, m, *#[trigger] args@[m]),
                forall|m: int|
                    0 <= m < args@.len() - 1 ==> #[trigger] kind_at(self.tokens@, start + 5 + 3 * m)
                        == TokenType::SeparatorComma,
            ensures
                kind_at(self.tokens@, self.index as int) == TokenType::ParenthesisClose,
                target == Some(self.index as int),
                self.index == params_close(start, args@.len() as int),
                header_params(self.tokens@, start, args@),
            decreases self.tokens@.len() - self.index,
        {
            self.index = self.index + 1;
            let k = self.kind(self.index);
            if k == TokenType::ParenthesisClose {
                if last_was_type || (args.len() > 0 && !last_was_arg) {
                    return Err(self.error(ParseErrorKind::Expectation, "Expected Parameter Name"));
                }
                break;
            } else if k == TokenType::Identifier {
                if is_type_name_exec(&self.tokens[self.index].value) {
                    if last_was_type {
                        return Err(self.error(ParseErrorKind::Expectation, "Expected Variable Name"));
                    } else if last_was_arg {
                        return Err(self.error(ParseErrorKind::Expectation, "Expected Comma for separation"));
                    }
                    last_was_type = true;
                    arg_type = match variable_type_of_name(self.tokens[self.index].value.as_str()) {
                        Some(t) => t,
                        None => {
                            return Err(self.error(ParseErrorKind::Type, "Invalid Parameter Type"));
                        },
                    };
                } else {
                    if !last_was_type {
                        return Err(self.error(ParseErrorKind::Expectation, "Expected Parameter Type"));
                    }
                    last_was_type = false;
                    last_was_arg = true;
                    let ghost before = args@;
                    args.push(
                        Box::new(
                            Node::Assign {
                                name: self.tokens[self.index].value.clone(),
                                var_type: arg_type,
                                value: Box::new(Node::Blank),
                            },
                        ),
                    );
                    assert forall|m: int| 0 <= m < args@.len() implies param_at(
                        self.tokens@,
                        start,
                        m,
                        *#[trigger] args@[m],
                    ) by {
                        if m < before.len() {
                            assert(args@[m] == before[m]);
                        }
                    }
                }
            } else if k == TokenType::SeparatorComma {
                if !last_was_arg {
                    return Err(self.error(ParseErrorKind::Expectation, "Expected Parameter Type"));
                }
                last_was_arg = false;
            } else {
                return Err(self.error(ParseErrorKind::Unexpected, "Unexpected token in parameter list"));
            }
        }
        self.index = self.index + 1;
        let return_type: VariableType;
        if self.kind(self.index) == TokenType::ReturnTypeArrow {
            self.index = self.index + 1;
            if self.kind(self.index) != TokenType::Identifier {
                return Err(self.error(ParseErrorKind::Expectation, "Expected Return Type"));
            }
            return_type = match variable_type_of_name(self.tokens[self.index].value.as_str()) {
                Some(t) => t,
                None => {
                    return Err(self.error(ParseErrorKind::Type, "Invalid Return Type"));
                },
            };
            self.index = self.index + 1;
            if self.kind(self.index) != TokenType::CurlyBracketOpen {
                return Err(self.error(ParseErrorKind::Expectation, "Expected start of Function Body"));
            }
        } else if self.kind(self.index) == TokenType::CurlyBracketOpen {
            return_type = VariableType::String;
        } else {
            return Err(self.error(ParseErrorKind::Expectation, "Expected A ReturnTypeArrow or A Curly Bracket"));
        }
        if self.scopes == u32::MAX {
            return Err(self.error(ParseErrorKind::Unsupported, "Too many open scopes"));
        }
        self.scopes = self.scopes + 1;
        self.index = self.index + 1;
        let f = Node::Function { name: function_name, return_type, args, body: Vec::new() };
        self.program.push(Box::new(f));
        assert(plain_span(self.tokens@, start + 1, self.index as int)) by {
            assert forall|m: int| start + 1 <= m < self.index implies kind_at(self.tokens@, m)
                != TokenType::Fun && kind_at(self.tokens@, m) != TokenType::CurlyBracketClose
                && kind_at(self.tokens@, m) != TokenType::EndOfFile by {
                if m < self.index - 3 {
                    assert(start + 1 <= m);
                }
            }
        }
        assert(no_endline(self.tokens@, start + 1, self.index as int)) by {
            assert forall|m: int| start + 1 <= m < self.index implies kind_at(self.tokens@, m)
                != TokenType::EndLine by {
                if m < self.index - 3 {
                    assert(start + 1 <= m);
                }
            }
        }
        Ok(())
    }

    /// Parses the whole token sequence into a `Program` node. Stops at the end
    /// of input, reported at `final(self).position()`.
    #[verifier::rlimit(100)]
    pub fn parse(&mut self) -> (r: Result<Node, ParseError>)
        requires
            old(self).is_fresh(),
        ensures
            final(self).token_seq() == old(self).token_seq(),
            r matches Ok(n) ==> reached_end(final(self).token_seq(), final(self).position())
                && program_of(final(self).token_seq(), final(self).position(), n),
            r matches Err(e) ==> (e.kind matches ParseErrorKind::UnclosedScopes { count } ==> reached_end(
                final(self).token_seq(),
                final(self).position(),
            ) && unclosed_at(final(self).token_seq(), final(self).position(), count)),
            r matches Err(e) ==> located_at(final(self).token_seq(), final(self).position(), e),
            r matches Err(e) ==> (e.kind matches ParseErrorKind::UnclosedScopes { count }
                ==> e.description@ == "Unclosed Scopes, "@ + decimal(count as nat)
                + " scopes unclosed"@),
            grammatical(old(self).token_seq()) ==> (r is Ok || (r matches Err(e) && e.kind is UnclosedScopes)),
            r is Ok ==> grammatical_from(old(self).token_seq(), 0),
            stray_from(old(self).token_seq(), 0) && old(self).token_seq().len() < u32::MAX ==> (r matches Err(
                e,
            ) && e.kind == ParseErrorKind::Undefined),
    {
        if self.tokens.len() == usize::MAX {
            return Err(self.error(ParseErrorKind::Unsupported, "Too many tokens"));
        }
        let ghost toks = self.tokens@;
        let ghost g = grammatical(toks);
        let ghost mut spans: Seq<Seq<(int, int)>> = Seq::empty();
        let ghost mut heads: Seq<int> = Seq::empty();
        let ghost st = stray_from(toks, 0) && toks.len() < u32::MAX;
        loop
            invariant
                statements_at(toks, self.index as int, self.program@, heads, spans),
                grammatical_from(toks, self.index as int) ==> grammatical_from(toks, 0),
                st == (stray_from(toks, 0) && toks.len() < u32::MAX),
                st ==> stray_from(toks, self.index as int),
                g == grammatical(toks),
                g ==> grammatical_from(toks, self.index as int),
                self.tokens@ == toks,
                toks == old(self).tokens@,
                toks.len() < usize::MAX,
                self.index <= toks.len(),
                forall|k: int| 0 <= k < self.index ==> kind_at(toks, k) != TokenType::EndOfFile,
                functions_named(self.program@, fun_names(toks, self.index as int)),
                all_stated(toks, self.index as int, self.program@),
                all_headers(toks, self.index as int, self.program@),
                total_statements(self.program@) == count_kind(
                    toks,
                    self.index as int,
                    TokenType::EndLine,
                ),
                self.scopes == count_kind(toks, self.index as int, TokenType::Fun) - count_kind(
                    toks,
                    self.index as int,
                    TokenType::CurlyBracketClose,
                ),
            ensures
                kind_at(toks, self.index as int) == TokenType::EndOfFile,
            decreases toks.len() - self.index,
        {
            let ghost before = *self;
            let k = self.kind(self.index);
            if k == TokenType::EndOfFile {
                break;
            }
            proof {
                lemma_fun_names_len(toks, self.index as int);
                lemma_count_bound(toks, self.index as int, TokenType::Fun);
                if self.program@.len() > 0 {
                    assert(function_shaped(*self.program@[self.program@.len() - 1]));
                }
            }
            if k == TokenType::Fun {
                match self.parse_function() {
                    Ok(()) => {},
                    Err(e) => {
                        return Err(e);
                    },
                }
                proof {
                    let i = before.index as int;
                    assert(fun_names(toks, i + 1) =~= fun_names(toks, i) + seq![name_after(toks, i)]);
                    lemma_plain_span(toks, i + 1, self.index as int);
                    assert(fun_names(toks, self.index as int) =~= fun_names(toks, i) + seq![
                        name_after(toks, i),
                    ]);
                    assert forall|m: int| 0 <= m < self.index implies kind_at(toks, m)
                        != TokenType::EndOfFile by {
                        if m > i {
                            assert(i + 1 <= m < self.index);
                        }
                    }
                    let p = self.program@;
                    let names = fun_names(toks, self.index as int);
                    assert forall|j: int| 0 <= j < p.len() implies function_shaped(*#[trigger] p[j])
                        && function_name(*p[j]) == names[j] by {
                        if j < p.len() - 1 {
                            assert(p[j] == before.program@[j]);
                        }
                    }
                    assert(p.drop_last() =~= before.program@);
                    lemma_no_endline(toks, i + 1, self.index as int);
                    lemma_stated_later(toks, i, self.index as int, before.program@);
                    lemma_headers_later(toks, i, self.index as int, before.program@);
                    assert forall|j: int| 0 <= j < p.len() implies header_before(
                        toks,
                        self.index as int,
                        *#[trigger] p[j],
                    ) by {
                        if j < p.len() - 1 {
                            assert(p[j] == before.program@[j]);
                        } else {
                            assert(header_of(toks, i, *p[j]));
                        }
                    }
                    let sp = spans.push(Seq::empty());
                    let hd = heads.push(i);
                    assert forall|j: int| 0 <= j < p.len() implies 0 <= #[trigger] hd[j] < self.index
                        && header_of(toks, hd[j], *p[j]) by {
                        if j < p.len() - 1 {
                            assert(p[j] == before.program@[j]);
                        }
                    }
                    assert forall|j: int| 0 <= j < p.len() implies #[trigger] sp[j].len() == fn_body(
                        *p[j],
                    ).len() by {
                        if j < p.len() - 1 {
                            assert(p[j] == before.program@[j]);
                        }
                    }
                    assert forall|j: int, m: int|
                        0 <= j < p.len() && 0 <= m < sp[j].len() implies #[trigger] sp[j][m].1
                        <= self.index && statement_at(toks, sp[j][m].0, sp[j][m].1, *fn_body(*p[j])[m])
                        && hd[j] < sp[j][m].0 && (j + 1 < p.len() ==> sp[j][m].1 <= hd[j + 1]) by {
                        assert(p[j] == before.program@[j]);
                    }
                    assert forall|j: int, m1: int, m2: int|
                        0 <= j < p.len() && 0 <= m1 < m2 < sp[j].len() implies #[trigger] sp[j][m1].1
                        <= #[trigger] sp[j][m2].0 by {
                        assert(sp[j] == spans[j]);
                    }
                    spans = sp;
                    heads = hd;
                    assert(grammatical_from(toks, self.index as int) ==> grammatical_from(toks, i));
                    assert forall|j: int, m: int|
                        0 <= j < p.len() && 0 <= m < fn_body(*p[j]).len() implies stated_before(
                        toks,
                        self.index as int,
                        *#[trigger] fn_body(*p[j])[m],
                    ) by {
                        assert(p[j] == before.program@[j]);
                    }
                }
            } else if k == TokenType::CurlyBracketClose {
                if self.scopes == 0 {
                    return Err(self.error(ParseErrorKind::Syntax, "Closing brace without an open scope"));
                }
                self.scopes = self.scopes - 1;
                self.index = self.index + 1;
                assert(fun_names(toks, self.index as int) =~= fun_names(toks, before.index as int));
                proof {
                    lemma_stated_later(toks, before.index as int, self.index as int, self.program@);
                    lemma_headers_later(toks, before.index as int, self.index as int, self.program@);
                }
            } else {
                let step = if k == TokenType::Return {
                    self.parse_return()
                } else if k == TokenType::Identifier {
                    if is_type_name_exec(&self.tokens[self.index].value) {
                        self.parse_declaration()
                    } else if self.kind(self.index + 1) == TokenType::ParenthesisOpen {
                        self.parse_call()
                    } else {
                        let mut d: Vec<char> = Vec::new();
                        push_str(&mut d, "Unknown '");
                        push_str(&mut d, self.tokens[self.index].value.as_str());
                        d.push('\'');
                        let e = self.error(ParseErrorKind::Undefined, "");
                        return Err(ParseError { description: chars_to_string(&d), ..e });
                    }
                } else {
                    return Err(self.error(ParseErrorKind::Unexpected, "Unexpected token"));
                };
                match step {
                    Ok(()) => {},
                    Err(e) => {
                        return Err(e);
                    },
                }
                proof {
                    lemma_plain_span(toks, before.index as int, self.index as int);
                    lemma_no_endline(toks, before.index as int, self.index - 1);
                    let q = before.program@;
                    let stmt = *fn_body(*self.program@.last()).last();
                    assert(statement_at(toks, before.index as int, self.index as int, stmt));
                    lemma_stated_later(toks, before.index as int, self.index as int, q);
                    lemma_headers_later(toks, before.index as int, self.index as int, q);
                    let p0 = self.program@;
                    assert forall|j: int| 0 <= j < p0.len() implies header_before(
                        toks,
                        self.index as int,
                        *#[trigger] p0[j],
                    ) by {
                        if j < p0.len() - 1 {
                            assert(p0[j] == p0.drop_last()[j]);
                            assert(q[j] == q.drop_last()[j]);
                        } else {
                            assert(header_before(toks, self.index as int, *q.last()));
                            let h = choose|h: int| 0 <= h < self.index && header_of(toks, h, *q.last());
                            assert(header_of(toks, h, *p0.last()));
                        }
                    }
                    let n = q.len() - 1;
                    let sp = spans.update(n, spans[n].push((before.index as int, self.index as int)));
                    let nb = fn_body(*p0.last());
                    let ob = fn_body(*q.last());
                    assert forall|j: int| 0 <= j < p0.len() implies #[trigger] sp[j].len() == fn_body(
                        *p0[j],
                    ).len() by {
                        if j < n {
                            assert(p0[j] == p0.drop_last()[j]);
                            assert(q[j] == q.drop_last()[j]);
                        }
                    }
                    assert forall|j: int, m: int|
                        0 <= j < p0.len() && 0 <= m < sp[j].len() implies #[trigger] sp[j][m].1
                        <= self.index && statement_at(toks, sp[j][m].0, sp[j][m].1, *fn_body(*p0[j])[m])
                        && heads[j] < sp[j][m].0 && (j + 1 < p0.len() ==> sp[j][m].1 <= heads[j + 1]) by {
                        if j < n {
                            assert(p0[j] == p0.drop_last()[j]);
                            assert(q[j] == q.drop_last()[j]);
                        } else if m < ob.len() {
                            assert(nb[m] == nb.drop_last()[m]);
                            assert(spans[j][m].1 <= before.index);
                        }
                    }
                    assert forall|j: int, m1: int, m2: int|
                        0 <= j < p0.len() && 0 <= m1 < m2 < sp[j].len() implies #[trigger] sp[j][m1].1
                        <= #[trigger] sp[j][m2].0 by {
                        if j == n && m2 == ob.len() {
                            assert(spans[j][m1].1 <= before.index);
                        }
                    }
                    spans = sp;
                    assert forall|j: int| 0 <= j < p0.len() implies 0 <= #[trigger] heads[j] < self.index
                        && header_of(toks, heads[j], *p0[j]) by {
                        if j < n {
                            assert(p0[j] == p0.drop_last()[j]);
                            assert(q[j] == q.drop_last()[j]);
                        } else {
                            assert(header_of(toks, heads[j], *q[j]));
                        }
                    }
                    assert(grammatical_from(toks, self.index as int) ==> grammatical_from(
                        toks,
                        before.index as int,
                    ));
                    assert(p0.drop_last() == q.drop_last());
                    assert forall|j: int, m: int|
                        0 <= j < p0.len() && 0 <= m < fn_body(*p0[j]).len() implies stated_before(
                        toks,
                        self.index as int,
                        *#[trigger] fn_body(*p0[j])[m],
                    ) by {
                        if j < p0.len() - 1 {
                            assert(p0[j] == p0.drop_last()[j]);
                            assert(q[j] == q.drop_last()[j]);
                        } else if m < fn_body(*q.last()).len() {
                            assert(fn_body(*p0[j])[m] == fn_body(*p0.last()).drop_last()[m]);
                        } else {
                            assert(stated_before(toks, self.index as int, stmt));
                        }
                    }
                    let p = self.program@;
                    let names = fun_names(toks, self.index as int);
                    assert forall|j: int| 0 <= j < p.len() implies function_shaped(*#[trigger] p[j])
                        && function_name(*p[j]) == names[j] by {
                        assert(function_shaped(*before.program@[j]));
                    }
                    assert forall|m: int| 0 <= m < self.index implies kind_at(toks, m)
                        != TokenType::EndOfFile by {
                        if m >= before.index {
                            assert(before.index <= m < self.index);
                        }
                    }
                }
            }
        }
        if self.scopes != 0 {
            let mut d: Vec<char> = Vec::new();
            push_str(&mut d, "Unclosed Scopes, ");
            push_decimal(&mut d, self.scopes as u128);
            push_str(&mut d, " scopes unclosed");
            let e = self.error(ParseErrorKind::UnclosedScopes { count: self.scopes }, "");
            assert(d@ =~= "Unclosed Scopes, "@ + decimal(self.scopes as nat) + " scopes unclosed"@);
            assert(reached_end(toks, self.index as int));
            assert(unclosed_at(toks, self.index as int, self.scopes));
            return Err(ParseError { description: chars_to_string(&d), ..e });
        }
        let mut body: Vec<Box<Node>> = Vec::new();
        core::mem::swap(&mut body, &mut self.program);
        assert(reached_end(toks, self.index as int));
        assert(functions_named(body@, fun_names(toks, self.index as int)));
        assert(statements_at(toks, self.index as int, body@, heads, spans));
        Ok(Node::Program { body })
    }

    /// Parses `tokens` into a `Program` node.
    pub fn parse_tokens(tokens: Vec<Token>) -> (r: Result<Node, ParseError>)
        ensures
            r matches Ok(n) ==> parses_to(tokens@, n),
            r matches Err(e) ==> (e.kind matches ParseErrorKind::UnclosedScopes { count }
                ==> unclosed_scopes(tokens@, count)),
            grammatical(tokens@) ==> (r is Ok || (r matches Err(e) && e.kind is UnclosedScopes)),
            r is Ok ==> grammatical_from(tokens@, 0),
            stray_from(tokens@, 0) && tokens@.len() < u32::MAX ==> (r matches Err(e) && e.kind
                == ParseErrorKind::Undefined),
    {
        let mut p = Parser::new(tokens);
        let r = p.parse();
        proof {
            let e = p.position();
            if r is Ok {
                assert(reached_end(tokens@, e) && program_of(tokens@, e, r->Ok_0));
            }
        }
        r
    }
}

/// A literal token whose constant node exists.
pub open spec fn literal_ok(t: Token) -> bool {
    ||| t.token_type == TokenType::String
    ||| t.token_type == TokenType::FloatingPoint
    ||| (t.token_type == TokenType::Integer && i128_text(t.value@))
    ||| (t.token_type == TokenType::Boolean && (t.value@ == "true"@ || t.value@ == "false"@))
}

/// The token at `j` can stand as an operand: a name or a well-formed literal.
pub open spec fn operand_ok(toks: Seq<Token>, j: int) -> bool {
    0 <= j < toks.len() && (toks[j].token_type == TokenType::Identifier || literal_ok(toks[j]))
}

/// The token at `j` names a variable type.
pub open spec fn type_ok(toks: Seq<Token>, j: int) -> bool {
    0 <= j < toks.len() && toks[j].token_type == TokenType::Identifier && type_name_variable_type(
        toks[j].value@,
    ) is Some
}

/// The token at `j` is a name that is not a type word.
pub open spec fn name_ok(toks: Seq<Token>, j: int) -> bool {
    0 <= j < toks.len() && toks[j].token_type == TokenType::Identifier && !is_type_name(
        toks[j].value@,
    )
}

/// Parameters `<type> <name>, ...` from `j` on: the index of the closing `)`.
pub open spec fn params_from(toks: Seq<Token>, j: int) -> Option<int>
    decreases toks.len() - j,
{
    if 0 <= j && type_ok(toks, j) && name_ok(toks, j + 1) {
        if kind_at(toks, j + 2) == TokenType::ParenthesisClose {
            Some(j + 2)
        } else if kind_at(toks, j + 2) == TokenType::SeparatorComma && j + 3 <= toks.len() {
            params_from(toks, j + 3)
        } else {
            None
        }
    } else {
        None
    }
}

/// A function header `function <name> ( [<type> <name>, ...] ) [-> <type>] {`
/// at `i`: the index just after its `{`.
pub open spec fn header_end(toks: Seq<Token>, i: int) -> Option<int> {
    if kind_at(toks, i) == TokenType::Fun && kind_at(toks, i + 1) == TokenType::Identifier
        && kind_at(toks, i + 2) == TokenType::ParenthesisOpen {
        let close = if kind_at(toks, i + 3) == TokenType::ParenthesisClose {
            Some(i + 3)
        } else {
            params_from(toks, i + 3)
        };
        match close {
            Some(p) => if kind_at(toks, p + 1) == TokenType::ReturnTypeArrow && type_ok(toks, p + 2)
                && kind_at(toks, p + 3) == TokenType::CurlyBracketOpen {
                Some(p + 4)
            } else if kind_at(toks, p + 1) == TokenType::CurlyBracketOpen {
                Some(p + 2)
            } else {
                None
            },
            None => None,
        }
    } else {
        None
    }
}

/// Arguments `<value>, ...` from `j` on: the index of the closing `)`.
pub open spec fn args_from(toks: Seq<Token>, j: int) -> Option<int>
    decreases toks.len() - j,
{
    if operand_ok(toks, j) {
        if kind_at(toks, j + 1) == TokenType::ParenthesisClose {
            Some(j + 1)
        } else if kind_at(toks, j + 1) == TokenType::SeparatorComma && j + 2 <= toks.len() {
            args_from(toks, j + 2)
        } else {
            None
        }
    } else {
        None
    }
}

/// A statement at `i` (`<type> <name> <- <literal> ;`, `return <value> ;`
/// or `<name> ( <value>, ... ) ;`): the index just after its `;`.
pub open spec fn stmt_end(toks: Seq<Token>, i: int) -> Option<int> {
    if kind_at(toks, i) == TokenType::Return {
        if operand_ok(toks, i + 1) && kind_at(toks, i + 2) == TokenType::EndLine {
            Some(i + 3)
        } else {
            None
        }
    } else if type_ok(toks, i) {
        if kind_at(toks, i + 1) == TokenType::Identifier && kind_at(toks, i + 2)
            == TokenType::AssignmentArrow && is_literal_kind(kind_at(toks, i + 3)) && literal_ok(
            toks[i + 3],
        ) && kind_at(toks, i + 4) == TokenType::EndLine {
            Some(i + 5)
        } else {
            None
        }
    } else if name_ok(toks, i) && kind_at(toks, i + 1) == TokenType::ParenthesisOpen {
        let close = if kind_at(toks, i + 2) == TokenType::ParenthesisClose {
            Some(i + 2)
        } else {
            args_from(toks, i + 2)
        };
        match close {
            Some(p) => if kind_at(toks, p + 1) == TokenType::EndLine {
                Some(p + 2)
            } else {
                None
            },
            None => None,
        }
    } else {
        None
    }
}

/// From `i` on, the tokens are function headers, closing braces of open
/// functions and statements inside a function, up to the end of input.
pub open spec fn grammatical_from(toks: Seq<Token>, i: int) -> bool
    decreases toks.len() - i,
{
    if !(0 <= i <= toks.len()) {
        false
    } else if kind_at(toks, i) == TokenType::EndOfFile {
        true
    } else if kind_at(toks, i) == TokenType::Fun {
        match header_end(toks, i) {
            Some(b) => i < b <= toks.len() && grammatical_from(toks, b),
            None => false,
        }
    } else if kind_at(toks, i) == TokenType::CurlyBracketClose {
        count_kind(toks, i, TokenType::Fun) > count_kind(toks, i, TokenType::CurlyBracketClose)
            && grammatical_from(toks, i + 1)
    } else {
        count_kind(toks, i, TokenType::Fun) > 0 && match stmt_end(toks, i) {
            Some(b) => i < b <= toks.len() && grammatical_from(toks, b),
            None => false,
        }
    }
}

/// Read as the grammar reads, the tokens from `i` on reach, at the start of a
/// statement, a word that is no type and is not followed by `(`.
pub open spec fn stray_from(toks: Seq<Token>, i: int) -> bool
    decreases toks.len() - i,
{
    if !(0 <= i <= toks.len()) {
        false
    } else if kind_at(toks, i) == TokenType::EndOfFile {
        false
    } else if kind_at(toks, i) == TokenType::Fun {
        match header_end(toks, i) {
            Some(b) => i < b <= toks.len() && stray_from(toks, b),
            None => false,
        }
    } else if kind_at(toks, i) == TokenType::CurlyBracketClose {
        count_kind(toks, i, TokenType::Fun) > count_kind(toks, i, TokenType::CurlyBracketClose)
            && stray_from(toks, i + 1)
    } else if kind_at(toks, i) == TokenType::Identifier && !is_type_name(toks[i].value@) && kind_at(
        toks,
        i + 1,
    ) != TokenType::ParenthesisOpen {
        true
    } else {
        count_kind(toks, i, TokenType::Fun) > 0 && match stmt_end(toks, i) {
            Some(b) => i < b <= toks.len() && stray_from(toks, b),
            None => false,
        }
    }
}

/// The tokens follow the grammar (and are few enough to count scopes in a `u32`).
pub open spec fn grammatical(toks: Seq<Token>) -> bool {
    toks.len() < u32::MAX && grammatical_from(toks, 0)
}

proof fn lemma_fun_names_len(toks: Seq<Token>, n: int)
    ensures
        fun_names(toks, n).len() == count_kind(toks, n, TokenType::Fun),
    decreases n,
{
    if n > 0 {
        lemma_fun_names_len(toks, n - 1);
    }
}

proof fn lemma_count_bound(toks: Seq<Token>, n: int, k: TokenType)
    requires
        n >= 0,
    ensures
        count_kind(toks, n, k) <= n,
    decreases n,
{
    if n > 0 {
        lemma_count_bound(toks, n - 1, k);
    }
}

/// The index of the `)` closing the parameters of the header at `h`, for
/// `k` parameters.
pub open spec fn params_close(h: int, k: int) -> int {
    if k == 0 {
        h + 3
    } else {
        h + 2 + 3 * k
    }
}

/// `n` is the declaration node of parameter `m` of the header at `h`.
pub open spec fn param_at(toks: Seq<Token>, h: int, m: int, n: Node) -> bool {
    &&& type_ok(toks, h + 3 + 3 * m)
    &&& name_ok(toks, h + 4 + 3 * m)
    &&& match n {
        Node::Assign { name, var_type, value } => name@ == toks[h + 4 + 3 * m].value@
            && type_name_variable_type(toks[h + 3 + 3 * m].value@) == Some(var_type) && *value is Blank,
        _ => false,
    }
}

/// `args` are the parameters of the header at `h`, in order, separated by
/// commas and closed by `)`.
pub open spec fn header_params(toks: Seq<Token>, h: int, args: Seq<Box<Node>>) -> bool {
    &&& kind_at(toks, params_close(h, args.len() as int)) == TokenType::ParenthesisClose
    &&& forall|m: int| 0 <= m < args.len() ==> param_at(toks, h, m, *#[trigger] args[m])
    &&& forall|m: int| 0 <= m < args.len() - 1 ==> #[trigger] kind_at(toks, h + 5 + 3 * m)
        == TokenType::SeparatorComma
}

/// After the `)` at `p`: `-> <type> {` giving that type, or `{` giving the
/// default return type `String`.
pub open spec fn header_return(toks: Seq<Token>, p: int, t: VariableType) -> bool {
    ||| (kind_at(toks, p + 1) == TokenType::ReturnTypeArrow && type_ok(toks, p + 2)
        && type_name_variable_type(toks[p + 2].value@) == Some(t) && kind_at(toks, p + 3)
        == TokenType::CurlyBracketOpen)
    ||| (kind_at(toks, p + 1) == TokenType::CurlyBracketOpen && t == VariableType::String)
}

/// `f` is the function declared by the header at `h`: its name, parameters
/// and return type are the ones written there.
pub open spec fn header_of(toks: Seq<Token>, h: int, f: Node) -> bool {
    match f {
        Node::Function { name, return_type, args, .. } => {
            &&& kind_at(toks, h) == TokenType::Fun
            &&& kind_at(toks, h + 1) == TokenType::Identifier
            &&& name@ == toks[h + 1].value@
            &&& kind_at(toks, h + 2) == TokenType::ParenthesisOpen
            &&& header_params(toks, h, args@)
            &&& header_return(toks, params_close(h, args@.len() as int), return_type)
        },
        _ => false,
    }
}

/// `f` is the function of some header among the first `e` tokens.
pub open spec fn header_before(toks: Seq<Token>, e: int, f: Node) -> bool {
    exists|h: int| 0 <= h < e && header_of(toks, h, f)
}

/// Function `j` of `p` is declared by the header at `heads[j]`, the headers in
/// source order, and `spans[j][m]` is where its statement `m` stands among the
/// first `e` tokens: after its own header and before the next one, the spans
/// of a function following one another.
pub open spec fn statements_at(
    toks: Seq<Token>,
    e: int,
    p: Seq<Box<Node>>,
    heads: Seq<int>,
    spans: Seq<Seq<(int, int)>>,
) -> bool {
    &&& spans.len() == p.len()
    &&& heads.len() == p.len()
    &&& forall|j: int| 0 <= j < p.len() ==> #[trigger] spans[j].len() == fn_body(*p[j]).len()
    &&& forall|j: int| 0 <= j < p.len() ==> 0 <= #[trigger] heads[j] < e && header_of(toks, heads[j], *p[j])
    &&& forall|j1: int, j2: int| 0 <= j1 < j2 < p.len() ==> #[trigger] heads[j1] < #[trigger] heads[j2]
    &&& forall|j: int, m: int|
        0 <= j < p.len() && 0 <= m < spans[j].len() ==> #[trigger] spans[j][m].1 <= e
            && statement_at(toks, spans[j][m].0, spans[j][m].1, *fn_body(*p[j])[m])
            && heads[j] < spans[j][m].0 && (j + 1 < p.len() ==> spans[j][m].1 <= heads[j + 1])
    &&& forall|j: int, m1: int, m2: int|
        0 <= j < p.len() && 0 <= m1 < m2 < spans[j].len() ==> #[trigger] spans[j][m1].1
            <= #[trigger] spans[j][m2].0
}

/// The statements of each function of `p` are, in order, statements that
/// follow one another among the first `e` tokens.
pub open spec fn statements_in_order(toks: Seq<Token>, e: int, p: Seq<Box<Node>>) -> bool {
    exists|heads: Seq<int>, spans: Seq<Seq<(int, int)>>| statements_at(toks, e, p, heads, spans)
}

/// Every function of `p` is that of a header among the first `e` tokens.
pub open spec fn all_headers(toks: Seq<Token>, e: int, p: Seq<Box<Node>>) -> bool {
    forall|j: int| 0 <= j < p.len() ==> header_before(toks, e, *#[trigger] p[j])
}

proof fn lemma_headers_later(toks: Seq<Token>, e: int, f: int, p: Seq<Box<Node>>)
    requires
        e <= f,
        all_headers(toks, e, p),
    ensures
        all_headers(toks, f, p),
{
    assert forall|j: int| 0 <= j < p.len() implies header_before(toks, f, *#[trigger] p[j]) by {
        assert(header_before(toks, e, *p[j]));
        let h = choose|h: int| 0 <= h < e && header_of(toks, h, *p[j]);
        assert(0 <= h < f && header_of(toks, h, *p[j]));
    }
}

/// Parsing stopped at `e`, the first end-of-input token.
pub open spec fn reached_end(toks: Seq<Token>, e: int) -> bool {
    &&& 0 <= e <= toks.len()
    &&& kind_at(toks, e) == TokenType::EndOfFile
    &&& forall|k: int| 0 <= k < e ==> kind_at(toks, k) != TokenType::EndOfFile
}

/// `n` is the program of the tokens before `e`: one well-shaped function per
/// `function` declaration, in source order, with every scope closed; each
/// statement node is that of a statement of the source, each function's in
/// source order, and there are as many as the source has ends of line; each function has the name, parameters and
/// return type of a header of the source.
pub open spec fn program_of(toks: Seq<Token>, e: int, n: Node) -> bool {
    match n {
        Node::Program { body } => {
            &&& functions_named(body@, fun_names(toks, e))
            &&& count_kind(toks, e, TokenType::Fun) == count_kind(
                toks,
                e,
                TokenType::CurlyBracketClose,
            )
            &&& all_stated(toks, e, body@)
            &&& total_statements(body@) == count_kind(toks, e, TokenType::EndLine)
            &&& all_headers(toks, e, body@)
            &&& statements_in_order(toks, e, body@)
        },
        _ => false,
    }
}

/// Before `e`, `count` more functions were opened than scopes closed.
pub open spec fn unclosed_at(toks: Seq<Token>, e: int, count: u32) -> bool {
    count > 0 && count == count_kind(toks, e, TokenType::Fun) - count_kind(
        toks,
        e,
        TokenType::CurlyBracketClose,
    )
}

/// The tokens parse to the program `n`.
pub open spec fn parses_to(toks: Seq<Token>, n: Node) -> bool {
    exists|e: int| reached_end(toks, e) && program_of(toks, e, n)
}

/// The tokens end with `count` function scopes still open.
pub open spec fn unclosed_scopes(toks: Seq<Token>, count: u32) -> bool {
    exists|e: int| reached_end(toks, e) && unclosed_at(toks, e, count)
}

} // verus!
