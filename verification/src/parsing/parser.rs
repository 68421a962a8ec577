//! Syntax tree and recursive-descent parser.
//!
//! The parser consumes a token stream and builds a list of statement nodes.
//! There is no precedence table: each binary or logical operator wraps the
//! expression built so far as its left operand, so `a + b * c` parses as
//! `(a + b) * c` — strict left-to-right folding, a deliberate contract of
//! the language.
use vstd::prelude::*;

use crate::lexer::{lemma_tokens_view, tokens_view, Token, TokenType, TokenV};

verus! {

/// One node of the syntax tree.
#[derive(Debug)]
pub enum Expr {
    Unary(UnaryExpr),
    Binary(BinaryExpr),
    Block(Block),
    Literal(DataType),
    Function(Function),
    Definition(Definition),
    Nil,
}

/// A tagged runtime value (or, before evaluation, a variable reference).
/// The tag is `kind`; `value` carries the text payload of strings and
/// variable names; `store` carries integer, boolean and array payloads.
#[derive(Debug)]
pub struct DataType {
    pub value: String,
    pub kind: Literal,
    pub store: DataStore,
}

/// Payload storage for [`DataType`]: at most one field is meaningful,
/// selected by the owning value's `kind`.
#[derive(Debug)]
pub struct DataStore {
    pub integer: Option<i32>,
    pub boolean: Option<bool>,
    pub array: Option<Vec<Expr>>,
}

/// The tag of a [`DataType`].
#[derive(Debug, Clone, Copy, PartialEq, Eq, Structural)]
pub enum Literal {
    String,
    Variable,
    Int,
    Bool,
    Array,
    Nil,
}

/// A binary (or folded logical) operator, plus `Index` for `arr[i]`.
#[derive(Debug, Clone, Copy, PartialEq, Eq, Structural)]
pub enum Operator {
    Equals,
    EqualTo,
    GreaterThan,
    LesserThan,
    EqualGreater,
    EqualLesser,
    Plus,
    Minus,
    Times,
    Divide,
    And,
    Or,
    Not,
    NotEqual,
    Index,
    Nil,
}

/// A binary expression: `operator` applied to `left` and `right`.
#[derive(Debug)]
pub struct BinaryExpr {
    pub operator: Operator,
    pub left: Box<Expr>,
    pub right: Box<Expr>,
}

/// An increment or decrement of one variable: `++x` / `--x`.
#[derive(Debug)]
pub struct UnaryExpr {
    pub operator: Operator,
    pub value: Box<Expr>,
}

/// The kind of a [`Block`] node.
#[derive(Debug, Clone, Copy, PartialEq, Eq, Structural)]
pub enum BlockType {
    If,
    Else,
    ElseIf,
    For,
    FormatedString,
    CommandString,
    Import,
    Return,
    Nil,
}

/// A control or string block: `conditions` holds the header expressions
/// (one for `if`, one or three for `for`), `block` holds the body — or,
/// for format and command strings, the fragments to concatenate.
#[derive(Debug)]
pub struct Block {
    pub kind: BlockType,
    pub conditions: Vec<Expr>,
    pub block: Vec<Expr>,
}

/// The kind of a [`Function`] call node.
#[derive(Debug, Clone, Copy, PartialEq, Eq, Structural)]
pub enum FunctionType {
    Print,
    Length,
    Defined,
    Nil,
}

/// A call: builtin (`print`, `length`, …) or user-defined, with its
/// evaluated-in-order argument expressions.
#[derive(Debug)]
pub struct Function {
    pub kind: FunctionType,
    pub arguments: Vec<Expr>,
    pub name: String,
}

/// A user function definition: name, ordered parameter names, body.
#[derive(Debug)]
pub struct Definition {
    pub name: String,
    pub arguments: Vec<String>,
    pub block: Vec<Expr>,
}

impl DataType {
    /// The nil value.
    pub fn new() -> (d: DataType)
        ensures
            d.kind == Literal::Nil,
            d.value@ == Seq::<char>::empty(),
            d.store.integer is None,
            d.store.boolean is None,
            d.store.array is None,
    {
        DataType { kind: Literal::Nil, value: String::new(), store: DataStore::new(None, None) }
    }
}

impl DataStore {
    /// A store with the given integer and boolean payloads and no array.
    pub fn new(integer: Option<i32>, boolean: Option<bool>) -> (s: DataStore)
        ensures
            s.integer == integer,
            s.boolean == boolean,
            s.array is None,
    {
        DataStore { integer, boolean, array: None }
    }
}

impl Block {
    /// An empty block of no particular kind.
    pub fn new() -> (b: Block)
        ensures
            b.kind == BlockType::Nil,
            b.conditions@ == Seq::<Expr>::empty(),
            b.block@ == Seq::<Expr>::empty(),
    {
        Block { kind: BlockType::Nil, conditions: Vec::new(), block: Vec::new() }
    }
}

impl Definition {
    /// An empty definition awaiting its name, parameters and body.
    pub fn new() -> (d: Definition)
        ensures
            d.name@ == Seq::<char>::empty(),
            d.arguments@ == Seq::<String>::empty(),
            d.block@ == Seq::<Expr>::empty(),
    {
        Definition { name: String::new(), arguments: Vec::new(), block: Vec::new() }
    }
}

impl Expr {
    /// The payload of a literal node, `None` for every other node kind.
    pub fn expand(&self) -> (r: Option<&DataType>)
        ensures
            match r {
                Some(d) => *self matches Expr::Literal(x) && *d == x,
                None => !(*self is Literal),
            },
    {
        match self {
            Expr::Literal(expr) => Some(expr),
            _ => None,
        }
    }
}

/// The mathematical shape of a runtime value: what a [`DataType`] denotes.
/// Integer payloads are modelled as unbounded integers (every value the
/// evaluator builds fits in 32 bits); array payloads keep their element
/// expressions unevaluated, as the evaluator does.
pub ghost enum Val {
    Int(int),
    Bool(bool),
    Str(Seq<char>),
    Arr(Seq<ExprV>),
    Var(Seq<char>),
    Nil,
}

/// The mathematical shape of a syntax tree node: what an [`Expr`] denotes.
pub ghost enum ExprV {
    Unary(Operator, Box<ExprV>),
    Binary(Operator, Box<ExprV>, Box<ExprV>),
    Block(BlockType, Seq<ExprV>, Seq<ExprV>),
    Literal(Val),
    Function(FunctionType, Seq<ExprV>, Seq<char>),
    Definition(DefV),
    Nil,
}

/// The mathematical shape of a function definition.
pub ghost struct DefV {
    pub name: Seq<char>,
    pub params: Seq<Seq<char>>,
    pub block: Seq<ExprV>,
}

/// The denotation of a value. The `value` text is the payload of strings
/// and variable references; for the other tags it is incidental and not
/// part of the denotation.
pub open spec fn dt_view(d: DataType) -> Val
    decreases d,
{
    match d.kind {
        Literal::Int => Val::Int(
            match d.store.integer {
                Some(i) => i as int,
                None => 0,
            },
        ),
        Literal::Bool => Val::Bool(
            match d.store.boolean {
                Some(b) => b,
                None => false,
            },
        ),
        Literal::String => Val::Str(d.value@),
        Literal::Variable => Val::Var(d.value@),
        Literal::Array => Val::Arr(
            match d.store.array {
                Some(a) => exprs_view(a@),
                None => Seq::empty(),
            },
        ),
        Literal::Nil => Val::Nil,
    }
}

/// The denotation of a syntax tree node.
pub open spec fn expr_view(e: Expr) -> ExprV
    decreases e,
{
    match e {
        Expr::Unary(u) => ExprV::Unary(u.operator, Box::new(expr_view(*u.value))),
        Expr::Binary(b) => ExprV::Binary(
            b.operator,
            Box::new(expr_view(*b.left)),
            Box::new(expr_view(*b.right)),
        ),
        Expr::Block(b) => ExprV::Block(b.kind, exprs_view(b.conditions@), exprs_view(b.block@)),
        Expr::Literal(d) => ExprV::Literal(dt_view(d)),
        Expr::Function(f) => ExprV::Function(f.kind, exprs_view(f.arguments@), f.name@),
        Expr::Definition(d) => ExprV::Definition(def_view(d)),
        Expr::Nil => ExprV::Nil,
    }
}

/// The denotation of a function definition.
pub open spec fn def_view(d: Definition) -> DefV
    decreases d,
{
    DefV { name: d.name@, params: strs_view(d.arguments@), block: exprs_view(d.block@) }
}

/// The denotation of a node sequence, element by element.
pub open spec fn exprs_view(es: Seq<Expr>) -> Seq<ExprV>
    decreases es,
{
    if es.len() == 0 {
        Seq::empty()
    } else {
        exprs_view(es.drop_last()).push(expr_view(es.last()))
    }
}

/// The denotation of a name list, element by element.
pub open spec fn strs_view(ss: Seq<String>) -> Seq<Seq<char>>
    decreases ss,
{
    if ss.len() == 0 {
        Seq::empty()
    } else {
        strs_view(ss.drop_last()).push(ss.last()@)
    }
}

/// `exprs_view` maps the sequence pointwise.
pub proof fn lemma_exprs_view(es: Seq<Expr>)
    ensures
        exprs_view(es).len() == es.len(),
        forall|i: int| 0 <= i < es.len() ==> exprs_view(es)[i] == expr_view(#[trigger] es[i]),
    decreases es,
{
    if es.len() > 0 {
        lemma_exprs_view(es.drop_last());
        assert forall|i: int| 0 <= i < es.len() implies exprs_view(es)[i] == expr_view(
            #[trigger] es[i],
        ) by {
            if i < es.len() - 1 {
                assert(es.drop_last()[i] == es[i]);
            } else {
                assert(es.last() == es[i]);
            }
        }
    }
}

/// `strs_view` maps the sequence pointwise.
pub proof fn lemma_strs_view(ss: Seq<String>)
    ensures
        strs_view(ss).len() == ss.len(),
        forall|i: int| 0 <= i < ss.len() ==> strs_view(ss)[i] == #[trigger] ss[i]@,
    decreases ss,
{
    if ss.len() > 0 {
        lemma_strs_view(ss.drop_last());
        assert forall|i: int| 0 <= i < ss.len() implies strs_view(ss)[i] == (
        #[trigger] ss[i])@ by {
            if i < ss.len() - 1 {
                assert(ss.drop_last()[i] == ss[i]);
            } else {
                assert(ss.last() == ss[i]);
            }
        }
    }
}

/// Well-formedness of a value: the payload selected by the tag is present,
/// and literal elements of an array payload are themselves well formed.
pub open spec fn wf_dt(d: DataType) -> bool
    decreases d,
{
    match d.kind {
        Literal::Int => d.store.integer is Some,
        Literal::Bool => d.store.boolean is Some,
        Literal::Array => d.store.array matches Some(a) && wf_exprs(a@),
        _ => true,
    }
}

/// Well-formedness of a syntax tree node: every literal in it is well formed.
pub open spec fn wf_expr(e: Expr) -> bool
    decreases e,
{
    match e {
        Expr::Unary(u) => wf_expr(*u.value),
        Expr::Binary(b) => wf_expr(*b.left) && wf_expr(*b.right),
        Expr::Block(b) => wf_exprs(b.conditions@) && wf_exprs(b.block@),
        Expr::Literal(d) => wf_dt(d),
        Expr::Function(f) => wf_exprs(f.arguments@),
        Expr::Definition(d) => wf_exprs(d.block@),
        Expr::Nil => true,
    }
}

/// Well-formedness of every node in a sequence.
pub open spec fn wf_exprs(es: Seq<Expr>) -> bool
    decreases es,
{
    forall|i: int| 0 <= i < es.len() ==> wf_expr(#[trigger] es[i])
}


/// Deep, denotation-preserving copies of syntax tree values. Cloning keeps
/// the denotation and well-formedness of the original exactly.
impl Clone for DataType {
    fn clone(&self) -> (r: Self)
        ensures
            dt_view(r) == dt_view(*self),
            wf_dt(r) == wf_dt(*self),
            r.kind == self.kind,
            r.value@ == self.value@,
        decreases self,
    {
        DataType {
            value: self.value.clone(),
            kind: self.kind,
            store: DataStore {
                integer: self.store.integer,
                boolean: self.store.boolean,
                array: match &self.store.array {
                    Some(a) => Some(clone_exprs(a)),
                    None => None,
                },
            },
        }
    }
}

impl Clone for Expr {
    fn clone(&self) -> (r: Self)
        ensures
            expr_view(r) == expr_view(*self),
            wf_expr(r) == wf_expr(*self),
        decreases self,
    {
        match self {
            Expr::Unary(u) => Expr::Unary(
                UnaryExpr { operator: u.operator, value: Box::new((&*u.value).clone()) },
            ),
            Expr::Binary(b) => Expr::Binary(
                BinaryExpr {
                    operator: b.operator,
                    left: Box::new((&*b.left).clone()),
                    right: Box::new((&*b.right).clone()),
                },
            ),
            Expr::Block(b) => Expr::Block(
                Block {
                    kind: b.kind,
                    conditions: clone_exprs(&b.conditions),
                    block: clone_exprs(&b.block),
                },
            ),
            Expr::Literal(d) => Expr::Literal(d.clone()),
            Expr::Function(f) => Expr::Function(
                Function {
                    kind: f.kind,
                    arguments: clone_exprs(&f.arguments),
                    name: f.name.clone(),
                },
            ),
            Expr::Definition(d) => Expr::Definition(d.clone()),
            Expr::Nil => Expr::Nil,
        }
    }
}

impl Clone for Definition {
    fn clone(&self) -> (r: Self)
        ensures
            def_view(r) == def_view(*self),
            wf_exprs(r.block@) == wf_exprs(self.block@),
            r.arguments@.len() == self.arguments@.len(),
        decreases self,
    {
        let r = Definition {
            name: self.name.clone(),
            arguments: clone_strs(&self.arguments),
            block: clone_exprs(&self.block),
        };
        proof {
            lemma_strs_view(r.arguments@);
            lemma_strs_view(self.arguments@);
            assert forall|i: int| 0 <= i < self.arguments@.len() implies strs_view(
                r.arguments@,
            )[i] == strs_view(self.arguments@)[i] by {
                assert(r.arguments@[i] == self.arguments@[i]);
                assert(strs_view(r.arguments@)[i] == r.arguments@[i]@);
                assert(strs_view(self.arguments@)[i] == self.arguments@[i]@);
            }
            assert(strs_view(r.arguments@) =~= strs_view(self.arguments@));
            lemma_exprs_view(r.block@);
            lemma_exprs_view(self.block@);
            assert forall|i: int| 0 <= i < self.block@.len() implies exprs_view(
                r.block@,
            )[i] == exprs_view(self.block@)[i] by {
                assert(expr_view(r.block@[i]) == expr_view(self.block@[i]));
            }
            assert(exprs_view(r.block@) =~= exprs_view(self.block@));
            assert(wf_exprs(r.block@) <==> wf_exprs(self.block@)) by {
                if wf_exprs(r.block@) {
                    assert forall|i: int| 0 <= i < self.block@.len() implies wf_expr(
                        #[trigger] self.block@[i],
                    ) by {
                        assert(wf_expr(r.block@[i]));
                    }
                }
                if wf_exprs(self.block@) {
                    assert forall|i: int| 0 <= i < r.block@.len() implies wf_expr(
                        #[trigger] r.block@[i],
                    ) by {
                        assert(wf_expr(self.block@[i]));
                    }
                }
            }
        }
        r
    }
}

/// Clones a node list element by element, keeping each node's denotation
/// and well-formedness.
#[verifier::loop_isolation(false)]
pub fn clone_exprs(v: &Vec<Expr>) -> (r: Vec<Expr>)
    ensures
        r@.len() == v@.len(),
        exprs_view(r@) == exprs_view(v@),
        wf_exprs(r@) == wf_exprs(v@),
        forall|i: int|
            0 <= i < v@.len() ==> expr_view(#[trigger] r@[i]) == expr_view(v@[i]) && wf_expr(
                r@[i],
            ) == wf_expr(v@[i]),
    decreases v,
{
    let mut r: Vec<Expr> = Vec::new();
    let n = v.len();
    let mut i: usize = 0;
    while i < n
        invariant
            n == v@.len(),
            i <= n,
            r@.len() == i,
            forall|j: int|
                0 <= j < i ==> expr_view(#[trigger] r@[j]) == expr_view(v@[j]) && wf_expr(
                    r@[j],
                ) == wf_expr(v@[j]),
        decreases n - i,
    {
        proof {
            assert(decreases_to!(v => v@));
            assert(decreases_to!(v@ => v@[i as int]));
        }
        r.push(v[i].clone());
        i += 1;
    }
    proof {
        lemma_exprs_view(r@);
        lemma_exprs_view(v@);
        assert forall|i: int| 0 <= i < v@.len() implies exprs_view(r@)[i] == exprs_view(
            v@,
        )[i] by {
            assert(expr_view(r@[i]) == expr_view(v@[i]));
        }
        assert(exprs_view(r@) =~= exprs_view(v@));
        assert(wf_exprs(r@) <==> wf_exprs(v@)) by {
            if wf_exprs(r@) {
                assert forall|i: int| 0 <= i < v@.len() implies wf_expr(#[trigger] v@[i]) by {
                    assert(wf_expr(r@[i]));
                }
            }
            if wf_exprs(v@) {
                assert forall|i: int| 0 <= i < r@.len() implies wf_expr(#[trigger] r@[i]) by {
                    assert(wf_expr(v@[i]));
                }
            }
        }
    }
    r
}

/// Clones a name list element by element.
#[verifier::loop_isolation(false)]
pub fn clone_strs(v: &Vec<String>) -> (r: Vec<String>)
    ensures
        r@.len() == v@.len(),
        forall|i: int| 0 <= i < v@.len() ==> #[trigger] r@[i] == v@[i],
    decreases v@.len(),
{
    let mut r: Vec<String> = Vec::new();
    let n = v.len();
    let mut i: usize = 0;
    while i < n
        invariant
            n == v@.len(),
            i <= n,
            r@.len() == i,
            forall|j: int| 0 <= j < i ==> #[trigger] r@[j] == v@[j],
        decreases n - i,
    {
        r.push(v[i].clone());
        i += 1;
    }
    r
}


/// A parse failure: the stream ended inside an unterminated construct, a
/// block header had the wrong number of conditions, a number or boolean
/// token did not spell a value, or an operator had nothing to its left.
#[derive(Debug, Clone, Copy, PartialEq, Eq, Structural)]
pub enum ParseError {
    UnexpectedEof,
    BadConditionCount,
    BadNumber,
    BadBoolean,
    MissingOperand,
}

/// The outcome of one parsing step: a result plus the position of the next
/// unconsumed token, or a parse failure.
pub ghost enum PStep<T> {
    PDone(T, int),
    PFail(ParseError),
}

/// The operator denoted by a token kind (`Nil` when the kind is not an
/// infix operator; `[` denotes indexing).
pub open spec fn op_of(k: TokenType) -> Operator {
    match k {
        TokenType::Plus => Operator::Plus,
        TokenType::Minus => Operator::Minus,
        TokenType::Times => Operator::Times,
        TokenType::Divide => Operator::Divide,
        TokenType::Equals => Operator::Equals,
        TokenType::EqualTo => Operator::EqualTo,
        TokenType::EqualGreater => Operator::EqualGreater,
        TokenType::EqualLesser => Operator::EqualLesser,
        TokenType::LesserThan => Operator::LesserThan,
        TokenType::GreaterThan => Operator::GreaterThan,
        TokenType::And => Operator::And,
        TokenType::Or => Operator::Or,
        TokenType::NotEqual => Operator::NotEqual,
        TokenType::Not => Operator::Not,
        TokenType::OpeningSquareBracket => Operator::Index,
        _ => Operator::Nil,
    }
}

/// Whether a token kind continues an expression as an infix operator.
pub open spec fn is_infix(k: TokenType) -> bool {
    op_of(k) != Operator::Nil
}

/// The continuation position after a sub-parse: the reported stop, held to
/// the range `(pos, len]` (always a no-op for stops the parsers here
/// actually report).
pub open spec fn advance(pos: int, s: int, len: int) -> int {
    if s <= pos {
        if pos + 1 <= len {
            pos + 1
        } else {
            len
        }
    } else if s > len {
        len
    } else {
        s
    }
}

/// What parsing a quoted literal yields: the token texts up to the
/// matching quote, concatenated verbatim.
pub open spec fn spec_parse_string(t: Seq<TokenV>, pos: int) -> PStep<ExprV>
    decreases t.len() - pos, 0int,
{
    if !(0 <= pos < t.len()) {
        PStep::PFail(ParseError::UnexpectedEof)
    } else {
        spec_string_body(t, pos + 1, t[pos].kind, Seq::empty())
    }
}

/// Scans string content up to the closing quote, accumulating the text.
pub open spec fn spec_string_body(t: Seq<TokenV>, i: int, close: TokenType, acc: Seq<char>) -> PStep<
    ExprV,
>
    decreases t.len() - i, 0int,
{
    if !(0 <= i < t.len()) {
        PStep::PFail(ParseError::UnexpectedEof)
    } else if t[i].kind == close {
        PStep::PDone(ExprV::Literal(Val::Str(acc)), i + 1)
    } else {
        spec_string_body(t, i + 1, close, acc + t[i].value)
    }
}

/// What parsing a format or command string yields: a block whose fragments
/// are plain text runs and, after each `$`, one variable reference.
pub open spec fn spec_parse_fstring(t: Seq<TokenV>, pos: int) -> PStep<ExprV>
    decreases t.len() - pos, 0int,
{
    if !(0 <= pos < t.len()) {
        PStep::PFail(ParseError::UnexpectedEof)
    } else {
        let kind = if t[pos].kind == TokenType::CommandQuote {
            BlockType::CommandString
        } else {
            BlockType::FormatedString
        };
        match spec_fstring_body(t, pos + 1, Seq::empty()) {
            PStep::PFail(e) => PStep::PFail(e),
            PStep::PDone(frags, s) => PStep::PDone(
                ExprV::Block(kind, Seq::empty(), frags),
                s,
            ),
        }
    }
}

/// Scans interpolated-string content up to the closing double quote.
pub open spec fn spec_fstring_body(t: Seq<TokenV>, i: int, acc: Seq<ExprV>) -> PStep<Seq<ExprV>>
    decreases t.len() - i, 0int,
{
    if !(0 <= i < t.len()) {
        PStep::PFail(ParseError::UnexpectedEof)
    } else if t[i].kind == TokenType::DoubleQuote {
        PStep::PDone(acc, i + 1)
    } else if t[i].kind == TokenType::Dollar {
        if i + 1 < t.len() && (t[i + 1].kind == TokenType::Content || t[i + 1].kind
            == TokenType::Name) {
            spec_fstring_body(t, i + 2, acc.push(ExprV::Literal(Val::Var(t[i + 1].value))))
        } else {
            spec_fstring_body(t, i + 1, acc)
        }
    } else {
        spec_fstring_body(t, i + 1, acc.push(ExprV::Literal(Val::Str(t[i].value))))
    }
}

/// What parsing one operand yields: a literal, a variable or call, an
/// array literal, a quoted string, or a negation.
pub open spec fn spec_parse_operand(t: Seq<TokenV>, pos: int) -> PStep<ExprV>
    decreases t.len() - pos, 1int,
{
    if !(0 <= pos < t.len()) {
        PStep::PFail(ParseError::UnexpectedEof)
    } else {
        match t[pos].kind {
            TokenType::Name | TokenType::Content => if pos + 1 < t.len() && t[pos + 1].kind
                == TokenType::OpeningBracket {
                spec_parse_function(t, pos + 1, t[pos].value)
            } else {
                PStep::PDone(ExprV::Literal(Val::Var(t[pos].value)), pos + 1)
            },
            TokenType::Number => if crate::runtime::values::is_int_literal(t[pos].value)
                && i32::MIN <= crate::runtime::values::int_literal_val(t[pos].value) <= i32::MAX {
                PStep::PDone(
                    ExprV::Literal(
                        Val::Int(crate::runtime::values::int_literal_val(t[pos].value)),
                    ),
                    pos + 1,
                )
            } else {
                PStep::PFail(ParseError::BadNumber)
            },
            TokenType::Bool => if t[pos].value == "true"@ {
                PStep::PDone(ExprV::Literal(Val::Bool(true)), pos + 1)
            } else if t[pos].value == "false"@ {
                PStep::PDone(ExprV::Literal(Val::Bool(false)), pos + 1)
            } else {
                PStep::PFail(ParseError::BadBoolean)
            },
            TokenType::SingleQuote | TokenType::DoubleQuote => spec_parse_string(t, pos),
            TokenType::FormattedQuote | TokenType::CommandQuote => spec_parse_fstring(t, pos),
            TokenType::OpeningSquareBracket => spec_parse_array(t, pos),
            TokenType::Length | TokenType::Print => spec_parse_function(t, pos, t[pos].value),
            TokenType::Not => match spec_parse_operand(t, pos + 1) {
                PStep::PFail(e) => PStep::PFail(e),
                PStep::PDone(e, s) => PStep::PDone(
                    ExprV::Binary(Operator::Not, Box::new(ExprV::Nil), Box::new(e)),
                    s,
                ),
            },
            _ => PStep::PFail(ParseError::MissingOperand),
        }
    }
}

/// What folding one infix operator yields: the expression built so far
/// becomes the left operand, one operand is parsed on the right, and any
/// following operator folds again — strict left-to-right, no precedence.
pub open spec fn spec_parse_bin(t: Seq<TokenV>, pos: int, left: ExprV) -> PStep<ExprV>
    decreases t.len() - pos, 2int,
{
    if !(0 <= pos < t.len()) {
        PStep::PFail(ParseError::UnexpectedEof)
    } else {
        let op = op_of(t[pos].kind);
        match spec_parse_operand(t, pos + 1) {
            PStep::PFail(e) => PStep::PFail(e),
            PStep::PDone(rhs, s1) => {
                let s1 = advance(pos + 1, s1, t.len() as int);
                if op == Operator::Index {
                    if s1 < t.len() && t[s1].kind == TokenType::ClosingSquareBracket {
                        spec_fold_next(t, s1 + 1, ExprV::Binary(op, Box::new(left), Box::new(rhs)))
                    } else {
                        PStep::PFail(ParseError::UnexpectedEof)
                    }
                } else {
                    spec_fold_next(t, s1, ExprV::Binary(op, Box::new(left), Box::new(rhs)))
                }
            },
        }
    }
}

/// Continues folding when another infix operator follows; otherwise the
/// expression is finished and the stop is at the first non-operator token.
pub open spec fn spec_fold_next(t: Seq<TokenV>, s: int, cur: ExprV) -> PStep<ExprV>
    decreases t.len() - s, 3int,
{
    if 0 <= s < t.len() && is_infix(t[s].kind) {
        if t[s].kind == TokenType::And || t[s].kind == TokenType::Or {
            spec_and_or(t, s, cur)
        } else {
            spec_parse_bin(t, s, cur)
        }
    } else {
        PStep::PDone(cur, s)
    }
}

/// What folding a logical operator yields: exactly the left-to-right fold
/// of [`spec_parse_bin`], entered at `&&` or `||`.
pub open spec fn spec_and_or(t: Seq<TokenV>, pos: int, left: ExprV) -> PStep<ExprV>
    decreases t.len() - pos, 2int,
{
    if !(0 <= pos < t.len()) {
        PStep::PFail(ParseError::UnexpectedEof)
    } else {
        let op = op_of(t[pos].kind);
        match spec_parse_operand(t, pos + 1) {
            PStep::PFail(e) => PStep::PFail(e),
            PStep::PDone(rhs, s1) => {
                let s1 = advance(pos + 1, s1, t.len() as int);
                spec_fold_next(t, s1, ExprV::Binary(op, Box::new(left), Box::new(rhs)))
            },
        }
    }
}

/// What a name begins: a call when `(` follows, an assignment of the
/// folded right-hand side when `=` follows, an expression fold when
/// another operator follows, or a bare variable reference.
pub open spec fn spec_parse_variable(t: Seq<TokenV>, pos: int, name: Seq<char>) -> PStep<ExprV>
    decreases t.len() - pos, 4int,
{
    if !(0 <= pos < t.len()) {
        PStep::PDone(ExprV::Literal(Val::Var(name)), pos)
    } else if t[pos].kind == TokenType::OpeningBracket {
        spec_parse_function(t, pos, name)
    } else if t[pos].kind == TokenType::Equals {
        match spec_parse_operand(t, pos + 1) {
            PStep::PFail(e) => PStep::PFail(e),
            PStep::PDone(rhs, s1) => {
                let s1 = advance(pos + 1, s1, t.len() as int);
                match spec_fold_next(t, s1, rhs) {
                    PStep::PFail(e) => PStep::PFail(e),
                    PStep::PDone(rhs_full, s2) => PStep::PDone(
                        ExprV::Binary(
                            Operator::Equals,
                            Box::new(ExprV::Literal(Val::Var(name))),
                            Box::new(rhs_full),
                        ),
                        s2,
                    ),
                }
            },
        }
    } else if t[pos].kind == TokenType::And || t[pos].kind == TokenType::Or {
        spec_and_or(t, pos, ExprV::Literal(Val::Var(name)))
    } else if is_infix(t[pos].kind) {
        spec_parse_bin(t, pos, ExprV::Literal(Val::Var(name)))
    } else {
        PStep::PDone(ExprV::Literal(Val::Var(name)), pos)
    }
}

/// What `++x` / `--x` yields: an increment or decrement of the named
/// variable.
pub open spec fn spec_parse_un(t: Seq<TokenV>, pos: int) -> PStep<ExprV>
    decreases t.len() - pos, 0int,
{
    if !(0 <= pos < t.len()) {
        PStep::PFail(ParseError::UnexpectedEof)
    } else {
        let op = if t[pos].kind == TokenType::MinusMinus {
            Operator::Minus
        } else {
            Operator::Plus
        };
        if pos + 1 < t.len() && (t[pos + 1].kind == TokenType::Name || t[pos + 1].kind
            == TokenType::Content) {
            PStep::PDone(
                ExprV::Unary(op, Box::new(ExprV::Literal(Val::Var(t[pos + 1].value)))),
                pos + 2,
            )
        } else {
            PStep::PFail(ParseError::MissingOperand)
        }
    }
}

/// What a call yields: comma-delimited arguments up to the matching `)`.
/// `print` and `length` keyword tokens fix the builtin kind.
pub open spec fn spec_parse_function(t: Seq<TokenV>, pos: int, name: Seq<char>) -> PStep<ExprV>
    decreases t.len() - pos, 0int,
{
    if !(0 <= pos < t.len()) {
        PStep::PFail(ParseError::UnexpectedEof)
    } else {
        let kind = match t[pos].kind {
            TokenType::Print => FunctionType::Print,
            TokenType::Length => FunctionType::Length,
            _ => FunctionType::Defined,
        };
        match spec_parse_any(t, pos + 1, Seq::empty(), false) {
            PStep::PFail(e) => PStep::PFail(e),
            PStep::PDone(args, s) => {
                let s = advance(pos, s, t.len() as int);
                if s < t.len() && t[s].kind == TokenType::ClosingBracket {
                    PStep::PDone(ExprV::Function(kind, args, name), s + 1)
                } else {
                    PStep::PFail(ParseError::UnexpectedEof)
                }
            },
        }
    }
}

/// What `[ … ]` yields: an array literal of the element expressions parsed
/// up to the matching `]`.
pub open spec fn spec_parse_array(t: Seq<TokenV>, pos: int) -> PStep<ExprV>
    decreases t.len() - pos, 0int,
{
    if !(0 <= pos < t.len()) {
        PStep::PFail(ParseError::UnexpectedEof)
    } else {
        match spec_parse_any(t, pos + 1, Seq::empty(), false) {
            PStep::PFail(e) => PStep::PFail(e),
            PStep::PDone(elems, s) => {
                let s = advance(pos, s, t.len() as int);
                if s < t.len() && t[s].kind == TokenType::ClosingSquareBracket {
                    PStep::PDone(ExprV::Literal(Val::Arr(elems)), s + 1)
                } else {
                    PStep::PFail(ParseError::UnexpectedEof)
                }
            },
        }
    }
}

/// What a control block yields. For `if`/`elseif`/`else`/`for`, the tokens
/// before `{` become the conditions — exactly one for `if`/`elseif`, none
/// for `else`, one or three for `for` — and the tokens inside the braces
/// become the body. `import` and `return` take the rest of the statement
/// as their body.
pub open spec fn spec_parse_block(t: Seq<TokenV>, pos: int) -> PStep<ExprV>
    decreases t.len() - pos, 0int,
{
    if !(0 <= pos < t.len()) {
        PStep::PFail(ParseError::UnexpectedEof)
    } else {
        let kind = match t[pos].kind {
            TokenType::If => BlockType::If,
            TokenType::Else => BlockType::Else,
            TokenType::ElseIf => BlockType::ElseIf,
            TokenType::For => BlockType::For,
            TokenType::Import => BlockType::Import,
            _ => BlockType::Return,
        };
        if kind == BlockType::Import || kind == BlockType::Return {
            match spec_parse_any(t, pos + 1, Seq::empty(), false) {
                PStep::PFail(e) => PStep::PFail(e),
                PStep::PDone(body, s) => PStep::PDone(
                    ExprV::Block(kind, Seq::empty(), body),
                    advance(pos, s, t.len() as int),
                ),
            }
        } else {
            match spec_parse_conds(t, pos + 1, Seq::empty()) {
                PStep::PFail(e) => PStep::PFail(e),
                PStep::PDone(conds, s) => {
                    let s = advance(pos, s, t.len() as int);
                    if !(s < t.len() && t[s].kind == TokenType::OpeningBrace) {
                        PStep::PFail(ParseError::UnexpectedEof)
                    } else if !((kind == BlockType::If || kind == BlockType::ElseIf) && conds.len()
                        == 1 || kind == BlockType::Else && conds.len() == 0 || kind
                        == BlockType::For && (conds.len() == 1 || conds.len() == 3)) {
                        PStep::PFail(ParseError::BadConditionCount)
                    } else {
                        match spec_parse_any(t, s + 1, Seq::empty(), false) {
                            PStep::PFail(e) => PStep::PFail(e),
                            PStep::PDone(body, s2) => {
                                let s2 = advance(s, s2, t.len() as int);
                                if s2 < t.len() && t[s2].kind == TokenType::ClosingBrace {
                                    PStep::PDone(ExprV::Block(kind, conds, body), s2 + 1)
                                } else {
                                    PStep::PFail(ParseError::UnexpectedEof)
                                }
                            },
                        }
                    }
                },
            }
        }
    }
}

/// Collects a block header's conditions: token runs up to the opening
/// brace, with a parenthesis-wrapped header's closing `)` skipped.
pub open spec fn spec_parse_conds(t: Seq<TokenV>, i: int, acc: Seq<ExprV>) -> PStep<Seq<ExprV>>
    decreases t.len() - i, 6int,
{
    match spec_parse_any(t, i, acc, true) {
        PStep::PFail(e) => PStep::PFail(e),
        PStep::PDone(acc2, s) => {
            let s = advance(i - 1, s, t.len() as int);
            if s < t.len() && t[s].kind == TokenType::ClosingBracket {
                spec_parse_conds(t, s + 1, acc2)
            } else {
                PStep::PDone(acc2, s)
            }
        },
    }
}

/// Collects parameter names up to the closing `)` of a definition header.
pub open spec fn spec_def_params(t: Seq<TokenV>, i: int, acc: Seq<Seq<char>>) -> PStep<
    Seq<Seq<char>>,
>
    decreases t.len() - i, 0int,
{
    if !(0 <= i < t.len()) {
        PStep::PFail(ParseError::UnexpectedEof)
    } else if t[i].kind == TokenType::ClosingBracket {
        PStep::PDone(acc, i + 1)
    } else if t[i].kind == TokenType::Name || t[i].kind == TokenType::Content {
        spec_def_params(t, i + 1, acc.push(t[i].value))
    } else {
        spec_def_params(t, i + 1, acc)
    }
}

/// What `fn name(params) { body }` yields: a definition with the bare
/// parameter names in order and the brace-delimited body.
pub open spec fn spec_parse_definition(t: Seq<TokenV>, pos: int) -> PStep<ExprV>
    decreases t.len() - pos, 1int,
{
    if !(0 <= pos < t.len()) {
        PStep::PFail(ParseError::UnexpectedEof)
    } else if !(t[pos].kind == TokenType::Name || t[pos].kind == TokenType::Content) {
        PStep::PFail(ParseError::MissingOperand)
    } else {
        match spec_def_params(t, pos + 1, Seq::empty()) {
            PStep::PFail(e) => PStep::PFail(e),
            PStep::PDone(params, s) => {
                let s = advance(pos, s, t.len() as int);
                match spec_parse_any(t, s, Seq::empty(), false) {
                    PStep::PFail(e) => PStep::PFail(e),
                    PStep::PDone(body, s2) => {
                        let s2 = advance(s - 1, s2, t.len() as int);
                        if s2 < t.len() && t[s2].kind == TokenType::ClosingBrace {
                            PStep::PDone(
                                ExprV::Definition(
                                    DefV { name: t[pos].value, params, block: body },
                                ),
                                s2 + 1,
                            )
                        } else {
                            PStep::PFail(ParseError::UnexpectedEof)
                        }
                    },
                }
            },
        }
    }
}

/// What a token run yields, one recognised construct per statement,
/// appended in order to `acc`. The run stops at its destination's
/// terminator: a closing brace or bracket, or — when collecting a block
/// header's conditions — the opening brace.
pub open spec fn spec_parse_any(t: Seq<TokenV>, pos: int, acc: Seq<ExprV>, conditions: bool) -> PStep<
    Seq<ExprV>,
>
    decreases t.len() - pos, 5int,
{
    if !(0 <= pos < t.len()) {
        PStep::PDone(acc, if pos < 0 { 0 } else { pos })
    } else {
        let len = t.len() as int;
        match t[pos].kind {
            TokenType::OpeningBrace => if conditions {
                PStep::PDone(acc, pos)
            } else {
                spec_parse_any(t, pos + 1, acc, conditions)
            },
            TokenType::ClosingBrace | TokenType::ClosingBracket
                | TokenType::ClosingSquareBracket => PStep::PDone(acc, pos),
            TokenType::SingleQuote | TokenType::DoubleQuote => match spec_parse_string(t, pos) {
                PStep::PFail(e) => PStep::PFail(e),
                PStep::PDone(e, s) => spec_parse_any(
                    t,
                    advance(pos, s, len),
                    acc.push(e),
                    conditions,
                ),
            },
            TokenType::CommandQuote | TokenType::FormattedQuote => match spec_parse_fstring(
                t,
                pos,
            ) {
                PStep::PFail(e) => PStep::PFail(e),
                PStep::PDone(e, s) => spec_parse_any(
                    t,
                    advance(pos, s, len),
                    acc.push(e),
                    conditions,
                ),
            },
            TokenType::Name | TokenType::Content => match spec_parse_variable(
                t,
                pos + 1,
                t[pos].value,
            ) {
                PStep::PFail(e) => PStep::PFail(e),
                PStep::PDone(e, s) => spec_parse_any(
                    t,
                    advance(pos, s, len),
                    acc.push(e),
                    conditions,
                ),
            },
            TokenType::OpeningSquareBracket => match spec_parse_array(t, pos) {
                PStep::PFail(e) => PStep::PFail(e),
                PStep::PDone(e, s) => spec_parse_any(
                    t,
                    advance(pos, s, len),
                    acc.push(e),
                    conditions,
                ),
            },
            TokenType::If | TokenType::ElseIf | TokenType::Else | TokenType::For
                | TokenType::Import | TokenType::Return => match spec_parse_block(t, pos) {
                PStep::PFail(e) => PStep::PFail(e),
                PStep::PDone(e, s) => spec_parse_any(
                    t,
                    advance(pos, s, len),
                    acc.push(e),
                    conditions,
                ),
            },
            TokenType::PlusPlus | TokenType::MinusMinus => match spec_parse_un(t, pos) {
                PStep::PFail(e) => PStep::PFail(e),
                PStep::PDone(e, s) => spec_parse_any(
                    t,
                    advance(pos, s, len),
                    acc.push(e),
                    conditions,
                ),
            },
            TokenType::And | TokenType::Or => if acc.len() == 0 {
                PStep::PFail(ParseError::MissingOperand)
            } else {
                match spec_and_or(t, pos, acc.last()) {
                    PStep::PFail(e) => PStep::PFail(e),
                    PStep::PDone(e, s) => spec_parse_any(
                        t,
                        advance(pos, s, len),
                        acc.push(e),
                        conditions,
                    ),
                }
            },
            TokenType::Equals | TokenType::EqualTo | TokenType::LesserThan
                | TokenType::GreaterThan | TokenType::EqualGreater | TokenType::EqualLesser
                | TokenType::Plus | TokenType::Minus | TokenType::Times | TokenType::Divide
                | TokenType::Not | TokenType::NotEqual => if acc.len() == 0 {
                PStep::PFail(ParseError::MissingOperand)
            } else {
                match spec_parse_bin(t, pos, acc.last()) {
                    PStep::PFail(e) => PStep::PFail(e),
                    PStep::PDone(e, s) => spec_parse_any(
                        t,
                        advance(pos, s, len),
                        acc.push(e),
                        conditions,
                    ),
                }
            },
            TokenType::Number => if crate::runtime::values::is_int_literal(t[pos].value)
                && i32::MIN <= crate::runtime::values::int_literal_val(t[pos].value) <= i32::MAX {
                spec_parse_any(
                    t,
                    pos + 1,
                    acc.push(
                        ExprV::Literal(
                            Val::Int(crate::runtime::values::int_literal_val(t[pos].value)),
                        ),
                    ),
                    conditions,
                )
            } else {
                PStep::PFail(ParseError::BadNumber)
            },
            TokenType::Bool => if t[pos].value == "true"@ {
                spec_parse_any(
                    t,
                    pos + 1,
                    acc.push(ExprV::Literal(Val::Bool(true))),
                    conditions,
                )
            } else if t[pos].value == "false"@ {
                spec_parse_any(
                    t,
                    pos + 1,
                    acc.push(ExprV::Literal(Val::Bool(false))),
                    conditions,
                )
            } else {
                PStep::PFail(ParseError::BadBoolean)
            },
            TokenType::Print | TokenType::Length => match spec_parse_function(
                t,
                pos,
                t[pos].value,
            ) {
                PStep::PFail(e) => PStep::PFail(e),
                PStep::PDone(e, s) => spec_parse_any(
                    t,
                    advance(pos, s, len),
                    acc.push(e),
                    conditions,
                ),
            },
            TokenType::Function => match spec_parse_definition(t, pos + 1) {
                PStep::PFail(e) => PStep::PFail(e),
                PStep::PDone(e, s) => spec_parse_any(
                    t,
                    advance(pos, s, len),
                    acc.push(e),
                    conditions,
                ),
            },
            _ => spec_parse_any(t, pos + 1, acc, conditions),
        }
    }
}

/// What parsing the whole stream yields: the ordered statement list, with
/// stray terminators at the top level skipped.
pub open spec fn spec_parse(t: Seq<TokenV>, pos: int, acc: Seq<ExprV>) -> PStep<Seq<ExprV>>
    decreases t.len() - pos, 6int,
{
    if !(0 <= pos < t.len()) {
        PStep::PDone(acc, if pos < 0 { 0 } else { pos })
    } else {
        match spec_parse_any(t, pos, acc, false) {
            PStep::PFail(e) => PStep::PFail(e),
            PStep::PDone(acc2, s) => {
                let s = if s < pos {
                    pos
                } else if s > t.len() {
                    t.len() as int
                } else {
                    s
                };
                let nxt = if s + 1 > t.len() {
                    t.len() as int
                } else {
                    s + 1
                };
                spec_parse(t, nxt, acc2)
            },
        }
    }
}


/// The denotation of a node list grows pointwise under `push`.
pub proof fn lemma_exprs_view_push(es: Seq<Expr>, e: Expr)
    ensures
        exprs_view(es.push(e)) == exprs_view(es).push(expr_view(e)),
{
    assert(es.push(e).drop_last() =~= es);
    assert(es.push(e).last() == e);
    assert(exprs_view(es.push(e)) =~= exprs_view(es).push(expr_view(e)));
}

/// A well-formed node appended to a well-formed list keeps the list well
/// formed.
pub proof fn lemma_wf_exprs_push(es: Seq<Expr>, e: Expr)
    requires
        wf_exprs(es),
        wf_expr(e),
    ensures
        wf_exprs(es.push(e)),
{
    assert forall|j: int| 0 <= j < es.push(e).len() implies wf_expr(#[trigger] es.push(e)[j]) by {
        if j < es.len() {
            assert(es.push(e)[j] == es[j]);
            assert(wf_expr(es[j]));
        } else {
            assert(es.push(e)[j] == e);
        }
    }
}

/// The denotation of a node list changes pointwise under `update`.
pub proof fn lemma_exprs_view_update(es: Seq<Expr>, i: int, e: Expr)
    requires
        0 <= i < es.len(),
    ensures
        exprs_view(es.update(i, e)) == exprs_view(es).update(i, expr_view(e)),
{
    lemma_exprs_view(es);
    lemma_exprs_view(es.update(i, e));
    assert forall|j: int|
        0 <= j < es.len() implies exprs_view(es.update(i, e))[j] == exprs_view(es).update(
        i,
        expr_view(e),
    )[j] by {
        assert(exprs_view(es.update(i, e))[j] == expr_view(es.update(i, e)[j]));
        if j != i {
            assert(es.update(i, e)[j] == es[j]);
            assert(exprs_view(es)[j] == expr_view(es[j]));
        }
    }
    assert(exprs_view(es.update(i, e)) =~= exprs_view(es).update(i, expr_view(e)));
}

/// The denotation of a node list shrinks pointwise under `remove`.
pub proof fn lemma_exprs_view_remove(es: Seq<Expr>, i: int)
    requires
        0 <= i < es.len(),
    ensures
        exprs_view(es.remove(i)) == exprs_view(es).remove(i),
{
    lemma_exprs_view(es);
    lemma_exprs_view(es.remove(i));
    assert forall|j: int|
        0 <= j < es.len() - 1 implies exprs_view(es.remove(i))[j] == exprs_view(es).remove(
        i,
    )[j] by {
        assert(exprs_view(es.remove(i))[j] == expr_view(es.remove(i)[j]));
        if j < i {
            assert(es.remove(i)[j] == es[j]);
            assert(exprs_view(es)[j] == expr_view(es[j]));
        } else {
            assert(es.remove(i)[j] == es[j + 1]);
            assert(exprs_view(es)[j + 1] == expr_view(es[j + 1]));
        }
    }
    assert(exprs_view(es.remove(i)) =~= exprs_view(es).remove(i));
}


/// Whether a token's text equals the given keyword.
fn text_is(s: &String, lit: &str) -> (b: bool)
    ensures
        b == (s@ == lit@),
{
    let t = String::from_str(lit);
    *s == t
}

/// The operator a token kind denotes, executable mirror of [`op_of`].
fn op_of_token(k: TokenType) -> (o: Operator)
    ensures
        o == op_of(k),
{
    match k {
        TokenType::Plus => Operator::Plus,
        TokenType::Minus => Operator::Minus,
        TokenType::Times => Operator::Times,
        TokenType::Divide => Operator::Divide,
        TokenType::Equals => Operator::Equals,
        TokenType::EqualTo => Operator::EqualTo,
        TokenType::EqualGreater => Operator::EqualGreater,
        TokenType::EqualLesser => Operator::EqualLesser,
        TokenType::LesserThan => Operator::LesserThan,
        TokenType::GreaterThan => Operator::GreaterThan,
        TokenType::And => Operator::And,
        TokenType::Or => Operator::Or,
        TokenType::NotEqual => Operator::NotEqual,
        TokenType::Not => Operator::Not,
        TokenType::OpeningSquareBracket => Operator::Index,
        _ => Operator::Nil,
    }
}

/// Whether a token kind continues an expression as an infix operator.
fn token_is_infix(k: TokenType) -> (b: bool)
    ensures
        b == is_infix(k),
{
    match op_of_token(k) {
        Operator::Nil => false,
        _ => true,
    }
}

/// A bare string-literal value.
fn str_lit(text: String) -> (e: Expr)
    ensures
        expr_view(e) == ExprV::Literal(Val::Str(text@)),
        wf_expr(e),
{
    let d = DataType { value: text, kind: Literal::String, store: DataStore::new(None, None) };
    proof {
        assert(wf_dt(d));
    }
    let ghost dv = dt_view(d);
    let e = Expr::Literal(d);
    proof {
        assert(dv == Val::Str(text@));
        assert(expr_view(e) == ExprV::Literal(dv));
    }
    e
}

/// A bare variable-reference value.
fn var_lit(name: String) -> (e: Expr)
    ensures
        expr_view(e) == ExprV::Literal(Val::Var(name@)),
        wf_expr(e),
{
    let d = DataType { value: name, kind: Literal::Variable, store: DataStore::new(None, None) };
    proof {
        assert(wf_dt(d));
    }
    let ghost dv = dt_view(d);
    let e = Expr::Literal(d);
    proof {
        assert(dv == Val::Var(name@));
        assert(expr_view(e) == ExprV::Literal(dv));
    }
    e
}

/// Parses a quoted literal at `pos`: the token texts up to the matching
/// quote, concatenated verbatim.
#[verifier::spinoff_prover]
#[verifier::rlimit(100)]
pub fn parse_string(tokens: &Vec<Token>, pos: usize) -> (r: Result<(Expr, usize), ParseError>)
    ensures
        match r {
            Ok(p) => spec_parse_string(tokens_view(tokens@), pos as int) == PStep::PDone(
                expr_view(p.0),
                p.1 as int,
            ) && wf_expr(p.0) && pos < p.1 <= tokens@.len(),
            Err(e) => spec_parse_string(tokens_view(tokens@), pos as int) == PStep::PFail::<
                ExprV,
            >(e),
        },
    decreases tokens@.len() - pos, 0int,
{
    proof {
        lemma_tokens_view(tokens@);
    }
    if pos >= tokens.len() {
        return Err(ParseError::UnexpectedEof);
    }
    string_body(tokens, pos + 1, tokens[pos].kind, String::new())
}

/// Scans string content up to the closing quote, accumulating the text.
#[verifier::spinoff_prover]
#[verifier::rlimit(100)]
fn string_body(tokens: &Vec<Token>, i: usize, close: TokenType, acc: String) -> (r: Result<
    (Expr, usize),
    ParseError,
>)
    ensures
        match r {
            Ok(p) => spec_string_body(tokens_view(tokens@), i as int, close, acc@)
                == PStep::PDone(expr_view(p.0), p.1 as int) && wf_expr(p.0) && i < p.1
                <= tokens@.len(),
            Err(e) => spec_string_body(tokens_view(tokens@), i as int, close, acc@)
                == PStep::PFail::<ExprV>(e),
        },
    decreases tokens@.len() - i, 0int,
{
    proof {
        lemma_tokens_view(tokens@);
    }
    if i >= tokens.len() {
        return Err(ParseError::UnexpectedEof);
    }
    if tokens[i].kind == close {
        Ok((str_lit(acc), i + 1))
    } else {
        let mut acc = acc;
        acc.append(tokens[i].value.as_str());
        string_body(tokens, i + 1, close, acc)
    }
}

/// Parses a format or command string at `pos`: a block whose fragments are
/// plain text runs and, after each `$`, one variable reference.
#[verifier::spinoff_prover]
#[verifier::rlimit(100)]
pub fn parse_fstring(tokens: &Vec<Token>, pos: usize) -> (r: Result<(Expr, usize), ParseError>)
    ensures
        match r {
            Ok(p) => spec_parse_fstring(tokens_view(tokens@), pos as int) == PStep::PDone(
                expr_view(p.0),
                p.1 as int,
            ) && wf_expr(p.0) && pos < p.1 <= tokens@.len(),
            Err(e) => spec_parse_fstring(tokens_view(tokens@), pos as int) == PStep::PFail::<
                ExprV,
            >(e),
        },
    decreases tokens@.len() - pos, 0int,
{
    proof {
        lemma_tokens_view(tokens@);
    }
    if pos >= tokens.len() {
        return Err(ParseError::UnexpectedEof);
    }
    let kind = if tokens[pos].kind == TokenType::CommandQuote {
        BlockType::CommandString
    } else {
        BlockType::FormatedString
    };
    let (frags, s) = match fstring_body(tokens, pos + 1, Vec::new()) {
        Ok(p) => p,
        Err(e) => {
            return Err(e);
        },
    };
    let ghost fv = exprs_view(frags@);
    let b = Block { kind, conditions: Vec::new(), block: frags };
    let e = Expr::Block(b);
    proof {
        assert(exprs_view(Seq::<Expr>::empty()) =~= Seq::<ExprV>::empty());
        assert(expr_view(e) == ExprV::Block(kind, Seq::empty(), fv));
        assert(wf_exprs(Seq::<Expr>::empty()));
        assert(wf_expr(e));
    }
    Ok((e, s))
}

/// Scans interpolated-string content up to the closing double quote.
#[verifier::spinoff_prover]
#[verifier::rlimit(100)]
fn fstring_body(tokens: &Vec<Token>, i: usize, frags: Vec<Expr>) -> (r: Result<
    (Vec<Expr>, usize),
    ParseError,
>)
    requires
        wf_exprs(frags@),
    ensures
        match r {
            Ok(p) => spec_fstring_body(tokens_view(tokens@), i as int, exprs_view(frags@))
                == PStep::PDone(exprs_view(p.0@), p.1 as int) && wf_exprs(p.0@) && i < p.1
                <= tokens@.len(),
            Err(e) => spec_fstring_body(tokens_view(tokens@), i as int, exprs_view(frags@))
                == PStep::PFail::<Seq<ExprV>>(e),
        },
    decreases tokens@.len() - i, 0int,
{
    proof {
        lemma_tokens_view(tokens@);
    }
    if i >= tokens.len() {
        return Err(ParseError::UnexpectedEof);
    }
    if tokens[i].kind == TokenType::DoubleQuote {
        return Ok((frags, i + 1));
    }
    if tokens[i].kind == TokenType::Dollar {
        if i + 1 < tokens.len() && (tokens[i + 1].kind == TokenType::Content || tokens[i
            + 1].kind == TokenType::Name) {
            let mut frags = frags;
            let ghost pre = frags@;
            frags.push(var_lit(tokens[i + 1].value.clone()));
            proof {
                lemma_exprs_view_push(pre, frags@[frags@.len() - 1]);
                assert(frags@.drop_last() =~= pre);
                lemma_wf_exprs_push(pre, frags@[frags@.len() - 1]);
                assert(frags@ =~= pre.push(frags@[frags@.len() - 1]));
            }
            return fstring_body(tokens, i + 2, frags);
        }
        return fstring_body(tokens, i + 1, frags);
    }
    let mut frags = frags;
    let ghost pre = frags@;
    frags.push(str_lit(tokens[i].value.clone()));
    proof {
        lemma_exprs_view_push(pre, frags@[frags@.len() - 1]);
        assert(frags@.drop_last() =~= pre);
        lemma_wf_exprs_push(pre, frags@[frags@.len() - 1]);
        assert(frags@ =~= pre.push(frags@[frags@.len() - 1]));
    }
    fstring_body(tokens, i + 1, frags)
}

/// Parses one operand at `pos`: a literal, a variable or call, an array
/// literal, a quoted string, or a negation.
#[verifier::spinoff_prover]
#[verifier::rlimit(100)]
fn parse_operand(tokens: &Vec<Token>, pos: usize) -> (r: Result<(Expr, usize), ParseError>)
    ensures
        match r {
            Ok(p) => spec_parse_operand(tokens_view(tokens@), pos as int) == PStep::PDone(
                expr_view(p.0),
                p.1 as int,
            ) && wf_expr(p.0) && pos < p.1 <= tokens@.len(),
            Err(e) => spec_parse_operand(tokens_view(tokens@), pos as int) == PStep::PFail::<
                ExprV,
            >(e),
        },
    decreases tokens@.len() - pos, 1int,
{
    proof {
        lemma_tokens_view(tokens@);
    }
    if pos >= tokens.len() {
        return Err(ParseError::UnexpectedEof);
    }
    match tokens[pos].kind {
        TokenType::Name | TokenType::Content => {
            if pos + 1 < tokens.len() && tokens[pos + 1].kind == TokenType::OpeningBracket {
                parse_function(tokens, pos + 1, tokens[pos].value.clone())
            } else {
                Ok((var_lit(tokens[pos].value.clone()), pos + 1))
            }
        },
        TokenType::Number => match crate::runtime::values::string_to_int(
            tokens[pos].value.as_str(),
        ) {
            Some(v) => {
                let d = DataType {
                    value: String::new(),
                    kind: Literal::Int,
                    store: DataStore::new(Some(v), None),
                };
                let ghost dv = dt_view(d);
                proof {
                    assert(wf_dt(d));
                }
                let e = Expr::Literal(d);
                proof {
                    assert(dv == Val::Int(v as int));
                    assert(expr_view(e) == ExprV::Literal(dv));
                }
                Ok((e, pos + 1))
            },
            None => Err(ParseError::BadNumber),
        },
        TokenType::Bool => {
            if text_is(&tokens[pos].value, "true") {
                let d = DataType {
                    value: String::new(),
                    kind: Literal::Bool,
                    store: DataStore::new(None, Some(true)),
                };
                let ghost dv = dt_view(d);
                proof {
                    assert(wf_dt(d));
                }
                let e = Expr::Literal(d);
                proof {
                    assert(dv == Val::Bool(true));
                    assert(expr_view(e) == ExprV::Literal(dv));
                }
                Ok((e, pos + 1))
            } else if text_is(&tokens[pos].value, "false") {
                let d = DataType {
                    value: String::new(),
                    kind: Literal::Bool,
                    store: DataStore::new(None, Some(false)),
                };
                let ghost dv = dt_view(d);
                proof {
                    assert(wf_dt(d));
                }
                let e = Expr::Literal(d);
                proof {
                    assert(dv == Val::Bool(false));
                    assert(expr_view(e) == ExprV::Literal(dv));
                }
                Ok((e, pos + 1))
            } else {
                Err(ParseError::BadBoolean)
            }
        },
        TokenType::SingleQuote | TokenType::DoubleQuote => parse_string(tokens, pos),
        TokenType::FormattedQuote | TokenType::CommandQuote => parse_fstring(tokens, pos),
        TokenType::OpeningSquareBracket => parse_array(tokens, pos),
        TokenType::Length | TokenType::Print => parse_function(
            tokens,
            pos,
            tokens[pos].value.clone(),
        ),
        TokenType::Not => {
            let (e, s) = match parse_operand(tokens, pos + 1) {
                Ok(p) => p,
                Err(e0) => {
                    return Err(e0);
                },
            };
            let ghost ev = expr_view(e);
            let b = BinaryExpr {
                operator: Operator::Not,
                left: Box::new(Expr::Nil),
                right: Box::new(e),
            };
            let out = Expr::Binary(b);
            proof {
                assert(expr_view(Expr::Nil) == ExprV::Nil);
                assert(expr_view(out) == ExprV::Binary(
                    Operator::Not,
                    Box::new(ExprV::Nil),
                    Box::new(ev),
                ));
                assert(wf_expr(Expr::Nil));
                assert(wf_expr(out));
            }
            Ok((out, s))
        },
        _ => Err(ParseError::MissingOperand),
    }
}

/// Folds one infix operator at `pos`: the expression built so far becomes
/// the left operand, one operand is parsed on the right, and any following
/// operator folds again — strict left-to-right, no precedence.
#[verifier::spinoff_prover]
#[verifier::rlimit(100)]
pub fn parse_bin(tokens: &Vec<Token>, pos: usize, left: Expr) -> (r: Result<
    (Expr, usize),
    ParseError,
>)
    requires
        wf_expr(left),
    ensures
        match r {
            Ok(p) => spec_parse_bin(tokens_view(tokens@), pos as int, expr_view(left))
                == PStep::PDone(expr_view(p.0), p.1 as int) && wf_expr(p.0) && pos < p.1
                <= tokens@.len(),
            Err(e) => spec_parse_bin(tokens_view(tokens@), pos as int, expr_view(left))
                == PStep::PFail::<ExprV>(e),
        },
    decreases tokens@.len() - pos, 2int,
{
    proof {
        lemma_tokens_view(tokens@);
    }
    if pos >= tokens.len() {
        return Err(ParseError::UnexpectedEof);
    }
    let op = op_of_token(tokens[pos].kind);
    let (rhs, s1) = match parse_operand(tokens, pos + 1) {
        Ok(p) => p,
        Err(e) => {
            return Err(e);
        },
    };
    proof {
        assert(advance(pos + 1, s1 as int, tokens@.len() as int) == s1 as int);
    }
    let ghost lv = expr_view(left);
    let ghost rv = expr_view(rhs);
    let cur = Expr::Binary(
        BinaryExpr { operator: op, left: Box::new(left), right: Box::new(rhs) },
    );
    proof {
        assert(expr_view(cur) == ExprV::Binary(op, Box::new(lv), Box::new(rv)));
        assert(wf_expr(cur));
    }
    if match op {
        Operator::Index => true,
        _ => false,
    } {
        if s1 < tokens.len() && tokens[s1].kind == TokenType::ClosingSquareBracket {
            fold_next(tokens, s1 + 1, cur)
        } else {
            Err(ParseError::UnexpectedEof)
        }
    } else {
        fold_next(tokens, s1, cur)
    }
}

/// Continues folding when another infix operator follows; otherwise the
/// expression is finished and the stop is at the first non-operator token.
#[verifier::spinoff_prover]
#[verifier::rlimit(100)]
fn fold_next(tokens: &Vec<Token>, s: usize, cur: Expr) -> (r: Result<(Expr, usize), ParseError>)
    requires
        wf_expr(cur),
        s <= tokens@.len(),
    ensures
        match r {
            Ok(p) => spec_fold_next(tokens_view(tokens@), s as int, expr_view(cur))
                == PStep::PDone(expr_view(p.0), p.1 as int) && wf_expr(p.0) && s <= p.1
                <= tokens@.len(),
            Err(e) => spec_fold_next(tokens_view(tokens@), s as int, expr_view(cur))
                == PStep::PFail::<ExprV>(e),
        },
    decreases tokens@.len() - s, 3int,
{
    proof {
        lemma_tokens_view(tokens@);
    }
    if s < tokens.len() && token_is_infix(tokens[s].kind) {
        if tokens[s].kind == TokenType::And || tokens[s].kind == TokenType::Or {
            and_or(tokens, s, cur)
        } else {
            parse_bin(tokens, s, cur)
        }
    } else {
        Ok((cur, s))
    }
}

/// Folds a logical operator at `pos`: exactly the left-to-right fold of
/// [`parse_bin`], entered at `&&` or `||`.
#[verifier::spinoff_prover]
#[verifier::rlimit(100)]
pub fn and_or(tokens: &Vec<Token>, pos: usize, left: Expr) -> (r: Result<
    (Expr, usize),
    ParseError,
>)
    requires
        wf_expr(left),
    ensures
        match r {
            Ok(p) => spec_and_or(tokens_view(tokens@), pos as int, expr_view(left))
                == PStep::PDone(expr_view(p.0), p.1 as int) && wf_expr(p.0) && pos < p.1
                <= tokens@.len(),
            Err(e) => spec_and_or(tokens_view(tokens@), pos as int, expr_view(left))
                == PStep::PFail::<ExprV>(e),
        },
    decreases tokens@.len() - pos, 2int,
{
    proof {
        lemma_tokens_view(tokens@);
    }
    if pos >= tokens.len() {
        return Err(ParseError::UnexpectedEof);
    }
    let op = op_of_token(tokens[pos].kind);
    let (rhs, s1) = match parse_operand(tokens, pos + 1) {
        Ok(p) => p,
        Err(e) => {
            return Err(e);
        },
    };
    proof {
        assert(advance(pos + 1, s1 as int, tokens@.len() as int) == s1 as int);
    }
    let ghost lv = expr_view(left);
    let ghost rv = expr_view(rhs);
    let cur = Expr::Binary(
        BinaryExpr { operator: op, left: Box::new(left), right: Box::new(rhs) },
    );
    proof {
        assert(expr_view(cur) == ExprV::Binary(op, Box::new(lv), Box::new(rv)));
        assert(wf_expr(cur));
    }
    fold_next(tokens, s1, cur)
}

/// Parses what a name begins: a call when `(` follows, an expression fold
/// when an operator follows, or a bare variable reference.
#[verifier::spinoff_prover]
#[verifier::rlimit(100)]
pub fn parse_variable(tokens: &Vec<Token>, pos: usize, name: String) -> (r: Result<
    (Expr, usize),
    ParseError,
>)
    requires
        pos <= tokens@.len(),
    ensures
        match r {
            Ok(p) => spec_parse_variable(tokens_view(tokens@), pos as int, name@)
                == PStep::PDone(expr_view(p.0), p.1 as int) && wf_expr(p.0) && pos <= p.1
                <= tokens@.len(),
            Err(e) => spec_parse_variable(tokens_view(tokens@), pos as int, name@)
                == PStep::PFail::<ExprV>(e),
        },
    decreases tokens@.len() - pos, 4int,
{
    proof {
        lemma_tokens_view(tokens@);
    }
    if pos >= tokens.len() {
        return Ok((var_lit(name), pos));
    }
    if tokens[pos].kind == TokenType::OpeningBracket {
        parse_function(tokens, pos, name)
    } else if tokens[pos].kind == TokenType::Equals {
        let (rhs, s1) = match parse_operand(tokens, pos + 1) {
            Ok(p) => p,
            Err(e) => {
                return Err(e);
            },
        };
        proof {
            assert(advance(pos as int + 1, s1 as int, tokens@.len() as int) == s1 as int);
        }
        let (rhs_full, s2) = match fold_next(tokens, s1, rhs) {
            Ok(p) => p,
            Err(e) => {
                return Err(e);
            },
        };
        let lhs = var_lit(name);
        let ghost lv = expr_view(lhs);
        let ghost rv = expr_view(rhs_full);
        let e = Expr::Binary(
            BinaryExpr { operator: Operator::Equals, left: Box::new(lhs), right: Box::new(rhs_full) },
        );
        proof {
            assert(expr_view(e) == ExprV::Binary(Operator::Equals, Box::new(lv), Box::new(rv)));
            assert(wf_expr(e));
        }
        Ok((e, s2))
    } else if tokens[pos].kind == TokenType::And || tokens[pos].kind == TokenType::Or {
        and_or(tokens, pos, var_lit(name))
    } else if token_is_infix(tokens[pos].kind) {
        parse_bin(tokens, pos, var_lit(name))
    } else {
        Ok((var_lit(name), pos))
    }
}

/// Parses `++x` / `--x` at `pos`: an increment or decrement of the named
/// variable.
#[verifier::spinoff_prover]
#[verifier::rlimit(100)]
pub fn parse_un(tokens: &Vec<Token>, pos: usize) -> (r: Result<(Expr, usize), ParseError>)
    ensures
        match r {
            Ok(p) => spec_parse_un(tokens_view(tokens@), pos as int) == PStep::PDone(
                expr_view(p.0),
                p.1 as int,
            ) && wf_expr(p.0) && pos < p.1 <= tokens@.len(),
            Err(e) => spec_parse_un(tokens_view(tokens@), pos as int) == PStep::PFail::<ExprV>(
                e,
            ),
        },
    decreases tokens@.len() - pos, 0int,
{
    proof {
        lemma_tokens_view(tokens@);
    }
    if pos >= tokens.len() {
        return Err(ParseError::UnexpectedEof);
    }
    let op = if tokens[pos].kind == TokenType::MinusMinus {
        Operator::Minus
    } else {
        Operator::Plus
    };
    if pos + 1 < tokens.len() && (tokens[pos + 1].kind == TokenType::Name || tokens[pos
        + 1].kind == TokenType::Content) {
        let operand = var_lit(tokens[pos + 1].value.clone());
        let ghost ov = expr_view(operand);
        let u = UnaryExpr { operator: op, value: Box::new(operand) };
        let e = Expr::Unary(u);
        proof {
            assert(expr_view(e) == ExprV::Unary(op, Box::new(ov)));
            assert(wf_expr(e));
        }
        Ok((e, pos + 2))
    } else {
        Err(ParseError::MissingOperand)
    }
}


/// Parses a call at `pos`: comma-delimited arguments up to the matching
/// `)`. `print` and `length` keyword tokens fix the builtin kind.
#[verifier::spinoff_prover]
#[verifier::rlimit(100)]
pub fn parse_function(tokens: &Vec<Token>, pos: usize, name: String) -> (r: Result<
    (Expr, usize),
    ParseError,
>)
    ensures
        match r {
            Ok(p) => spec_parse_function(tokens_view(tokens@), pos as int, name@)
                == PStep::PDone(expr_view(p.0), p.1 as int) && wf_expr(p.0) && pos < p.1
                <= tokens@.len(),
            Err(e) => spec_parse_function(tokens_view(tokens@), pos as int, name@)
                == PStep::PFail::<ExprV>(e),
        },
    decreases tokens@.len() - pos, 0int,
{
    proof {
        lemma_tokens_view(tokens@);
    }
    if pos >= tokens.len() {
        return Err(ParseError::UnexpectedEof);
    }
    let kind = match tokens[pos].kind {
        TokenType::Print => FunctionType::Print,
        TokenType::Length => FunctionType::Length,
        _ => FunctionType::Defined,
    };
    let mut args: Vec<Expr> = Vec::new();
    proof {
        assert(exprs_view(args@) =~= Seq::<ExprV>::empty());
    }
    let s = match parse_any(tokens, pos + 1, &mut args, false) {
        Ok(s) => s,
        Err(e) => {
            return Err(e);
        },
    };
    proof {
        assert(advance(pos as int, s as int, tokens@.len() as int) == s as int);
    }
    if s < tokens.len() && tokens[s].kind == TokenType::ClosingBracket {
        let ghost av = exprs_view(args@);
        let ghost nv = name@;
        let e = Expr::Function(Function { kind, arguments: args, name });
        proof {
            assert(expr_view(e) == ExprV::Function(kind, av, nv));
            assert(wf_expr(e));
        }
        Ok((e, s + 1))
    } else {
        Err(ParseError::UnexpectedEof)
    }
}

/// Parses `[ … ]` at `pos`: an array literal of the element expressions
/// parsed up to the matching `]`.
#[verifier::spinoff_prover]
#[verifier::rlimit(100)]
pub fn parse_array(tokens: &Vec<Token>, pos: usize) -> (r: Result<(Expr, usize), ParseError>)
    ensures
        match r {
            Ok(p) => spec_parse_array(tokens_view(tokens@), pos as int) == PStep::PDone(
                expr_view(p.0),
                p.1 as int,
            ) && wf_expr(p.0) && pos < p.1 <= tokens@.len(),
            Err(e) => spec_parse_array(tokens_view(tokens@), pos as int) == PStep::PFail::<
                ExprV,
            >(e),
        },
    decreases tokens@.len() - pos, 0int,
{
    proof {
        lemma_tokens_view(tokens@);
    }
    if pos >= tokens.len() {
        return Err(ParseError::UnexpectedEof);
    }
    let mut elems: Vec<Expr> = Vec::new();
    proof {
        assert(exprs_view(elems@) =~= Seq::<ExprV>::empty());
    }
    let s = match parse_any(tokens, pos + 1, &mut elems, false) {
        Ok(s) => s,
        Err(e) => {
            return Err(e);
        },
    };
    proof {
        assert(advance(pos as int, s as int, tokens@.len() as int) == s as int);
    }
    if s < tokens.len() && tokens[s].kind == TokenType::ClosingSquareBracket {
        let ghost ev = exprs_view(elems@);
        let d = DataType {
            value: String::new(),
            kind: Literal::Array,
            store: DataStore { integer: None, boolean: None, array: Some(elems) },
        };
        proof {
            assert(wf_dt(d));
        }
        let ghost dv = dt_view(d);
        let e = Expr::Literal(d);
        proof {
            assert(dv == Val::Arr(ev));
            assert(expr_view(e) == ExprV::Literal(dv));
            assert(wf_expr(e));
        }
        Ok((e, s + 1))
    } else {
        Err(ParseError::UnexpectedEof)
    }
}

/// Collects a block header's conditions, skipping a parenthesis-wrapped
/// header's closing `)`.
#[verifier::spinoff_prover]
#[verifier::rlimit(100)]
fn parse_conds(tokens: &Vec<Token>, i: usize, conds: &mut Vec<Expr>) -> (r: Result<
    usize,
    ParseError,
>)
    requires
        wf_exprs(old(conds)@),
        i <= tokens@.len(),
    ensures
        match r {
            Ok(stop) => spec_parse_conds(
                tokens_view(tokens@),
                i as int,
                exprs_view(old(conds)@),
            ) == PStep::PDone(exprs_view(final(conds)@), stop as int) && wf_exprs(final(conds)@)
                && i <= stop <= tokens@.len(),
            Err(e) => spec_parse_conds(
                tokens_view(tokens@),
                i as int,
                exprs_view(old(conds)@),
            ) == PStep::PFail::<Seq<ExprV>>(e),
        },
    decreases tokens@.len() - i, 6int,
{
    proof {
        lemma_tokens_view(tokens@);
    }
    let s = match parse_any(tokens, i, conds, true) {
        Ok(s) => s,
        Err(e) => {
            return Err(e);
        },
    };
    proof {
        assert(advance(i as int - 1, s as int, tokens@.len() as int) == s as int);
    }
    if s < tokens.len() && tokens[s].kind == TokenType::ClosingBracket {
        parse_conds(tokens, s + 1, conds)
    } else {
        Ok(s)
    }
}

/// Parses a control block at `pos`. For `if`/`elseif`/`else`/`for`, the
/// tokens before `{` become the conditions — exactly one for
/// `if`/`elseif`, none for `else`, one or three for `for` — and the tokens
/// inside the braces become the body. `import` and `return` take the rest
/// of the statement as their body.
#[verifier::spinoff_prover]
#[verifier::rlimit(100)]
pub fn parse_block(tokens: &Vec<Token>, pos: usize) -> (r: Result<(Expr, usize), ParseError>)
    ensures
        match r {
            Ok(p) => spec_parse_block(tokens_view(tokens@), pos as int) == PStep::PDone(
                expr_view(p.0),
                p.1 as int,
            ) && wf_expr(p.0) && pos < p.1 <= tokens@.len(),
            Err(e) => spec_parse_block(tokens_view(tokens@), pos as int) == PStep::PFail::<
                ExprV,
            >(e),
        },
    decreases tokens@.len() - pos, 0int,
{
    proof {
        lemma_tokens_view(tokens@);
    }
    if pos >= tokens.len() {
        return Err(ParseError::UnexpectedEof);
    }
    let kind = match tokens[pos].kind {
        TokenType::If => BlockType::If,
        TokenType::Else => BlockType::Else,
        TokenType::ElseIf => BlockType::ElseIf,
        TokenType::For => BlockType::For,
        TokenType::Import => BlockType::Import,
        _ => BlockType::Return,
    };
    let open_body = match kind {
        BlockType::Import | BlockType::Return => true,
        _ => false,
    };
    if open_body {
        let mut body: Vec<Expr> = Vec::new();
        proof {
            assert(exprs_view(body@) =~= Seq::<ExprV>::empty());
        }
        let s = match parse_any(tokens, pos + 1, &mut body, false) {
            Ok(s) => s,
            Err(e) => {
                return Err(e);
            },
        };
        proof {
            assert(advance(pos as int, s as int, tokens@.len() as int) == s as int);
        }
        let ghost bv = exprs_view(body@);
        let e = Expr::Block(Block { kind, conditions: Vec::new(), block: body });
        proof {
            assert(exprs_view(Seq::<Expr>::empty()) =~= Seq::<ExprV>::empty());
            assert(expr_view(e) == ExprV::Block(kind, Seq::empty(), bv));
            assert(wf_exprs(Seq::<Expr>::empty()));
            assert(wf_expr(e));
        }
        return Ok((e, s));
    }
    let mut conds: Vec<Expr> = Vec::new();
    proof {
        assert(exprs_view(conds@) =~= Seq::<ExprV>::empty());
    }
    let s = match parse_conds(tokens, pos + 1, &mut conds) {
        Ok(s) => s,
        Err(e) => {
            return Err(e);
        },
    };
    proof {
        assert(advance(pos as int, s as int, tokens@.len() as int) == s as int);
        lemma_exprs_view(conds@);
    }
    if !(s < tokens.len() && tokens[s].kind == TokenType::OpeningBrace) {
        return Err(ParseError::UnexpectedEof);
    }
    let shape_ok = match kind {
        BlockType::If | BlockType::ElseIf => conds.len() == 1,
        BlockType::Else => conds.len() == 0,
        _ => conds.len() == 1 || conds.len() == 3,
    };
    if !shape_ok {
        return Err(ParseError::BadConditionCount);
    }
    let mut body: Vec<Expr> = Vec::new();
    proof {
        assert(exprs_view(body@) =~= Seq::<ExprV>::empty());
    }
    let s2 = match parse_any(tokens, s + 1, &mut body, false) {
        Ok(s2) => s2,
        Err(e) => {
            return Err(e);
        },
    };
    proof {
        assert(advance(s as int, s2 as int, tokens@.len() as int) == s2 as int);
    }
    if s2 < tokens.len() && tokens[s2].kind == TokenType::ClosingBrace {
        let ghost cv = exprs_view(conds@);
        let ghost bv = exprs_view(body@);
        let e = Expr::Block(Block { kind, conditions: conds, block: body });
        proof {
            assert(expr_view(e) == ExprV::Block(kind, cv, bv));
            assert(wf_expr(e));
        }
        Ok((e, s2 + 1))
    } else {
        Err(ParseError::UnexpectedEof)
    }
}

/// Collects parameter names up to the closing `)` of a definition header.
#[verifier::spinoff_prover]
#[verifier::rlimit(100)]
fn def_params(tokens: &Vec<Token>, i: usize, acc: Vec<String>) -> (r: Result<
    (Vec<String>, usize),
    ParseError,
>)
    ensures
        match r {
            Ok(p) => spec_def_params(tokens_view(tokens@), i as int, strs_view(acc@))
                == PStep::PDone(strs_view(p.0@), p.1 as int) && i < p.1 <= tokens@.len(),
            Err(e) => spec_def_params(tokens_view(tokens@), i as int, strs_view(acc@))
                == PStep::PFail::<Seq<Seq<char>>>(e),
        },
    decreases tokens@.len() - i, 0int,
{
    proof {
        lemma_tokens_view(tokens@);
    }
    if i >= tokens.len() {
        return Err(ParseError::UnexpectedEof);
    }
    if tokens[i].kind == TokenType::ClosingBracket {
        return Ok((acc, i + 1));
    }
    if tokens[i].kind == TokenType::Name || tokens[i].kind == TokenType::Content {
        let mut acc = acc;
        let ghost pre = acc@;
        acc.push(tokens[i].value.clone());
        proof {
            assert(acc@.drop_last() =~= pre);
            assert(acc@.last() == acc@[acc@.len() - 1]);
            assert(strs_view(acc@) == strs_view(pre).push(acc@[acc@.len() - 1]@));
        }
        def_params(tokens, i + 1, acc)
    } else {
        def_params(tokens, i + 1, acc)
    }
}

/// Parses `fn name(params) { body }` at `pos`: a definition with the bare
/// parameter names in order and the brace-delimited body.
#[verifier::spinoff_prover]
#[verifier::rlimit(100)]
pub fn parse_definition(tokens: &Vec<Token>, pos: usize) -> (r: Result<
    (Expr, usize),
    ParseError,
>)
    ensures
        match r {
            Ok(p) => spec_parse_definition(tokens_view(tokens@), pos as int) == PStep::PDone(
                expr_view(p.0),
                p.1 as int,
            ) && wf_expr(p.0) && pos < p.1 <= tokens@.len(),
            Err(e) => spec_parse_definition(tokens_view(tokens@), pos as int) == PStep::PFail::<
                ExprV,
            >(e),
        },
    decreases tokens@.len() - pos, 1int,
{
    proof {
        lemma_tokens_view(tokens@);
    }
    if pos >= tokens.len() {
        return Err(ParseError::UnexpectedEof);
    }
    if !(tokens[pos].kind == TokenType::Name || tokens[pos].kind == TokenType::Content) {
        return Err(ParseError::MissingOperand);
    }
    let empty_params: Vec<String> = Vec::new();
    proof {
        assert(strs_view(empty_params@) =~= Seq::<Seq<char>>::empty());
    }
    let (params, s) = match def_params(tokens, pos + 1, empty_params) {
        Ok(p) => p,
        Err(e) => {
            return Err(e);
        },
    };
    proof {
        assert(advance(pos as int, s as int, tokens@.len() as int) == s as int);
    }
    let mut body: Vec<Expr> = Vec::new();
    proof {
        assert(exprs_view(body@) =~= Seq::<ExprV>::empty());
    }
    let s2 = match parse_any(tokens, s, &mut body, false) {
        Ok(s2) => s2,
        Err(e) => {
            return Err(e);
        },
    };
    proof {
        assert(advance(s as int - 1, s2 as int, tokens@.len() as int) == s2 as int);
    }
    if s2 < tokens.len() && tokens[s2].kind == TokenType::ClosingBrace {
        let ghost pv = strs_view(params@);
        let ghost bv = exprs_view(body@);
        let d = Definition { name: tokens[pos].value.clone(), arguments: params, block: body };
        let e = Expr::Definition(d);
        proof {
            assert(def_view(d) == DefV { name: tokens@[pos as int].value@, params: pv, block: bv });
            assert(expr_view(e) == ExprV::Definition(def_view(d)));
            assert(wf_expr(e));
        }
        Ok((e, s2 + 1))
    } else {
        Err(ParseError::UnexpectedEof)
    }
}


/// Parses a token run from `pos`, one recognised construct per statement,
/// appending each to `tree`. The run stops at its destination's
/// terminator: a closing brace or bracket, or — when collecting a block
/// header's conditions — the opening brace.
#[verifier::spinoff_prover]
#[verifier::rlimit(100)]
pub fn parse_any(tokens: &Vec<Token>, pos: usize, tree: &mut Vec<Expr>, conditions: bool) -> (r:
    Result<usize, ParseError>)
    requires
        wf_exprs(old(tree)@),
        pos <= tokens@.len(),
    ensures
        match r {
            Ok(stop) => spec_parse_any(
                tokens_view(tokens@),
                pos as int,
                exprs_view(old(tree)@),
                conditions,
            ) == PStep::PDone(exprs_view(final(tree)@), stop as int) && wf_exprs(final(tree)@)
                && pos <= stop <= tokens@.len(),
            Err(e) => spec_parse_any(
                tokens_view(tokens@),
                pos as int,
                exprs_view(old(tree)@),
                conditions,
            ) == PStep::PFail::<Seq<ExprV>>(e),
        },
    decreases tokens@.len() - pos, 5int,
{
    proof {
        lemma_tokens_view(tokens@);
        lemma_exprs_view(tree@);
    }
    if pos >= tokens.len() {
        return Ok(pos);
    }
    let len = tokens.len();
    match tokens[pos].kind {
        TokenType::OpeningBrace => {
            if conditions {
                Ok(pos)
            } else {
                parse_any(tokens, pos + 1, tree, conditions)
            }
        },
        TokenType::ClosingBrace | TokenType::ClosingBracket
            | TokenType::ClosingSquareBracket => Ok(pos),
        TokenType::SingleQuote | TokenType::DoubleQuote => {
            let (e, s) = match parse_string(tokens, pos) {
                Ok(p) => p,
                Err(e0) => {
                    return Err(e0);
                },
            };
            let ghost pre = tree@;
            tree.push(e);
            proof {
                lemma_exprs_view_push(pre, tree@[tree@.len() - 1]);
                assert(tree@.drop_last() =~= pre);
                lemma_wf_exprs_push(pre, tree@[tree@.len() - 1]);
                assert(tree@ =~= pre.push(tree@[tree@.len() - 1]));
            }
            proof {
                assert(advance(pos as int, s as int, tokens@.len() as int) == s as int);
            }
            parse_any(tokens, s, tree, conditions)
        },
        TokenType::CommandQuote | TokenType::FormattedQuote => {
            let (e, s) = match parse_fstring(tokens, pos) {
                Ok(p) => p,
                Err(e0) => {
                    return Err(e0);
                },
            };
            let ghost pre = tree@;
            tree.push(e);
            proof {
                lemma_exprs_view_push(pre, tree@[tree@.len() - 1]);
                assert(tree@.drop_last() =~= pre);
                lemma_wf_exprs_push(pre, tree@[tree@.len() - 1]);
                assert(tree@ =~= pre.push(tree@[tree@.len() - 1]));
            }
            proof {
                assert(advance(pos as int, s as int, tokens@.len() as int) == s as int);
            }
            parse_any(tokens, s, tree, conditions)
        },
        TokenType::Name | TokenType::Content => {
            let (e, s) = match parse_variable(tokens, pos + 1, tokens[pos].value.clone()) {
                Ok(p) => p,
                Err(e0) => {
                    return Err(e0);
                },
            };
            let ghost pre = tree@;
            tree.push(e);
            proof {
                lemma_exprs_view_push(pre, tree@[tree@.len() - 1]);
                assert(tree@.drop_last() =~= pre);
                lemma_wf_exprs_push(pre, tree@[tree@.len() - 1]);
                assert(tree@ =~= pre.push(tree@[tree@.len() - 1]));
            }
            proof {
                assert(advance(pos as int, s as int, tokens@.len() as int) == s as int);
            }
            parse_any(tokens, s, tree, conditions)
        },
        TokenType::OpeningSquareBracket => {
            let (e, s) = match parse_array(tokens, pos) {
                Ok(p) => p,
                Err(e0) => {
                    return Err(e0);
                },
            };
            let ghost pre = tree@;
            tree.push(e);
            proof {
                lemma_exprs_view_push(pre, tree@[tree@.len() - 1]);
                assert(tree@.drop_last() =~= pre);
                lemma_wf_exprs_push(pre, tree@[tree@.len() - 1]);
                assert(tree@ =~= pre.push(tree@[tree@.len() - 1]));
            }
            proof {
                assert(advance(pos as int, s as int, tokens@.len() as int) == s as int);
            }
            parse_any(tokens, s, tree, conditions)
        },
        TokenType::If | TokenType::ElseIf | TokenType::Else | TokenType::For | TokenType::Import
            | TokenType::Return => {
            let (e, s) = match parse_block(tokens, pos) {
                Ok(p) => p,
                Err(e0) => {
                    return Err(e0);
                },
            };
            let ghost pre = tree@;
            tree.push(e);
            proof {
                lemma_exprs_view_push(pre, tree@[tree@.len() - 1]);
                assert(tree@.drop_last() =~= pre);
                lemma_wf_exprs_push(pre, tree@[tree@.len() - 1]);
                assert(tree@ =~= pre.push(tree@[tree@.len() - 1]));
            }
            proof {
                assert(advance(pos as int, s as int, tokens@.len() as int) == s as int);
            }
            parse_any(tokens, s, tree, conditions)
        },
        TokenType::PlusPlus | TokenType::MinusMinus => {
            let (e, s) = match parse_un(tokens, pos) {
                Ok(p) => p,
                Err(e0) => {
                    return Err(e0);
                },
            };
            let ghost pre = tree@;
            tree.push(e);
            proof {
                lemma_exprs_view_push(pre, tree@[tree@.len() - 1]);
                assert(tree@.drop_last() =~= pre);
                lemma_wf_exprs_push(pre, tree@[tree@.len() - 1]);
                assert(tree@ =~= pre.push(tree@[tree@.len() - 1]));
            }
            proof {
                assert(advance(pos as int, s as int, tokens@.len() as int) == s as int);
            }
            parse_any(tokens, s, tree, conditions)
        },
        TokenType::And | TokenType::Or => {
            if tree.len() == 0 {
                return Err(ParseError::MissingOperand);
            }
            let left = tree[tree.len() - 1].clone();
            proof {
                assert(exprs_view(tree@).last() == expr_view(tree@[tree@.len() - 1]));
            }
            let (e, s) = match and_or(tokens, pos, left) {
                Ok(p) => p,
                Err(e0) => {
                    return Err(e0);
                },
            };
            let ghost pre = tree@;
            tree.push(e);
            proof {
                lemma_exprs_view_push(pre, tree@[tree@.len() - 1]);
                assert(tree@.drop_last() =~= pre);
                lemma_wf_exprs_push(pre, tree@[tree@.len() - 1]);
                assert(tree@ =~= pre.push(tree@[tree@.len() - 1]));
            }
            proof {
                assert(advance(pos as int, s as int, tokens@.len() as int) == s as int);
            }
            parse_any(tokens, s, tree, conditions)
        },
        TokenType::Equals | TokenType::EqualTo | TokenType::LesserThan | TokenType::GreaterThan
            | TokenType::EqualGreater | TokenType::EqualLesser | TokenType::Plus
            | TokenType::Minus | TokenType::Times | TokenType::Divide | TokenType::Not
            | TokenType::NotEqual => {
            if tree.len() == 0 {
                return Err(ParseError::MissingOperand);
            }
            let left = tree[tree.len() - 1].clone();
            proof {
                assert(exprs_view(tree@).last() == expr_view(tree@[tree@.len() - 1]));
            }
            let (e, s) = match parse_bin(tokens, pos, left) {
                Ok(p) => p,
                Err(e0) => {
                    return Err(e0);
                },
            };
            let ghost pre = tree@;
            tree.push(e);
            proof {
                lemma_exprs_view_push(pre, tree@[tree@.len() - 1]);
                assert(tree@.drop_last() =~= pre);
                lemma_wf_exprs_push(pre, tree@[tree@.len() - 1]);
                assert(tree@ =~= pre.push(tree@[tree@.len() - 1]));
            }
            proof {
                assert(advance(pos as int, s as int, tokens@.len() as int) == s as int);
            }
            parse_any(tokens, s, tree, conditions)
        },
        TokenType::Number => match crate::runtime::values::string_to_int(
            tokens[pos].value.as_str(),
        ) {
            Some(v) => {
                let d = DataType {
                    value: String::new(),
                    kind: Literal::Int,
                    store: DataStore::new(Some(v), None),
                };
                proof {
                    assert(wf_dt(d));
                    assert(dt_view(d) == Val::Int(v as int));
                }
                let ghost pre = tree@;
                tree.push(Expr::Literal(d));
            proof {
                lemma_exprs_view_push(pre, tree@[tree@.len() - 1]);
                assert(tree@.drop_last() =~= pre);
                lemma_wf_exprs_push(pre, tree@[tree@.len() - 1]);
                assert(tree@ =~= pre.push(tree@[tree@.len() - 1]));
            }
                parse_any(tokens, pos + 1, tree, conditions)
            },
            None => Err(ParseError::BadNumber),
        },
        TokenType::Bool => {
            if text_is(&tokens[pos].value, "true") {
                let d = DataType {
                    value: String::new(),
                    kind: Literal::Bool,
                    store: DataStore::new(None, Some(true)),
                };
                proof {
                    assert(wf_dt(d));
                    assert(dt_view(d) == Val::Bool(true));
                }
                let ghost pre = tree@;
                tree.push(Expr::Literal(d));
            proof {
                lemma_exprs_view_push(pre, tree@[tree@.len() - 1]);
                assert(tree@.drop_last() =~= pre);
                lemma_wf_exprs_push(pre, tree@[tree@.len() - 1]);
                assert(tree@ =~= pre.push(tree@[tree@.len() - 1]));
            }
                parse_any(tokens, pos + 1, tree, conditions)
            } else if text_is(&tokens[pos].value, "false") {
                let d = DataType {
                    value: String::new(),
                    kind: Literal::Bool,
                    store: DataStore::new(None, Some(false)),
                };
                proof {
                    assert(wf_dt(d));
                    assert(dt_view(d) == Val::Bool(false));
                }
                let ghost pre = tree@;
                tree.push(Expr::Literal(d));
            proof {
                lemma_exprs_view_push(pre, tree@[tree@.len() - 1]);
                assert(tree@.drop_last() =~= pre);
                lemma_wf_exprs_push(pre, tree@[tree@.len() - 1]);
                assert(tree@ =~= pre.push(tree@[tree@.len() - 1]));
            }
                parse_any(tokens, pos + 1, tree, conditions)
            } else {
                Err(ParseError::BadBoolean)
            }
        },
        TokenType::Print | TokenType::Length => {
            let (e, s) = match parse_function(tokens, pos, tokens[pos].value.clone()) {
                Ok(p) => p,
                Err(e0) => {
                    return Err(e0);
                },
            };
            let ghost pre = tree@;
            tree.push(e);
            proof {
                lemma_exprs_view_push(pre, tree@[tree@.len() - 1]);
                assert(tree@.drop_last() =~= pre);
                lemma_wf_exprs_push(pre, tree@[tree@.len() - 1]);
                assert(tree@ =~= pre.push(tree@[tree@.len() - 1]));
            }
            proof {
                assert(advance(pos as int, s as int, tokens@.len() as int) == s as int);
            }
            parse_any(tokens, s, tree, conditions)
        },
        TokenType::Function => {
            let (e, s) = match parse_definition(tokens, pos + 1) {
                Ok(p) => p,
                Err(e0) => {
                    return Err(e0);
                },
            };
            let ghost pre = tree@;
            tree.push(e);
            proof {
                lemma_exprs_view_push(pre, tree@[tree@.len() - 1]);
                assert(tree@.drop_last() =~= pre);
                lemma_wf_exprs_push(pre, tree@[tree@.len() - 1]);
                assert(tree@ =~= pre.push(tree@[tree@.len() - 1]));
            }
            proof {
                assert(advance(pos as int, s as int, tokens@.len() as int) == s as int);
            }
            parse_any(tokens, s, tree, conditions)
        },
        _ => parse_any(tokens, pos + 1, tree, conditions),
    }
}

/// Parses the stream from `pos`, skipping stray terminators between
/// statement runs.
#[verifier::spinoff_prover]
#[verifier::rlimit(100)]
fn parse_go(tokens: &Vec<Token>, pos: usize, tree: &mut Vec<Expr>) -> (r: Result<
    (),
    ParseError,
>)
    requires
        wf_exprs(old(tree)@),
        pos <= tokens@.len(),
    ensures
        match r {
            Ok(u) => spec_parse(tokens_view(tokens@), pos as int, exprs_view(old(tree)@))
                matches PStep::PDone(es, s) && es == exprs_view(final(tree)@) && wf_exprs(
                final(tree)@,
            ),
            Err(e) => spec_parse(tokens_view(tokens@), pos as int, exprs_view(old(tree)@))
                == PStep::PFail::<Seq<ExprV>>(e),
        },
    decreases tokens@.len() - pos, 6int,
{
    proof {
        lemma_tokens_view(tokens@);
    }
    if pos >= tokens.len() {
        return Ok(());
    }
    let ghost acc0 = exprs_view(tree@);
    let s = match parse_any(tokens, pos, tree, false) {
        Ok(s) => s,
        Err(e) => {
            return Err(e);
        },
    };
    let total = tokens.len();
    let nxt = if s >= total {
        total
    } else {
        s + 1
    };
    proof {
        assert(spec_parse(tokens_view(tokens@), pos as int, acc0) == spec_parse(
            tokens_view(tokens@),
            nxt as int,
            exprs_view(tree@),
        ));
    }
    parse_go(tokens, nxt, tree)
}

/// Parses a whole token stream into the ordered statement list, consuming
/// the entire stream or failing with a parse error.
#[verifier::spinoff_prover]
#[verifier::rlimit(100)]
pub fn parse(tokens: &Vec<Token>) -> (r: Result<Vec<Expr>, ParseError>)
    ensures
        match r {
            Ok(tree) => spec_parse(tokens_view(tokens@), 0, Seq::empty()) matches PStep::PDone(
                es,
                s,
            ) && es == exprs_view(tree@) && wf_exprs(tree@),
            Err(e) => spec_parse(tokens_view(tokens@), 0, Seq::empty()) == PStep::PFail::<
                Seq<ExprV>,
            >(e),
        },
    decreases tokens@.len(), 7int,
{
    proof {
        lemma_tokens_view(tokens@);
    }
    let mut tree: Vec<Expr> = Vec::new();
    proof {
        assert(exprs_view(tree@) =~= Seq::<ExprV>::empty());
    }
    match parse_go(tokens, 0, &mut tree) {
        Ok(u) => Ok(tree),
        Err(e) => Err(e),
    }
}

} // verus!
