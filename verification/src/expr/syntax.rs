//! An expression body read as JavaScript syntax.
//!
//! oxc parses the body, and the parse is turned, node for node, into the
//! small tree below: the statement and expression forms the reference walk
//! and the branch pass look into, and an opaque leaf for every other form.
//! Offsets in the tree are the parser's, in bytes; the passes turn them into
//! the character spans the rest of the library works in.

use vstd::prelude::*;
use oxc_ast::ast::{ArrayExpressionElement, Argument, Expression, ForStatementInit, Statement, VariableDeclarator};
use oxc_span::GetSpan;
use crate::expr::resolve::{
    arrays_view, elems_view, finished, lemma_named_at, mentions_word, named_at, names_unique, tables, word_matches, Branch, Gather,
    Out, Ref, RefV, Span,
};
use crate::text::{chars_of, slice_chars, str_eq, string_of};

verus! {

// ---------------------------------------------------------------------------
// The syntax tree
// ---------------------------------------------------------------------------

/// A range of a body as the parser reports it: byte offsets `start..end`.
#[derive(Clone, Copy, PartialEq, Eq, Structural, Debug)]
pub struct Bytes {
    pub start: u32,
    pub end: u32,
}

/// An expression, with where it stands.
pub enum JsExpr {
    /// A name: `x`.
    Ident { name: String, at: Bytes },
    /// A string literal, with its value (escapes decoded).
    Str { at: Bytes, value: String },
    /// A numeric literal: its value when that is a whole number from zero up
    /// (saturating at `u32::MAX`), `None` otherwise.
    Num { at: Bytes, value: Option<u32> },
    /// `null`.
    Null { at: Bytes },
    /// A call `callee(args…)`; a spread argument is an `Absent` one.
    Call { callee: Box<JsExpr>, args: Vec<JsExpr>, at: Bytes },
    /// `object.prop`.
    Member { object: Box<JsExpr>, prop: String, at: Bytes },
    /// `object[index]`.
    Index { object: Box<JsExpr>, index: Box<JsExpr>, at: Bytes },
    /// An array literal; a hole or a spread is an `Absent` element.
    Array { elems: Vec<JsExpr>, at: Bytes },
    /// `(inner)`.
    Paren { inner: Box<JsExpr>, at: Bytes },
    /// `target = value` (or a compound assignment): the target's name when it
    /// is a plain identifier, and the value assigned.
    Assign { target: Option<String>, value: Box<JsExpr>, at: Bytes },
    /// Any other operator form — a sequence, a binary, logical, conditional or
    /// unary operator — with the expressions it applies to, in source order.
    Op { parts: Vec<JsExpr>, at: Bytes },
    /// Any other form.
    Opaque { at: Bytes },
    /// What stands where an expression might but is not one: a spread
    /// argument or element, or a hole in an array literal.
    Absent { at: Bytes },
}

/// One declarator of a `var`/`let`/`const`.
pub struct JsDecl {
    /// The bound name, when the binding is a plain identifier.
    pub name: Option<String>,
    pub init: Option<JsExpr>,
}

/// What stands before the first `;` of a `for (…;…;…)`.
pub enum JsForInit {
    Var(Vec<JsDecl>),
    Expr(JsExpr),
}

/// A statement and where it stands.
pub struct JsStmt {
    pub at: Bytes,
    pub kind: JsStmtKind,
}

pub enum JsStmtKind {
    Expr(JsExpr),
    Var(Vec<JsDecl>),
    Block(Vec<JsStmt>),
    If { test: JsExpr, test_at: Bytes, then: Box<JsStmt>, other: Option<Box<JsStmt>> },
    For { init: Option<JsForInit>, test: Option<JsExpr>, update: Option<JsExpr>, body: Box<JsStmt> },
    While { test: JsExpr, body: Box<JsStmt> },
    Return(Option<JsExpr>),
    /// `try { block } catch { handler } finally { finalizer }`.
    Try { block: Vec<JsStmt>, handler: Option<Vec<JsStmt>>, finalizer: Option<Vec<JsStmt>> },
    /// Any other statement.
    Other,
}

// ---------------------------------------------------------------------------
// The parse
// ---------------------------------------------------------------------------

/// What oxc makes of `body` read as a classic script: its statements, or
/// `None` when it does not parse.
pub uninterp spec fn js_syntax(body: Seq<char>) -> Option<Seq<JsStmt>>;

/// oxc's `Statement`, carried opaquely through the conversion below.
#[verifier::external_type_specification]
#[verifier::external_body]
pub struct ExStatement<'a>(Statement<'a>);

/// oxc's `Expression`, carried opaquely through the conversion below.
#[verifier::external_type_specification]
#[verifier::external_body]
pub struct ExExpression<'a>(Expression<'a>);

/// oxc's `Argument`, carried opaquely through the conversion below.
#[verifier::external_type_specification]
#[verifier::external_body]
pub struct ExArgument<'a>(Argument<'a>);

/// oxc's `ArrayExpressionElement`, carried opaquely through the conversion below.
#[verifier::external_type_specification]
#[verifier::external_body]
pub struct ExArrayExpressionElement<'a>(ArrayExpressionElement<'a>);

/// oxc's `VariableDeclarator`, carried opaquely through the conversion below.
#[verifier::external_type_specification]
#[verifier::external_body]
pub struct ExVariableDeclarator<'a>(VariableDeclarator<'a>);

/// oxc's `ForStatementInit`, carried opaquely through the conversion below.
#[verifier::external_type_specification]
#[verifier::external_body]
pub struct ExForStatementInit<'a>(ForStatementInit<'a>);

/// Parse `body` as a classic script with oxc (`oxc_parser::Parser::parse`)
/// and convert the program's statements into the tree above. `None` when the
/// parser panics or reports an error.
///
/// Claimed of oxc: the outcome is a fixed function of the text, named
/// [`js_syntax`]; nothing more is stated about it.
#[verifier::external_body]
pub fn parse_js(body: &str) -> (r: Option<Vec<JsStmt>>)
    ensures
        match r {
            Some(p) => js_syntax(body@) == Some(p@),
            None => js_syntax(body@) is None,
        },
{
    let allocator = oxc_allocator::Allocator::default();
    let parsed = oxc_parser::Parser::new(&allocator, body, oxc_span::SourceType::cjs()).parse();
    if parsed.panicked || parsed.diagnostics.has_errors() {
        return None;
    }
    Some(stmts_of(&parsed.program.body))
}

/// Part of [`parse_js`]: oxc statements, each converted in order.
#[verifier::external_body]
fn stmts_of<'a>(list: &[Statement<'a>]) -> Vec<JsStmt> {
    list.iter().map(stmt_of).collect()
}

/// Part of [`parse_js`]: an oxc `Statement` and its span; expression
/// statements, blocks and `if`s here, the other forms below.
#[verifier::external_body]
fn stmt_of<'a>(s: &Statement<'a>) -> JsStmt {
    let kind = match s {
        Statement::ExpressionStatement(x) => JsStmtKind::Expr(expr_of(&x.expression)),
        Statement::BlockStatement(b) => JsStmtKind::Block(stmts_of(&b.body)),
        Statement::IfStatement(i) => JsStmtKind::If {
            test: expr_of(&i.test),
            test_at: Bytes { start: i.test.span().start, end: i.test.span().end },
            then: Box::new(stmt_of(&i.consequent)),
            other: i.alternate.as_ref().map(|a| Box::new(stmt_of(a))),
        },
        _ => loop_of(s),
    };
    JsStmt { at: Bytes { start: s.span().start, end: s.span().end }, kind }
}

/// Part of [`parse_js`]: `var` declarations, `for` and `while`.
#[verifier::external_body]
fn loop_of<'a>(s: &Statement<'a>) -> JsStmtKind {
    match s {
        Statement::VariableDeclaration(d) => JsStmtKind::Var(d.declarations.iter().map(decl_of).collect()),
        Statement::ForStatement(f) => JsStmtKind::For {
            init: f.init.as_ref().map(init_of),
            test: f.test.as_ref().map(expr_of),
            update: f.update.as_ref().map(expr_of),
            body: Box::new(stmt_of(&f.body)),
        },
        Statement::WhileStatement(w) => JsStmtKind::While { test: expr_of(&w.test), body: Box::new(stmt_of(&w.body)) },
        _ => exit_of(s),
    }
}

/// Part of [`parse_js`]: `return` and `try`; any other statement is `Other`.
#[verifier::external_body]
fn exit_of<'a>(s: &Statement<'a>) -> JsStmtKind {
    match s {
        Statement::ReturnStatement(r) => JsStmtKind::Return(r.argument.as_ref().map(expr_of)),
        Statement::TryStatement(t) => JsStmtKind::Try {
            block: stmts_of(&t.block.body),
            handler: t.handler.as_ref().map(|h| stmts_of(&h.body.body)),
            finalizer: t.finalizer.as_ref().map(|f| stmts_of(&f.body)),
        },
        _ => JsStmtKind::Other,
    }
}

/// Part of [`parse_js`]: what stands before the first `;` of a `for`.
#[verifier::external_body]
fn init_of<'a>(i: &ForStatementInit<'a>) -> JsForInit {
    match i {
        ForStatementInit::VariableDeclaration(d) => JsForInit::Var(d.declarations.iter().map(decl_of).collect()),
        _ => JsForInit::Expr(i.as_expression().map_or(JsExpr::Opaque { at: Bytes { start: 0, end: 0 } }, expr_of)),
    }
}

/// Part of [`parse_js`]: a declarator, its name when its binding is a
/// plain identifier, and its initializer.
#[verifier::external_body]
fn decl_of<'a>(d: &VariableDeclarator<'a>) -> JsDecl {
    JsDecl { name: d.id.get_binding_identifier().map(|i| i.name.to_string()), init: d.init.as_ref().map(expr_of) }
}

/// Part of [`parse_js`]: an oxc `Expression` and its span; names, string
/// literals, calls and static members here, the other forms below.
#[verifier::external_body]
fn expr_of<'a>(e: &Expression<'a>) -> JsExpr {
    let at = Bytes { start: e.span().start, end: e.span().end };
    match e {
        Expression::Identifier(i) => JsExpr::Ident { name: i.name.to_string(), at },
        Expression::StringLiteral(s) => JsExpr::Str { at, value: s.value.to_string() },
        Expression::CallExpression(c) => {
            JsExpr::Call { callee: Box::new(expr_of(&c.callee)), args: c.arguments.iter().map(arg_of).collect(), at }
        },
        Expression::StaticMemberExpression(m) => {
            JsExpr::Member { object: Box::new(expr_of(&m.object)), prop: m.property.name.to_string(), at }
        },
        _ => access_of(e, at),
    }
}

/// Part of [`parse_js`]: computed members, array literals, parentheses and
/// assignments.
#[verifier::external_body]
fn access_of<'a>(e: &Expression<'a>, at: Bytes) -> JsExpr {
    match e {
        Expression::ComputedMemberExpression(m) => {
            JsExpr::Index { object: Box::new(expr_of(&m.object)), index: Box::new(expr_of(&m.expression)), at }
        },
        Expression::ArrayExpression(a) => JsExpr::Array { elems: a.elements.iter().map(elem_of).collect(), at },
        Expression::ParenthesizedExpression(p) => JsExpr::Paren { inner: Box::new(expr_of(&p.expression)), at },
        Expression::AssignmentExpression(a) => JsExpr::Assign {
            target: a.left.get_identifier_name().map(|n| n.to_string()),
            value: Box::new(expr_of(&a.right)),
            at,
        },
        _ => op_of(e, at),
    }
}

/// Part of [`parse_js`]: sequences, binary, logical and unary operators.
#[verifier::external_body]
fn op_of<'a>(e: &Expression<'a>, at: Bytes) -> JsExpr {
    match e {
        Expression::SequenceExpression(q) => JsExpr::Op { parts: q.expressions.iter().map(expr_of).collect(), at },
        Expression::BinaryExpression(b) => JsExpr::Op { parts: vec![expr_of(&b.left), expr_of(&b.right)], at },
        Expression::LogicalExpression(l) => JsExpr::Op { parts: vec![expr_of(&l.left), expr_of(&l.right)], at },
        Expression::UnaryExpression(u) => JsExpr::Op { parts: vec![expr_of(&u.argument)], at },
        _ => leaf_of(e, at),
    }
}

/// Part of [`parse_js`]: conditionals, numeric literals (a whole value from
/// zero up becomes `u32`, saturating, as a cast does), `null`; any other
/// expression is `Opaque`.
#[verifier::external_body]
fn leaf_of<'a>(e: &Expression<'a>, at: Bytes) -> JsExpr {
    match e {
        Expression::ConditionalExpression(c) => {
            JsExpr::Op { parts: vec![expr_of(&c.test), expr_of(&c.consequent), expr_of(&c.alternate)], at }
        },
        Expression::NumericLiteral(n) => JsExpr::Num {
            at,
            value: (n.value.is_finite() && !n.value.is_sign_negative() && n.value.trunc() == n.value).then_some(n.value as u32),
        },
        Expression::NullLiteral(_) => JsExpr::Null { at },
        _ => JsExpr::Opaque { at },
    }
}

/// Part of [`parse_js`]: a call argument; a spread is `Absent`.
#[verifier::external_body]
fn arg_of<'a>(a: &Argument<'a>) -> JsExpr {
    match a.as_expression() {
        Some(x) => expr_of(x),
        None => JsExpr::Absent { at: Bytes { start: a.span().start, end: a.span().end } },
    }
}

/// Part of [`parse_js`]: an array element; a hole or a spread is `Absent`.
#[verifier::external_body]
fn elem_of<'a>(a: &ArrayExpressionElement<'a>) -> JsExpr {
    match a.as_expression() {
        Some(x) => expr_of(x),
        None => JsExpr::Absent { at: Bytes { start: a.span().start, end: a.span().end } },
    }
}

// ---------------------------------------------------------------------------
// Byte offsets to character offsets
// ---------------------------------------------------------------------------

/// How many bytes UTF-8 spends on `c`.
pub open spec fn utf8_width(c: char) -> int {
    if (c as u32) < 0x80 {
        1
    } else if (c as u32) < 0x800 {
        2
    } else if (c as u32) < 0x10000 {
        3
    } else {
        4
    }
}

/// How many characters of `s` begin before byte `byte` of its UTF-8 form.
pub open spec fn char_at(s: Seq<char>, byte: int) -> int
    decreases s.len(),
{
    if s.len() == 0 || byte <= 0 {
        0
    } else {
        1 + char_at(s.drop_first(), byte - utf8_width(s[0]))
    }
}

/// How many bytes UTF-8 spends on `s`.
pub open spec fn utf8_len(s: Seq<char>) -> int
    decreases s.len(),
{
    if s.len() == 0 {
        0
    } else {
        utf8_len(s.drop_last()) + utf8_width(s.last())
    }
}

pub proof fn lemma_utf8_len_nonneg(s: Seq<char>)
    ensures
        0 <= utf8_len(s),
    decreases s.len(),
{
    if s.len() > 0 {
        lemma_utf8_len_nonneg(s.drop_last());
    }
}

/// The byte at which character `i` of `s` begins in its UTF-8 form.
pub fn byte_offset(s: &[char], i: usize) -> (r: u128)
    requires
        i <= s@.len(),
    ensures
        r == utf8_len(s@.subrange(0, i as int)),
{
    let mut n: u128 = 0;
    let mut k: usize = 0;
    assert(s@.subrange(0, 0).len() == 0);
    while k < i
        invariant
            k <= i <= s@.len(),
            n == utf8_len(s@.subrange(0, k as int)),
            n <= 4 * k,
        decreases i - k,
    {
        let c = s[k] as u32;
        let w: u128 = if c < 0x80 {
            1
        } else if c < 0x800 {
            2
        } else if c < 0x10000 {
            3
        } else {
            4
        };
        assert(s@.subrange(0, k + 1).drop_last() =~= s@.subrange(0, k as int));
        assert(s@.subrange(0, k + 1).last() == s@[k as int]);
        n = n + w;
        k = k + 1;
    }
    n
}

pub proof fn lemma_char_at_bound(s: Seq<char>, byte: int)
    ensures
        0 <= char_at(s, byte) <= s.len(),
    decreases s.len(),
{
    if s.len() > 0 && byte > 0 {
        lemma_char_at_bound(s.drop_first(), byte - utf8_width(s[0]));
    }
}

/// A parser range of `body` in characters.
pub open spec fn char_span(body: Seq<char>, r: Bytes) -> Span {
    Span { start: char_at(body, r.start as int) as usize, end: char_at(body, r.end as int) as usize }
}

pub fn char_offset(body: &[char], byte: u32) -> (r: usize)
    ensures
        r == char_at(body@, byte as int),
{
    let mut i: usize = 0;
    let mut acc: u64 = 0;
    assert(body@.skip(0) =~= body@);
    while i < body.len() && acc < byte as u64
        invariant
            i <= body@.len(),
            acc < byte as u64 + 4,
            i + char_at(body@.skip(i as int), byte - acc) == char_at(body@, byte as int),
        decreases body@.len() - i,
    {
        let c = body[i] as u32;
        let w: u64 = if c < 0x80 {
            1
        } else if c < 0x800 {
            2
        } else if c < 0x10000 {
            3
        } else {
            4
        };
        assert(body@.skip(i as int).drop_first() =~= body@.skip(i + 1));
        assert(body@.skip(i as int)[0] == body@[i as int]);
        acc = acc + w;
        i = i + 1;
    }
    i
}

pub fn span_of(body: &[char], r: Bytes) -> (s: Span)
    ensures
        s == char_span(body@, r),
        s.start <= body@.len(),
        s.end <= body@.len(),
{
    proof {
        lemma_char_at_bound(body@, r.start as int);
        lemma_char_at_bound(body@, r.end as int);
    }
    Span::new(char_offset(body, r.start), char_offset(body, r.end))
}

// ---------------------------------------------------------------------------
// References
// ---------------------------------------------------------------------------

/// `effect`, or `thisLayer.effect`: the owning layer's effect lookup, and
/// nothing else — `thisComp.layer('x').effect` reaches another layer's.
pub open spec fn own_effect(e: JsExpr) -> bool {
    match e {
        JsExpr::Ident { name, .. } => name@ == "effect"@,
        JsExpr::Member { object, prop, .. } => prop@ == "effect"@ && match *object {
            JsExpr::Ident { name, .. } => name@ == "thisLayer"@,
            _ => false,
        },
        _ => false,
    }
}

/// The one argument of a call, when it is a string literal.
pub open spec fn only_string(args: Seq<JsExpr>) -> Option<(Bytes, Seq<char>)> {
    if args.len() == 1 {
        match args[0] {
            JsExpr::Str { at, value } => Some((at, value@)),
            _ => None,
        }
    } else {
        None
    }
}

/// `effect(<string>)(<string>)` on the owning layer.
pub open spec fn direct_ref(body: Seq<char>, e: JsExpr) -> Option<RefV> {
    match e {
        JsExpr::Call { callee, args, .. } => match (only_string(args@), *callee) {
            (Some(p), JsExpr::Call { callee: inner, args: names, .. }) => if own_effect(*inner) {
                match only_string(names@) {
                    Some(n) => Some(
                        RefV::Direct {
                            name: char_span(body, n.0),
                            param: char_span(body, p.0),
                            name_str: n.1,
                            param_str: p.1,
                        },
                    ),
                    None => None,
                }
            } else {
                None
            },
            _ => None,
        },
        _ => None,
    }
}

/// `effect(x[…])(<string>)` on the owning layer: the array's name, the span
/// of its identifier, and the parameter literal's span and text.
pub open spec fn table_use(body: Seq<char>, e: JsExpr) -> Option<(Seq<char>, Span, Span, Seq<char>)> {
    match e {
        JsExpr::Call { callee, args, .. } => match (only_string(args@), *callee) {
            (Some(p), JsExpr::Call { callee: inner, args: xs, .. }) => if own_effect(*inner) && xs@.len() == 1 {
                match xs@[0] {
                    JsExpr::Index { object, .. } => match *object {
                        JsExpr::Ident { name, at } => Some((name@, char_span(body, at), char_span(body, p.0), p.1)),
                        _ => None,
                    },
                    _ => None,
                }
            } else {
                None
            },
            _ => None,
        },
        _ => None,
    }
}

/// An array literal of nothing but strings, and at least one: each
/// element's span and text.
pub open spec fn all_strings(body: Seq<char>, xs: Seq<JsExpr>) -> Option<Seq<(Span, Seq<char>)>> {
    if xs.len() > 0 && forall|i: int| 0 <= i < xs.len() ==> (#[trigger] xs[i]) is Str {
        Some(Seq::new(xs.len(), |i: int| (char_span(body, xs[i]->Str_at), xs[i]->Str_value@)))
    } else {
        None
    }
}

/// Nothing gathered.
pub open spec fn no_gather() -> Gather {
    Gather { refs: seq![], arrays: seq![], indexed: seq![], idents: seq![], accounted: seq![] }
}

/// The walk over one expression: a reference ends it, so does a table use;
/// otherwise it records each identifier it meets and each `x.length`, and
/// goes on into the parts of calls, members, indexing, arrays and operators
/// (of an assignment, the value assigned).
pub open spec fn walk_expr(body: Seq<char>, e: JsExpr, g: Gather) -> Gather
    decreases e,
{
    match direct_ref(body, e) {
        Some(r) => Gather { refs: g.refs.push(r), ..g },
        None => match table_use(body, e) {
            Some((n, s, p, ps)) => Gather {
                accounted: g.accounted.push(s),
                idents: g.idents.push((n, s)),
                indexed: g.indexed.push((n, p, ps)),
                ..g
            },
            None => match e {
                JsExpr::Ident { name, at } => Gather { idents: g.idents.push((name@, char_span(body, at))), ..g },
                JsExpr::Call { callee, args, .. } => walk_exprs(body, args@, walk_expr(body, *callee, g)),
                JsExpr::Member { object, prop, .. } => {
                    let g1 = match *object {
                        JsExpr::Ident { at, .. } => if prop@ == "length"@ {
                            Gather { accounted: g.accounted.push(char_span(body, at)), ..g }
                        } else {
                            g
                        },
                        _ => g,
                    };
                    walk_expr(body, *object, g1)
                },
                JsExpr::Index { object, index, .. } => walk_expr(body, *index, walk_expr(body, *object, g)),
                JsExpr::Array { elems, .. } => walk_exprs(body, elems@, g),
                JsExpr::Op { parts, .. } => walk_exprs(body, parts@, g),
                JsExpr::Paren { inner, .. } => walk_expr(body, *inner, g),
                JsExpr::Assign { value, .. } => walk_expr(body, *value, g),
                _ => g,
            },
        },
    }
}

/// The walk over expressions, first to last.
pub open spec fn walk_exprs(body: Seq<char>, xs: Seq<JsExpr>, g: Gather) -> Gather
    decreases xs,
{
    if xs.len() == 0 {
        g
    } else {
        walk_expr(body, xs.last(), walk_exprs(body, xs.drop_last(), g))
    }
}

fn string_arg(args: &Vec<JsExpr>) -> (r: Option<(Bytes, String)>)
    ensures
        match r {
            Some((at, v)) => only_string(args@) == Some((at, v@)),
            None => only_string(args@) is None,
        },
{
    if args.len() == 1 {
        match &args[0] {
            JsExpr::Str { at, value } => Some((*at, value.clone())),
            _ => None,
        }
    } else {
        None
    }
}

fn is_own_effect(e: &JsExpr) -> (r: bool)
    ensures
        r == own_effect(*e),
{
    match e {
        JsExpr::Ident { name, .. } => str_eq(name.as_str(), "effect"),
        JsExpr::Member { object, prop, .. } => {
            if !str_eq(prop.as_str(), "effect") {
                return false;
            }
            match &**object {
                JsExpr::Ident { name, .. } => str_eq(name.as_str(), "thisLayer"),
                _ => false,
            }
        },
        _ => false,
    }
}

fn as_ref(body: &[char], e: &JsExpr) -> (r: Option<Ref>)
    ensures
        match r {
            Some(x) => direct_ref(body@, *e) == Some(x@),
            None => direct_ref(body@, *e) is None,
        },
{
    match e {
        JsExpr::Call { callee, args, .. } => {
            let p = match string_arg(args) {
                Some(p) => p,
                None => return None,
            };
            match &**callee {
                JsExpr::Call { callee: inner, args: names, .. } => {
                    if !is_own_effect(&**inner) {
                        return None;
                    }
                    match string_arg(names) {
                        Some(n) => Some(
                            Ref::Direct {
                                name: span_of(body, n.0),
                                param: span_of(body, p.0),
                                name_str: n.1,
                                param_str: p.1,
                            },
                        ),
                        None => None,
                    }
                },
                _ => None,
            }
        },
        _ => None,
    }
}

fn as_table_use(body: &[char], e: &JsExpr) -> (r: Option<(String, Span, Span, String)>)
    ensures
        match r {
            Some((n, s, p, ps)) => table_use(body@, *e) == Some((n@, s, p, ps@)),
            None => table_use(body@, *e) is None,
        },
{
    match e {
        JsExpr::Call { callee, args, .. } => {
            let p = match string_arg(args) {
                Some(p) => p,
                None => return None,
            };
            match &**callee {
                JsExpr::Call { callee: inner, args: xs, .. } => {
                    if !is_own_effect(&**inner) || xs.len() != 1 {
                        return None;
                    }
                    match &xs[0] {
                        JsExpr::Index { object, .. } => match &**object {
                            JsExpr::Ident { name, at } => Some(
                                (name.clone(), span_of(body, *at), span_of(body, p.0), p.1),
                            ),
                            _ => None,
                        },
                        _ => None,
                    }
                },
                _ => None,
            }
        },
        _ => None,
    }
}

fn expr_walk(body: &[char], e: &JsExpr, out: &mut Out)
    requires
        names_unique(old(out).arrays@),
    ensures
        names_unique(final(out).arrays@),
        final(out)@ == walk_expr(body@, *e, old(out)@),
    decreases e,
{
    let ghost g = out@;
    match as_ref(body, e) {
        Some(r) => {
            let ghost v = r@;
            out.refs.push(r);
            assert(out@ =~= Gather { refs: g.refs.push(v), ..g });
            return;
        },
        None => {},
    }
    match as_table_use(body, e) {
        Some((name, s, p, ps)) => {
            let ghost t = (name@, s, p, ps@);
            out.accounted.push(s);
            out.idents.push((name.clone(), s));
            out.indexed.push((name, p, ps));
            assert(out@ =~= Gather {
                accounted: g.accounted.push(s),
                idents: g.idents.push((t.0, s)),
                indexed: g.indexed.push((t.0, p, t.3)),
                ..g
            });
            return;
        },
        None => {},
    }
    match e {
        JsExpr::Ident { name, at } => {
            let s = span_of(body, *at);
            out.idents.push((name.clone(), s));
            assert(out@ =~= Gather { idents: g.idents.push((name@, s)), ..g });
        },
        JsExpr::Call { callee, args, .. } => {
            expr_walk(body, &**callee, out);
            exprs_walk(body, args, out);
        },
        JsExpr::Member { object, prop, .. } => {
            match &**object {
                JsExpr::Ident { at, .. } => {
                    if str_eq(prop.as_str(), "length") {
                        let s = span_of(body, *at);
                        out.accounted.push(s);
                        assert(out@ =~= Gather { accounted: g.accounted.push(s), ..g });
                    }
                },
                _ => {},
            }
            expr_walk(body, &**object, out);
        },
        JsExpr::Index { object, index, .. } => {
            expr_walk(body, &**object, out);
            expr_walk(body, &**index, out);
        },
        JsExpr::Array { elems, .. } => exprs_walk(body, elems, out),
        JsExpr::Op { parts, .. } => exprs_walk(body, parts, out),
        JsExpr::Paren { inner, .. } => expr_walk(body, &**inner, out),
        JsExpr::Assign { value, .. } => expr_walk(body, &**value, out),
        _ => {},
    }
}

fn exprs_walk(body: &[char], xs: &Vec<JsExpr>, out: &mut Out)
    requires
        names_unique(old(out).arrays@),
    ensures
        names_unique(final(out).arrays@),
        final(out)@ == walk_exprs(body@, xs@, old(out)@),
    decreases xs,
{
    let ghost g = out@;
    let mut i: usize = 0;
    assert(xs@.take(0) =~= Seq::<JsExpr>::empty());
    while i < xs.len()
        invariant
            i <= xs@.len(),
            names_unique(out.arrays@),
            out@ == walk_exprs(body@, xs@.take(i as int), g),
        decreases xs@.len() - i,
    {
        assert(xs@.take(i + 1).drop_last() =~= xs@.take(i as int));
        assert(xs@.take(i + 1).last() == xs@[i as int]);
        expr_walk(body, &xs[i], out);
        i += 1;
    }
    assert(xs@.take(xs@.len() as int) =~= xs@);
}

/// The walk over an optional expression.
pub open spec fn walk_opt(src: Seq<char>, e: Option<JsExpr>, g: Gather) -> Gather {
    match e {
        Some(x) => walk_expr(src, x, g),
        None => g,
    }
}

/// `arrays` with `name` bound to `elems`, in place of an earlier array of
/// that name.
pub open spec fn with_array(
    arrays: Seq<(Seq<char>, Seq<(Span, Seq<char>)>)>,
    name: Seq<char>,
    elems: Seq<(Span, Seq<char>)>,
) -> Seq<(Seq<char>, Seq<(Span, Seq<char>)>)> {
    match named_at(arrays, name) {
        Some(j) => arrays.update(j, (name, elems)),
        None => arrays.push((name, elems)),
    }
}

/// One declarator: an array of strings bound to a name becomes a candidate
/// table; any other initializer is walked.
pub open spec fn decl_step(src: Seq<char>, d: JsDecl, g: Gather) -> Gather {
    match d.init {
        None => g,
        Some(e) => match (d.name, e) {
            (Some(n), JsExpr::Array { elems: xs, .. }) => match all_strings(src, xs@) {
                Some(el) => Gather { arrays: with_array(g.arrays, n@, el), ..g },
                None => walk_expr(src, e, g),
            },
            _ => walk_expr(src, e, g),
        },
    }
}

/// The declarators of a `var`, first to last.
pub open spec fn walk_decls(src: Seq<char>, ds: Seq<JsDecl>, g: Gather) -> Gather
    decreases ds.len(),
{
    if ds.len() == 0 {
        g
    } else {
        decl_step(src, ds.last(), walk_decls(src, ds.drop_last(), g))
    }
}

/// The initializers of a `for`'s declarators, first to last.
pub open spec fn walk_inits(src: Seq<char>, ds: Seq<JsDecl>, g: Gather) -> Gather
    decreases ds.len(),
{
    if ds.len() == 0 {
        g
    } else {
        walk_opt(src, ds.last().init, walk_inits(src, ds.drop_last(), g))
    }
}

/// The walk over one statement, into the statements and expressions it holds.
pub open spec fn walk_stmt(src: Seq<char>, s: JsStmt, g: Gather) -> Gather
    decreases s,
{
    match s.kind {
        JsStmtKind::Expr(e) => walk_expr(src, e, g),
        JsStmtKind::Var(ds) => walk_decls(src, ds@, g),
        JsStmtKind::Block(ss) => walk_stmts(src, ss@, g),
        JsStmtKind::If { test, then, other, .. } => {
            let g1 = walk_stmt(src, *then, walk_expr(src, test, g));
            match other {
                Some(o) => walk_stmt(src, *o, g1),
                None => g1,
            }
        },
        JsStmtKind::For { init, test, update, body } => {
            let g1 = match init {
                Some(JsForInit::Var(ds)) => walk_inits(src, ds@, g),
                _ => g,
            };
            walk_stmt(src, *body, walk_opt(src, update, walk_opt(src, test, g1)))
        },
        JsStmtKind::While { test, body } => walk_stmt(src, *body, walk_expr(src, test, g)),
        JsStmtKind::Return(r) => walk_opt(src, r, g),
        JsStmtKind::Try { block, handler, finalizer } => {
            let g1 = walk_stmts(src, block@, g);
            let g2 = match handler {
                Some(h) => walk_stmts(src, h@, g1),
                None => g1,
            };
            match finalizer {
                Some(f) => walk_stmts(src, f@, g2),
                None => g2,
            }
        },
        JsStmtKind::Other => g,
    }
}

/// The walk over statements, first to last.
pub open spec fn walk_stmts(src: Seq<char>, ss: Seq<JsStmt>, g: Gather) -> Gather
    decreases ss,
{
    if ss.len() == 0 {
        g
    } else {
        walk_stmt(src, ss.last(), walk_stmts(src, ss.drop_last(), g))
    }
}

/// The references of a parsed body: every `effect('name')('param')` on the
/// owning layer in the order the walk meets them, then one table for each
/// array of names indexed into `effect(…)` whose name does not escape.
pub open spec fn spec_refs(src: Seq<char>, p: Seq<JsStmt>) -> Seq<RefV> {
    finished(walk_stmts(src, p, no_gather()))
}

fn opt_walk(src: &[char], e: &Option<JsExpr>, out: &mut Out)
    requires
        names_unique(old(out).arrays@),
    ensures
        names_unique(final(out).arrays@),
        final(out)@ == walk_opt(src@, *e, old(out)@),
{
    match e {
        Some(x) => expr_walk(src, x, out),
        None => {},
    }
}

fn strings_of(src: &[char], xs: &Vec<JsExpr>) -> (r: Option<Vec<(Span, String)>>)
    ensures
        match r {
            Some(v) => all_strings(src@, xs@) == Some(elems_view(v@)),
            None => all_strings(src@, xs@) is None,
        },
{
    if xs.len() == 0 {
        return None;
    }
    let mut v: Vec<(Span, String)> = Vec::new();
    let mut i: usize = 0;
    while i < xs.len()
        invariant
            i <= xs@.len(),
            v@.len() == i,
            forall|k: int| 0 <= k < i ==> (#[trigger] xs@[k]) is Str,
            forall|k: int|
                0 <= k < i ==> (#[trigger] elems_view(v@)[k]) == (char_span(src@, xs@[k]->Str_at), xs@[k]->Str_value@),
        decreases xs@.len() - i,
    {
        match &xs[i] {
            JsExpr::Str { at, value } => {
                let ghost before = v@;
                v.push((span_of(src, *at), value.clone()));
                assert(elems_view(v@) =~= elems_view(before).push((char_span(src@, *at), value@)));
            },
            _ => {
                assert(!(xs@[i as int] is Str));
                return None;
            },
        }
        i += 1;
    }
    assert(elems_view(v@) =~= Seq::new(
        xs@.len(),
        |k: int| (char_span(src@, xs@[k]->Str_at), xs@[k]->Str_value@),
    ));
    Some(v)
}

fn decl_walk(src: &[char], d: &JsDecl, out: &mut Out)
    requires
        names_unique(old(out).arrays@),
    ensures
        names_unique(final(out).arrays@),
        final(out)@ == decl_step(src@, *d, old(out)@),
{
    let ghost g = out@;
    match &d.init {
        None => {},
        Some(e) => {
            match (&d.name, e) {
                (Some(n), JsExpr::Array { elems: xs, .. }) => {
                    match strings_of(src, xs) {
                        Some(el) => {
                            let ghost ev = elems_view(el@);
                            let ghost exact = out.arrays@;
                            proof {
                                lemma_named_at(exact, n@);
                            }
                            out.insert_array(n.clone(), el);
                            assert(arrays_view(out.arrays@) =~= with_array(g.arrays, n@, ev));
                            assert(out@ =~= Gather { arrays: with_array(g.arrays, n@, ev), ..g });
                            return;
                        },
                        None => {},
                    }
                },
                _ => {},
            }
            expr_walk(src, e, out);
        },
    }
}

fn decls_walk(src: &[char], ds: &Vec<JsDecl>, out: &mut Out)
    requires
        names_unique(old(out).arrays@),
    ensures
        names_unique(final(out).arrays@),
        final(out)@ == walk_decls(src@, ds@, old(out)@),
{
    let ghost g = out@;
    let mut i: usize = 0;
    assert(ds@.take(0) =~= Seq::<JsDecl>::empty());
    while i < ds.len()
        invariant
            i <= ds@.len(),
            names_unique(out.arrays@),
            out@ == walk_decls(src@, ds@.take(i as int), g),
        decreases ds@.len() - i,
    {
        assert(ds@.take(i + 1).drop_last() =~= ds@.take(i as int));
        assert(ds@.take(i + 1).last() == ds@[i as int]);
        decl_walk(src, &ds[i], out);
        i += 1;
    }
    assert(ds@.take(ds@.len() as int) =~= ds@);
}

fn inits_walk(src: &[char], ds: &Vec<JsDecl>, out: &mut Out)
    requires
        names_unique(old(out).arrays@),
    ensures
        names_unique(final(out).arrays@),
        final(out)@ == walk_inits(src@, ds@, old(out)@),
{
    let ghost g = out@;
    let mut i: usize = 0;
    assert(ds@.take(0) =~= Seq::<JsDecl>::empty());
    while i < ds.len()
        invariant
            i <= ds@.len(),
            names_unique(out.arrays@),
            out@ == walk_inits(src@, ds@.take(i as int), g),
        decreases ds@.len() - i,
    {
        assert(ds@.take(i + 1).drop_last() =~= ds@.take(i as int));
        assert(ds@.take(i + 1).last() == ds@[i as int]);
        opt_walk(src, &ds[i].init, out);
        i += 1;
    }
    assert(ds@.take(ds@.len() as int) =~= ds@);
}

fn stmt_walk(src: &[char], s: &JsStmt, out: &mut Out)
    requires
        names_unique(old(out).arrays@),
    ensures
        names_unique(final(out).arrays@),
        final(out)@ == walk_stmt(src@, *s, old(out)@),
    decreases s,
{
    match &s.kind {
        JsStmtKind::Expr(e) => expr_walk(src, e, out),
        JsStmtKind::Var(ds) => decls_walk(src, ds, out),
        JsStmtKind::Block(ss) => stmts_walk(src, ss.as_slice(), out),
        JsStmtKind::If { test, then, other, .. } => {
            expr_walk(src, test, out);
            stmt_walk(src, &**then, out);
            match other {
                Some(o) => stmt_walk(src, &**o, out),
                None => {},
            }
        },
        JsStmtKind::For { init, test, update, body } => {
            match init {
                Some(JsForInit::Var(ds)) => inits_walk(src, ds, out),
                _ => {},
            }
            opt_walk(src, test, out);
            opt_walk(src, update, out);
            stmt_walk(src, &**body, out);
        },
        JsStmtKind::While { test, body } => {
            expr_walk(src, test, out);
            stmt_walk(src, &**body, out);
        },
        JsStmtKind::Return(r) => opt_walk(src, r, out),
        JsStmtKind::Try { block, handler, finalizer } => {
            stmts_walk(src, block.as_slice(), out);
            match handler {
                Some(h) => stmts_walk(src, h.as_slice(), out),
                None => {},
            }
            match finalizer {
                Some(f) => stmts_walk(src, f.as_slice(), out),
                None => {},
            }
        },
        JsStmtKind::Other => {},
    }
}

fn stmts_walk(src: &[char], ss: &[JsStmt], out: &mut Out)
    requires
        names_unique(old(out).arrays@),
    ensures
        names_unique(final(out).arrays@),
        final(out)@ == walk_stmts(src@, ss@, old(out)@),
    decreases ss@,
{
    let ghost g = out@;
    let mut i: usize = 0;
    assert(ss@.take(0) =~= Seq::<JsStmt>::empty());
    while i < ss.len()
        invariant
            i <= ss@.len(),
            names_unique(out.arrays@),
            out@ == walk_stmts(src@, ss@.take(i as int), g),
        decreases ss@.len() - i,
    {
        assert(ss@.take(i + 1).drop_last() =~= ss@.take(i as int));
        assert(ss@.take(i + 1).last() == ss@[i as int]);
        stmt_walk(src, &ss[i], out);
        i += 1;
    }
    assert(ss@.take(ss@.len() as int) =~= ss@);
}

/// The references of `body`, read from its parse `p`.
pub fn refs_in(body: &str, p: &[JsStmt]) -> (r: Vec<Ref>)
    ensures
        r@.map_values(|x: Ref| x@) == spec_refs(body@, p@),
{
    let src = chars_of(body);
    let mut out = Out::new();
    assert(out@ =~= no_gather());
    stmts_walk(src.as_slice(), p, &mut out);
    tables(&mut out);
    out.refs
}

/// Every `effect('name')('param')` on the owning layer, and every table of
/// names indexed into `effect(…)`, in the order the walk meets them.
///
/// A body that does not parse has none: it ships untouched. A reference the
/// walk misses stays a name lookup at runtime, which costs bytes, not
/// correctness.
pub fn refs(body: &str) -> (r: Vec<Ref>)
    ensures
        r@.map_values(|x: Ref| x@) == match js_syntax(body@) {
            Some(p) => spec_refs(body@, p),
            None => Seq::<RefV>::empty(),
        },
{
    match parse_js(body) {
        Some(p) => refs_in(body, p.as_slice()),
        None => {
            let r: Vec<Ref> = Vec::new();
            assert(r@.map_values(|x: Ref| x@) =~= Seq::<RefV>::empty());
            r
        },
    }
}

// ---------------------------------------------------------------------------
// Branches
// ---------------------------------------------------------------------------

/// The text of a parser range of `src`.
pub open spec fn text_at(src: Seq<char>, r: Bytes) -> Seq<char> {
    let s = char_span(src, r);
    if s.start <= s.end {
        src.subrange(s.start as int, s.end as int)
    } else {
        seq![]
    }
}

/// Whether `s` declares, as its `k`th declarator, a name `text` mentions.
pub open spec fn mentions_decl(s: JsStmt, k: int, text: Seq<char>) -> bool {
    match s.kind {
        JsStmtKind::Var(ds) => 0 <= k < ds@.len() && match ds@[k].name {
            Some(n) => word_matches(text, n@, 0),
            None => false,
        },
        _ => false,
    }
}

/// Whether `text` mentions a name that a top-level declaration of `p` binds.
pub open spec fn mentions_local(p: Seq<JsStmt>, text: Seq<char>) -> bool {
    exists|i: int, k: int| 0 <= i < p.len() && #[trigger] mentions_decl(p[i], k, text)
}

/// An arm's statements, without the block that held them; an empty block
/// selects nothing.
pub open spec fn arm_span(src: Seq<char>, s: JsStmt) -> Span {
    match s.kind {
        JsStmtKind::Block(ss) => if ss@.len() > 0 {
            Span {
                start: char_at(src, ss@[0].at.start as int) as usize,
                end: char_at(src, ss@.last().at.end as int) as usize,
            }
        } else {
            Span { start: 0, end: 0 }
        },
        _ => char_span(src, s.at),
    }
}

/// A branch as contracts see it: the statement, the test's text, the taken
/// arm and the other arm.
pub open spec fn branch_view(b: Branch) -> (Span, Seq<char>, Span, Option<Span>) {
    (b.stmt, b.test@, b.taken, b.other)
}

/// The branch a top-level statement makes: an `if` whose test mentions no
/// local of the body.
pub open spec fn if_branch(src: Seq<char>, p: Seq<JsStmt>, s: JsStmt) -> Option<(Span, Seq<char>, Span, Option<Span>)> {
    match s.kind {
        JsStmtKind::If { test_at, then, other, .. } => {
            let t = text_at(src, test_at);
            if mentions_local(p, t) {
                None
            } else {
                Some(
                    (
                        char_span(src, s.at),
                        t,
                        arm_span(src, *then),
                        match other {
                            Some(o) => Some(arm_span(src, *o)),
                            None => None,
                        },
                    ),
                )
            }
        },
        _ => None,
    }
}

/// The branches of the first `n` top-level statements.
pub open spec fn branches_upto(src: Seq<char>, p: Seq<JsStmt>, n: int) -> Seq<(Span, Seq<char>, Span, Option<Span>)>
    decreases n,
{
    if n <= 0 {
        seq![]
    } else {
        let prev = branches_upto(src, p, n - 1);
        match if_branch(src, p, p[n - 1]) {
            Some(x) => prev.push(x),
            None => prev,
        }
    }
}

/// The branches of a parsed body: every top-level `if` whose test reads
/// nothing the body itself declares, in order.
pub open spec fn spec_branches(src: Seq<char>, p: Seq<JsStmt>) -> Seq<(Span, Seq<char>, Span, Option<Span>)> {
    branches_upto(src, p, p.len() as int)
}

fn mentions_a_local(p: &[JsStmt], text: &str) -> (r: bool)
    ensures
        r == mentions_local(p@, text@),
{
    let mut i: usize = 0;
    while i < p.len()
        invariant
            i <= p@.len(),
            forall|i2: int, k: int| 0 <= i2 < i ==> !#[trigger] mentions_decl(p@[i2], k, text@),
        decreases p@.len() - i,
    {
        match &p[i].kind {
            JsStmtKind::Var(ds) => {
                let mut k: usize = 0;
                while k < ds.len()
                    invariant
                        i < p@.len(),
                        p@[i as int].kind == JsStmtKind::Var(*ds),
                        k <= ds@.len(),
                        forall|i2: int, k2: int| 0 <= i2 < i ==> !#[trigger] mentions_decl(p@[i2], k2, text@),
                        forall|k2: int| 0 <= k2 < k ==> !#[trigger] mentions_decl(p@[i as int], k2, text@),
                    decreases ds@.len() - k,
                {
                    match &ds[k].name {
                        Some(n) => {
                            if mentions_word(text, n.as_str()) {
                                assert(mentions_decl(p@[i as int], k as int, text@));
                                return true;
                            }
                        },
                        None => {},
                    }
                    k += 1;
                }
                assert forall|k2: int| !#[trigger] mentions_decl(p@[i as int], k2, text@) by {
                    if 0 <= k2 < k {
                    }
                }
            },
            _ => {},
        }
        i += 1;
    }
    false
}

fn arm_of(src: &[char], s: &JsStmt) -> (r: Span)
    ensures
        r == arm_span(src@, *s),
{
    match &s.kind {
        JsStmtKind::Block(ss) => {
            if ss.len() > 0 {
                let first = char_offset(src, ss[0].at.start);
                let last = char_offset(src, ss[ss.len() - 1].at.end);
                proof {
                    lemma_char_at_bound(src@, ss@[0].at.start as int);
                    lemma_char_at_bound(src@, ss@.last().at.end as int);
                }
                Span::new(first, last)
            } else {
                Span::new(0, 0)
            }
        },
        _ => span_of(src, s.at),
    }
}

/// The text of a parser range of `src`.
pub fn test_text(src: &[char], r: Bytes) -> (t: String)
    ensures
        t@ == text_at(src@, r),
{
    let s = span_of(src, r);
    if s.start <= s.end {
        let v = slice_chars(src, s.start, s.end);
        string_of(v.as_slice())
    } else {
        String::new()
    }
}

/// The branches of `body`, read from its parse `p`.
pub fn branches_in(body: &str, p: &[JsStmt]) -> (r: Vec<Branch>)
    ensures
        r@.map_values(|b: Branch| branch_view(b)) == spec_branches(body@, p@),
{
    let src = chars_of(body);
    let mut out: Vec<Branch> = Vec::new();
    let mut i: usize = 0;
    while i < p.len()
        invariant
            src@ == body@,
            i <= p@.len(),
            out@.map_values(|b: Branch| branch_view(b)) == branches_upto(body@, p@, i as int),
        decreases p@.len() - i,
    {
        let ghost before = out@;
        match &p[i].kind {
            JsStmtKind::If { test_at, then, other, .. } => {
                let t = test_text(src.as_slice(), *test_at);
                if !mentions_a_local(p, t.as_str()) {
                    let stmt = span_of(src.as_slice(), p[i].at);
                    let taken = arm_of(src.as_slice(), &**then);
                    let other_arm = match other {
                        Some(o) => Some(arm_of(src.as_slice(), &**o)),
                        None => None,
                    };
                    let ghost tv = t@;
                    out.push(Branch { stmt, test: t, taken, other: other_arm });
                    assert(out@.map_values(|b: Branch| branch_view(b)) =~= before.map_values(|b: Branch| branch_view(b)).push(
                        (stmt, tv, taken, other_arm),
                    ));
                }
            },
            _ => {},
        }
        i += 1;
    }
    out
}

/// Every top-level `if` whose test reads nothing the body itself declares:
/// one mentioning a local would need the statements before it replayed to be
/// evaluated on its own. A body that does not parse has none.
pub fn branches(body: &str) -> (r: Vec<Branch>)
    ensures
        r@.map_values(|b: Branch| branch_view(b)) == match js_syntax(body@) {
            Some(p) => spec_branches(body@, p),
            None => Seq::empty(),
        },
{
    match parse_js(body) {
        Some(p) => branches_in(body, p.as_slice()),
        None => {
            let r: Vec<Branch> = Vec::new();
            assert(r@.map_values(|b: Branch| branch_view(b)) =~= Seq::<(Span, Seq<char>, Span, Option<Span>)>::empty());
            r
        },
    }
}

} // verus!
