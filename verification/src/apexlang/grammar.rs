//! The grammar of ApexLang, stated over token values: what the parser
//! builds from a token sequence, position by position, or the message of
//! the first error.
//!
//! Each rule takes the tokens and a position and gives the value it reads
//! with the position after it, or an error message. The tokens are those of
//! the lexer: the end-of-file token last and nowhere else.

use vstd::prelude::*;
use crate::apexlang::ast::{BinaryOp, ExprV, FunctionV, ImportV, ProgramV, StatementV, UnaryOp, ValueV};
use crate::apexlang::lexer::{
    at_text, comment_end, ident_end, lex_from, lex_spec, number_end, scan_string, step, Kind, Step,
    StrScan, Tok,
};

verus! {

/// Tokens as the lexer gives them: the end-of-file token last and only there.
pub open spec fn tokens_wf(ts: Seq<Tok>) -> bool {
    &&& ts.len() > 0
    &&& ts.last().kind is Eof
    &&& forall|i: int| 0 <= i < ts.len() - 1 ==> !(#[trigger] ts[i].kind is Eof)
}

/// How a token kind is named in a message.
pub open spec fn kind_text(k: Kind) -> Seq<char> {
    match k {
        Kind::Fn => "fn"@,
        Kind::Return => "return"@,
        Kind::Let => "let"@,
        Kind::Var => "var"@,
        Kind::Import => "import"@,
        Kind::As => "as"@,
        Kind::True => "true"@,
        Kind::False => "false"@,
        Kind::Identifier(_) => "identifier"@,
        Kind::Integer(_) => "integer"@,
        Kind::Number(_) => "number"@,
        Kind::StringLiteral(_) => "string literal"@,
        Kind::LParen => "'('"@,
        Kind::RParen => "')'"@,
        Kind::LBrace => "'{'"@,
        Kind::RBrace => "'}'"@,
        Kind::Comma => "','"@,
        Kind::Semicolon => "';'"@,
        Kind::Dot => "'.'"@,
        Kind::Plus => "'+'"@,
        Kind::Minus => "'-'"@,
        Kind::Star => "'*'"@,
        Kind::Slash => "'/'"@,
        Kind::Percent => "'%'"@,
        Kind::Bang => "'!'"@,
        Kind::Equal => "'='"@,
        Kind::EqualEqual => "'=='"@,
        Kind::BangEqual => "'!='"@,
        Kind::Less => "'<'"@,
        Kind::LessEqual => "'<='"@,
        Kind::Greater => "'>'"@,
        Kind::GreaterEqual => "'>='"@,
        Kind::AndAnd => "'&&'"@,
        Kind::OrOr => "'||'"@,
        Kind::Eof => "end of file"@,
    }
}

/// How the token where an error is found is shown: "end of file", its
/// quoted text, or (with no text) its kind.
pub open spec fn near(t: Tok) -> Seq<char> {
    if t.kind is Eof {
        "end of file"@
    } else if t.lexeme.len() == 0 {
        kind_text(t.kind)
    } else {
        "'"@ + t.lexeme + "'"@
    }
}

/// The message of an error found at token `p`.
pub open spec fn err_at(ts: Seq<Tok>, p: int, msg: Seq<char>) -> Seq<char> {
    msg + at_text(ts[p].line, ts[p].column) + " near "@ + near(ts[p])
}

/// The name an identifier token carries.
pub open spec fn ident_at(ts: Seq<Tok>, p: int) -> Option<Seq<char>> {
    match ts[p].kind {
        Kind::Identifier(n) => Some(n),
        _ => None,
    }
}

/// The operator that a token stands for at a level of precedence, from
/// loosest (0: `||`) to tightest (5: `*`, `/`, `%`).
pub open spec fn op_at(level: nat, k: Kind) -> Option<BinaryOp> {
    if level == 0 {
        if k is OrOr { Some(BinaryOp::Or) } else { None }
    } else if level == 1 {
        if k is AndAnd { Some(BinaryOp::And) } else { None }
    } else if level == 2 {
        if k is EqualEqual {
            Some(BinaryOp::Eq)
        } else if k is BangEqual {
            Some(BinaryOp::Ne)
        } else {
            None
        }
    } else if level == 3 {
        if k is Less {
            Some(BinaryOp::Lt)
        } else if k is LessEqual {
            Some(BinaryOp::Le)
        } else if k is Greater {
            Some(BinaryOp::Gt)
        } else if k is GreaterEqual {
            Some(BinaryOp::Ge)
        } else {
            None
        }
    } else if level == 4 {
        if k is Plus {
            Some(BinaryOp::Add)
        } else if k is Minus {
            Some(BinaryOp::Sub)
        } else {
            None
        }
    } else if level == 5 {
        if k is Star {
            Some(BinaryOp::Mul)
        } else if k is Slash {
            Some(BinaryOp::Div)
        } else if k is Percent {
            Some(BinaryOp::Mod)
        } else {
            None
        }
    } else {
        None
    }
}

/// The rank of a precedence level in the order in which rules call each
/// other at one position.
pub open spec fn level_rank(level: nat) -> int {
    if level < 6 { 10 - level } else { 4 }
}

/// An expression.
pub open spec fn expr_at(ts: Seq<Tok>, p: int) -> Result<(ExprV, int), Seq<char>>
    decreases ts.len() - p, 12int,
{
    if !(0 <= p < ts.len()) {
        Err(Seq::empty())
    } else {
        level_at(ts, p, 0)
    }
}

/// An expression at a level of precedence: operands of the next level
/// joined, from the left, by this level's operators; below level 5, a
/// unary expression.
pub open spec fn level_at(ts: Seq<Tok>, p: int, level: nat) -> Result<(ExprV, int), Seq<char>>
    decreases ts.len() - p, level_rank(level),
{
    if !(0 <= p < ts.len()) {
        Err(Seq::empty())
    } else if level >= 6 {
        unary_at(ts, p)
    } else {
        match level_at(ts, p, level + 1) {
            Ok((left, q)) => if p < q < ts.len() {
                level_rest(ts, q, level, left)
            } else {
                Err(Seq::empty())
            },
            Err(m) => Err(m),
        }
    }
}

/// The rest of an expression at a level, after its left operand.
pub open spec fn level_rest(ts: Seq<Tok>, p: int, level: nat, left: ExprV) -> Result<(ExprV, int), Seq<char>>
    decreases ts.len() - p, 0int,
{
    if !(0 <= p < ts.len()) || level >= 6 {
        Err(Seq::empty())
    } else {
        match op_at(level, ts[p].kind) {
            Some(op) => match level_at(ts, p + 1, level + 1) {
                Ok((right, q)) => if p < q < ts.len() {
                    level_rest(ts, q, level, ExprV::Binary(Box::new(left), op, Box::new(right)))
                } else {
                    Err(Seq::empty())
                },
                Err(m) => Err(m),
            },
            None => Ok((left, p)),
        }
    }
}

/// A unary expression: `!`, `+` or `-` before a unary expression, or a call.
pub open spec fn unary_at(ts: Seq<Tok>, p: int) -> Result<(ExprV, int), Seq<char>>
    decreases ts.len() - p, 3int,
{
    if !(0 <= p < ts.len()) {
        Err(Seq::empty())
    } else {
        let op = if ts[p].kind is Bang {
            Some(UnaryOp::Not)
        } else if ts[p].kind is Plus {
            Some(UnaryOp::Plus)
        } else if ts[p].kind is Minus {
            Some(UnaryOp::Minus)
        } else {
            None
        };
        match op {
            Some(o) => match unary_at(ts, p + 1) {
                Ok((e, q)) => Ok((ExprV::Unary(o, Box::new(e)), q)),
                Err(m) => Err(m),
            },
            None => call_at(ts, p),
        }
    }
}

/// A primary expression followed by any number of argument lists.
pub open spec fn call_at(ts: Seq<Tok>, p: int) -> Result<(ExprV, int), Seq<char>>
    decreases ts.len() - p, 2int,
{
    if !(0 <= p < ts.len()) {
        Err(Seq::empty())
    } else {
        match primary_at(ts, p) {
            Ok((e, q)) => if p < q < ts.len() {
                call_rest(ts, q, e)
            } else {
                Err(Seq::empty())
            },
            Err(m) => Err(m),
        }
    }
}

/// The argument lists after a callee.
pub open spec fn call_rest(ts: Seq<Tok>, p: int, callee: ExprV) -> Result<(ExprV, int), Seq<char>>
    decreases ts.len() - p, 0int,
{
    if !(0 <= p < ts.len()) {
        Err(Seq::empty())
    } else if !(ts[p].kind is LParen) {
        Ok((callee, p))
    } else if p + 2 <= ts.len() && ts[p + 1].kind is RParen {
        call_rest(ts, p + 2, ExprV::Call(Box::new(callee), Seq::empty()))
    } else {
        match args_at(ts, p + 1, Seq::empty()) {
            Ok((args, q)) => if p < q < ts.len() {
                if ts[q].kind is RParen {
                    call_rest(ts, q + 1, ExprV::Call(Box::new(callee), args))
                } else {
                    Err(err_at(ts, q, "Expected ')' after arguments"@))
                }
            } else {
                Err(Seq::empty())
            },
            Err(m) => Err(m),
        }
    }
}

/// Arguments separated by commas, after those already read.
pub open spec fn args_at(ts: Seq<Tok>, p: int, acc: Seq<ExprV>) -> Result<(Seq<ExprV>, int), Seq<char>>
    decreases ts.len() - p, 13int,
{
    if !(0 <= p < ts.len()) {
        Err(Seq::empty())
    } else {
        match expr_at(ts, p) {
            Ok((e, q)) => if p < q < ts.len() {
                if ts[q].kind is Comma {
                    args_at(ts, q + 1, acc.push(e))
                } else {
                    Ok((acc.push(e), q))
                }
            } else {
                Err(Seq::empty())
            },
            Err(m) => Err(m),
        }
    }
}

/// A literal, a parenthesised expression or a path.
pub open spec fn primary_at(ts: Seq<Tok>, p: int) -> Result<(ExprV, int), Seq<char>>
    decreases ts.len() - p, 1int,
{
    if !(0 <= p < ts.len()) {
        Err(Seq::empty())
    } else {
        match ts[p].kind {
            Kind::Number(v) => Ok((ExprV::Literal(ValueV::Number(v)), p + 1)),
            Kind::Integer(v) => Ok((ExprV::Literal(ValueV::Int(v)), p + 1)),
            Kind::StringLiteral(v) => Ok((ExprV::Literal(ValueV::Str(v)), p + 1)),
            Kind::True => Ok((ExprV::Literal(ValueV::Bool(true)), p + 1)),
            Kind::False => Ok((ExprV::Literal(ValueV::Bool(false)), p + 1)),
            Kind::LParen => match expr_at(ts, p + 1) {
                Ok((e, q)) => if p < q < ts.len() {
                    if ts[q].kind is RParen {
                        Ok((e, q + 1))
                    } else {
                        Err(err_at(ts, q, "Expected ')' after expression"@))
                    }
                } else {
                    Err(Seq::empty())
                },
                Err(m) => Err(m),
            },
            Kind::Identifier(n) => match path_rest(ts, p + 1, seq![n]) {
                Ok((segs, q)) => Ok((ExprV::Path(segs), q)),
                Err(m) => Err(m),
            },
            _ => Err(err_at(ts, p, "Expected expression"@)),
        }
    }
}

/// The `.name` segments after the first name of a path.
pub open spec fn path_rest(ts: Seq<Tok>, p: int, segs: Seq<Seq<char>>) -> Result<(Seq<Seq<char>>, int), Seq<char>>
    decreases ts.len() - p,
{
    if !(0 <= p < ts.len()) {
        Err(Seq::empty())
    } else if !(ts[p].kind is Dot) {
        Ok((segs, p))
    } else {
        match ident_at(ts, p + 1) {
            Some(n) => if p + 2 <= ts.len() {
                path_rest(ts, p + 2, segs.push(n))
            } else {
                Err(Seq::empty())
            },
            None => Err(err_at(ts, p + 1, "Expected identifier after '.'"@)),
        }
    }
}

/// A `;` at `p` ends what was read: the value with the position after it.
pub open spec fn then_semicolon<T>(ts: Seq<Tok>, q: int, value: T, msg: Seq<char>) -> Result<(T, int), Seq<char>> {
    if ts[q].kind is Semicolon {
        Ok((value, q + 1))
    } else {
        Err(err_at(ts, q, msg))
    }
}

/// An expression closed by `;`, read from `p`, with the statement made of it.
pub open spec fn closed_expr(ts: Seq<Tok>, p: int, msg: Seq<char>) -> Result<(ExprV, int), Seq<char>> {
    match expr_at(ts, p) {
        Ok((e, q)) => if p < q < ts.len() {
            then_semicolon(ts, q, e, msg)
        } else {
            Err(Seq::empty())
        },
        Err(m) => Err(m),
    }
}

/// The rest of a `let` or `var` declaration, after the keyword.
pub open spec fn declaration_at(ts: Seq<Tok>, p: int, mutable: bool) -> Result<(StatementV, int), Seq<char>> {
    if !(0 <= p < ts.len()) {
        Err(Seq::empty())
    } else {
        match ident_at(ts, p) {
            None => Err(err_at(ts, p, "Expected variable name"@)),
            Some(name) => if !(ts[p + 1].kind is Equal) {
                Err(err_at(ts, p + 1, "Expected '=' after variable name"@))
            } else {
                match closed_expr(ts, p + 2, "Expected ';' after variable declaration"@) {
                    Ok((value, q)) => Ok((StatementV::Let { name, mutable, value }, q)),
                    Err(m) => Err(m),
                }
            },
        }
    }
}

/// A statement.
#[verifier::opaque]
pub open spec fn statement_at(ts: Seq<Tok>, p: int) -> Result<(StatementV, int), Seq<char>> {
    if !(0 <= p < ts.len()) {
        Err(Seq::empty())
    } else if ts[p].kind is Return {
        match closed_expr(ts, p + 1, "Expected ';' after return expression"@) {
            Ok((e, q)) => Ok((StatementV::Return(e), q)),
            Err(m) => Err(m),
        }
    } else if ts[p].kind is Let {
        declaration_at(ts, p + 1, false)
    } else if ts[p].kind is Var {
        declaration_at(ts, p + 1, true)
    } else if ident_at(ts, p) is Some && ts[p + 1].kind is Equal {
        match closed_expr(ts, p + 2, "Expected ';' after assignment"@) {
            Ok((value, q)) => Ok((StatementV::Assignment { name: ident_at(ts, p)->0, value }, q)),
            Err(m) => Err(m),
        }
    } else {
        match closed_expr(ts, p, "Expected ';' after expression"@) {
            Ok((e, q)) => Ok((StatementV::Expr(e), q)),
            Err(m) => Err(m),
        }
    }
}

/// Parameter names separated by commas, after those already read.
pub open spec fn params_at(ts: Seq<Tok>, p: int, acc: Seq<Seq<char>>) -> Result<(Seq<Seq<char>>, int), Seq<char>>
    decreases ts.len() - p,
{
    if !(0 <= p < ts.len()) {
        Err(Seq::empty())
    } else {
        match ident_at(ts, p) {
            None => Err(err_at(ts, p, "Expected parameter name"@)),
            Some(n) => if p + 2 <= ts.len() && ts[p + 1].kind is Comma {
                params_at(ts, p + 2, acc.push(n))
            } else {
                Ok((acc.push(n), p + 1))
            },
        }
    }
}

/// Statements up to a `}` or the end, after those already read.
pub open spec fn body_at(ts: Seq<Tok>, p: int, acc: Seq<StatementV>) -> Result<(Seq<StatementV>, int), Seq<char>>
    decreases ts.len() - p,
{
    if !(0 <= p < ts.len()) {
        Err(Seq::empty())
    } else if ts[p].kind is RBrace || ts[p].kind is Eof {
        Ok((acc, p))
    } else {
        match statement_at(ts, p) {
            Ok((s, q)) => if p < q < ts.len() {
                body_at(ts, q, acc.push(s))
            } else {
                Err(Seq::empty())
            },
            Err(m) => Err(m),
        }
    }
}

/// The parameter list of a function, from its `(`: the names, with the
/// position of the `)` that should close it.
pub open spec fn param_list_at(ts: Seq<Tok>, p: int) -> Result<(Seq<Seq<char>>, int), Seq<char>> {
    if !(0 <= p < ts.len()) {
        Err(Seq::empty())
    } else if ts[p].kind is RParen {
        Ok((Seq::empty(), p))
    } else {
        params_at(ts, p, Seq::empty())
    }
}

/// The body of a function from the `)` after its parameters.
pub open spec fn function_body_at(
    ts: Seq<Tok>,
    q: int,
    name: Seq<char>,
    params: Seq<Seq<char>>,
) -> Result<(FunctionV, int), Seq<char>> {
    if !(0 <= q < ts.len()) {
        Err(Seq::empty())
    } else if !(ts[q].kind is RParen) {
        Err(err_at(ts, q, "Expected ')' after function parameters"@))
    } else if !(ts[q + 1].kind is LBrace) {
        Err(err_at(ts, q + 1, "Expected '{' to start function body"@))
    } else {
        match body_at(ts, q + 2, Seq::empty()) {
            Ok((body, r)) => if ts[r].kind is RBrace {
                Ok((FunctionV { name, params, body }, r + 1))
            } else {
                Err(err_at(ts, r, "Expected '}' to end function body"@))
            },
            Err(m) => Err(m),
        }
    }
}

/// A function declaration.
#[verifier::opaque]
pub open spec fn function_at(ts: Seq<Tok>, p: int) -> Result<(FunctionV, int), Seq<char>> {
    if !(0 <= p < ts.len()) {
        Err(Seq::empty())
    } else if !(ts[p].kind is Fn) {
        Err(err_at(ts, p, "Expected 'fn' at the start of a function"@))
    } else {
        match ident_at(ts, p + 1) {
            None => Err(err_at(ts, p + 1, "Expected function name after 'fn'"@)),
            Some(name) => if !(ts[p + 2].kind is LParen) {
                Err(err_at(ts, p + 2, "Expected '(' after function name"@))
            } else {
                match param_list_at(ts, p + 3) {
                    Ok((params, q)) => function_body_at(ts, q, name, params),
                    Err(m) => Err(m),
                }
            },
        }
    }
}

/// An optional `as alias` at `p`, then the `;` that ends an import: the
/// alias with the position after the `;`.
pub open spec fn alias_at(ts: Seq<Tok>, p: int) -> Result<(Option<Seq<char>>, int), Seq<char>> {
    if !(0 <= p < ts.len()) {
        Err(Seq::empty())
    } else if ts[p].kind is As {
        match ident_at(ts, p + 1) {
            None => Err(err_at(ts, p + 1, "Expected alias name after 'as'"@)),
            Some(a) => then_semicolon(ts, p + 2, Some(a), "Expected ';' after import statement"@),
        }
    } else {
        then_semicolon(ts, p, None, "Expected ';' after import statement"@)
    }
}

/// An import clause, after the `import` keyword.
#[verifier::opaque]
pub open spec fn import_at(ts: Seq<Tok>, p: int) -> Result<(ImportV, int), Seq<char>> {
    if !(0 <= p < ts.len()) {
        Err(Seq::empty())
    } else {
        match ident_at(ts, p) {
            None => Err(err_at(ts, p, "Expected module name after 'import'"@)),
            Some(module) => if ts[p + 1].kind is Dot {
                match ident_at(ts, p + 2) {
                    None => Err(err_at(ts, p + 2, "Expected symbol name after '.' in import"@)),
                    Some(symbol) => match alias_at(ts, p + 3) {
                        Ok((alias, q)) => Ok((ImportV::Symbol { module, symbol, alias }, q)),
                        Err(m) => Err(m),
                    },
                }
            } else {
                match alias_at(ts, p + 1) {
                    Ok((alias, q)) => Ok((ImportV::Module { name: module, alias }, q)),
                    Err(m) => Err(m),
                }
            },
        }
    }
}

/// Functions up to the end of the tokens, after those already read.
pub open spec fn functions_at(ts: Seq<Tok>, p: int, acc: Seq<FunctionV>) -> Result<Seq<FunctionV>, Seq<char>>
    decreases ts.len() - p,
{
    if !(0 <= p < ts.len()) {
        Err(Seq::empty())
    } else if ts[p].kind is Eof {
        Ok(acc)
    } else {
        match function_at(ts, p) {
            Ok((f, q)) => if p < q < ts.len() {
                functions_at(ts, q, acc.push(f))
            } else {
                Err(Seq::empty())
            },
            Err(m) => Err(m),
        }
    }
}

/// Imports, each after an `import` keyword, then the functions.
pub open spec fn imports_at(ts: Seq<Tok>, p: int, acc: Seq<ImportV>) -> Result<ProgramV, Seq<char>>
    decreases ts.len() - p,
{
    if !(0 <= p < ts.len()) {
        Err(Seq::empty())
    } else if ts[p].kind is Import {
        match import_at(ts, p + 1) {
            Ok((i, q)) => if p < q < ts.len() {
                imports_at(ts, q, acc.push(i))
            } else {
                Err(Seq::empty())
            },
            Err(m) => Err(m),
        }
    } else {
        match functions_at(ts, p, Seq::empty()) {
            Ok(fs) => Ok(ProgramV { imports: acc, functions: fs }),
            Err(m) => Err(m),
        }
    }
}

/// The program that tokens spell, or the message of the first error.
pub open spec fn program_of(ts: Seq<Tok>) -> Result<ProgramV, Seq<char>> {
    imports_at(ts, 0, Seq::empty())
}

/// The program that a source text spells, or the message of the first
/// error of its lexing or its parsing.
pub open spec fn parse_spec(source: Seq<char>) -> Result<ProgramV, Seq<char>> {
    match lex_spec(source) {
        Ok(ts) => program_of(ts),
        Err(m) => Err(m),
    }
}

/// No token that a step of the lexer emits is the end-of-file token.
proof fn lemma_step_not_eof(c: Seq<char>, i: int, line: nat, column: nat)
    requires
        0 <= i < c.len(),
    ensures
        step(c, i, line, column) matches Step::Emit { tok, .. } ==> !(tok.kind is Eof),
{
}

/// The tokens lexed from a position end with the end-of-file token, and
/// hold it nowhere else.
proof fn lemma_lex_from_wf(c: Seq<char>, i: nat, line: nat, column: nat)
    ensures
        lex_from(c, i, line, column) matches Ok(ts) ==> tokens_wf(ts),
    decreases c.len() - i,
{
    if i < c.len() {
        lemma_step_not_eof(c, i as int, line, column);
        match step(c, i as int, line, column) {
            Step::Skip { next, line: l, column: col } => {
                if i < next <= c.len() {
                    lemma_lex_from_wf(c, next, l, col);
                }
            },
            Step::Emit { tok, next, line: l, column: col } => {
                if i < next <= c.len() {
                    lemma_lex_from_wf(c, next, l, col);
                    if let Ok(rest) = lex_from(c, next, l, col) {
                        let ts = seq![tok] + rest;
                        assert forall|k: int| 0 <= k < ts.len() - 1 implies !(#[trigger] ts[k].kind is Eof) by {
                            if k > 0 {
                                assert(ts[k] == rest[k - 1]);
                            }
                        }
                        assert(ts.last() == rest.last());
                    }
                }
            },
            Step::Fail { .. } => {},
        }
    }
}

/// The tokens of any source text that lexes end with the end-of-file
/// token, and hold it nowhere else.
pub proof fn lemma_lex_tokens_wf(source: Seq<char>)
    ensures
        lex_spec(source) matches Ok(ts) ==> tokens_wf(ts),
{
    lemma_lex_from_wf(source, 0, 1, 1);
}

/// Whether token `a` stands strictly before token `b`: on an earlier line,
/// or on the same line at an earlier column.
pub open spec fn tok_before(a: Tok, b: Tok) -> bool {
    a.line < b.line || (a.line == b.line && a.column < b.column)
}

/// Whether a token stands at or after the given line and column.
pub open spec fn at_or_after(t: Tok, line: nat, column: nat) -> bool {
    t.line > line || (t.line == line && t.column >= column)
}

/// Every token has a line and column of at least 1, and each token stands
/// strictly before the next.
pub open spec fn positions_increase(ts: Seq<Tok>) -> bool {
    &&& forall|k: int| 0 <= k < ts.len() ==> #[trigger] ts[k].line >= 1 && ts[k].column >= 1
    &&& forall|k: int| 0 <= k < ts.len() - 1 ==> tok_before(#[trigger] ts[k], ts[k + 1])
}

proof fn lemma_ident_end_from(c: Seq<char>, i: int)
    requires
        i >= 0,
    ensures
        ident_end(c, i) >= i,
    decreases c.len() - i,
{
    if !(i >= c.len() || i < 0 || !crate::apexlang::lexer::ident_continue(c[i])) {
        lemma_ident_end_from(c, i + 1);
    }
}

proof fn lemma_number_end_from(c: Seq<char>, i: int, dot: bool)
    requires
        i >= 0,
    ensures
        number_end(c, i, dot) >= i,
    decreases c.len() - i,
{
    if i < c.len() {
        if '0' <= c[i] <= '9' {
            lemma_number_end_from(c, i + 1, dot);
        } else if c[i] == '.' && !dot {
            lemma_number_end_from(c, i + 1, true);
        }
    }
}

proof fn lemma_comment_end_from(c: Seq<char>, i: int)
    requires
        i >= 0,
    ensures
        comment_end(c, i) >= i,
    decreases c.len() - i,
{
    if !(i >= c.len() || i < 0 || c[i] == '\n') {
        lemma_comment_end_from(c, i + 1);
    }
}

/// A string literal's scan ends at a later column than it started.
proof fn lemma_scan_string_column(
    c: Seq<char>,
    i: int,
    value: Seq<char>,
    column: nat,
    line: nat,
    start_col: nat,
)
    ensures
        scan_string(c, i, value, column, line, start_col) matches StrScan::Done { column: col, .. }
            ==> col > column,
    decreases c.len() - i,
{
    if 0 <= i < c.len() && c[i] != '"' {
        if c[i] == '\\' {
            if i + 1 < c.len() {
                lemma_scan_string_column(c, i + 2, value.push(c[i + 1]), column + 2, line, start_col);
                if let Some(t) = crate::apexlang::lexer::escape_char(c[i + 1]) {
                    lemma_scan_string_column(c, i + 2, value.push(t), column + 2, line, start_col);
                }
            }
        } else if c[i] != '\n' {
            lemma_scan_string_column(c, i + 1, value.push(c[i]), column + 1, line, start_col);
        }
    }
}

/// A step of the lexer emits its token at the current line and column, and
/// when it moves on, it moves to a later column of the same line or to the
/// first column of the next line.
proof fn lemma_step_advances(c: Seq<char>, i: int, line: nat, column: nat)
    requires
        0 <= i < c.len(),
    ensures
        step(c, i, line, column) matches Step::Skip { next, line: l, column: col } ==> (i < next ==> (
        l == line && col > column) || (l == line + 1 && col == 1)),
        step(c, i, line, column) matches Step::Emit { tok, next, line: l, column: col } ==> tok.line
            == line && tok.column == column && (i < next ==> l == line && col > column),
{
    lemma_ident_end_from(c, i);
    lemma_number_end_from(c, i, false);
    lemma_comment_end_from(c, i + 2);
    lemma_scan_string_column(c, i + 1, Seq::empty(), column + 1, line, column);
}

/// Lexing from a line and column of at least 1 gives tokens in increasing
/// positions, none before that line and column.
proof fn lemma_lex_from_positions(c: Seq<char>, i: nat, line: nat, column: nat)
    requires
        line >= 1,
        column >= 1,
    ensures
        lex_from(c, i, line, column) matches Ok(ts) ==> positions_increase(ts) && forall|k: int|
            0 <= k < ts.len() ==> at_or_after(#[trigger] ts[k], line, column),
    decreases c.len() - i,
{
    if i < c.len() {
        lemma_step_advances(c, i as int, line, column);
        match step(c, i as int, line, column) {
            Step::Skip { next, line: l, column: col } => {
                if i < next <= c.len() {
                    lemma_lex_from_positions(c, next, l, col);
                }
            },
            Step::Emit { tok, next, line: l, column: col } => {
                if i < next <= c.len() {
                    lemma_lex_from_positions(c, next, l, col);
                    if let Ok(rest) = lex_from(c, next, l, col) {
                        let ts = seq![tok] + rest;
                        assert forall|k: int| 0 <= k < ts.len() implies #[trigger] ts[k].line >= 1
                            && ts[k].column >= 1 && at_or_after(ts[k], line, column) by {
                            if k > 0 {
                                assert(ts[k] == rest[k - 1]);
                            }
                        }
                        assert forall|k: int| 0 <= k < ts.len() - 1 implies tok_before(
                            #[trigger] ts[k],
                            ts[k + 1],
                        ) by {
                            assert(ts[k + 1] == rest[k]);
                            if k > 0 {
                                assert(ts[k] == rest[k - 1]);
                            }
                        }
                    }
                }
            },
            Step::Fail { .. } => {},
        }
    }
}

/// The tokens of any source text that lexes start at line 1, column 1 or
/// later, and each stands strictly before the next, the end-of-file token
/// being the last and only one; an empty text gives that token alone, at
/// line 1, column 1.
pub proof fn lemma_lex_positions(source: Seq<char>)
    ensures
        lex_spec(source) matches Ok(ts) ==> tokens_wf(ts) && positions_increase(ts),
        source.len() == 0 ==> lex_spec(source) == Ok::<Seq<Tok>, Seq<char>>(
            seq![Tok { kind: Kind::Eof, lexeme: Seq::empty(), line: 1, column: 1 }],
        ),
{
    lemma_lex_from_wf(source, 0, 1, 1);
    lemma_lex_from_positions(source, 0, 1, 1);
}

/// Under a token that is not the end of file there is another token.
pub proof fn lemma_next_token(ts: Seq<Tok>, p: int)
    requires
        tokens_wf(ts),
        0 <= p < ts.len(),
        !(ts[p].kind is Eof),
    ensures
        p + 1 < ts.len(),
{
}

/// How a character is written inside a string literal: the double quote,
/// the backslash, and the newline, tab, carriage-return and NUL characters
/// as a backslash and a letter, any other character as itself.
pub open spec fn quoted_char(ch: char) -> Seq<char> {
    if ch == '"' {
        seq!['\\', '"']
    } else if ch == '\\' {
        seq!['\\', '\\']
    } else if ch == '\n' {
        seq!['\\', 'n']
    } else if ch == '\t' {
        seq!['\\', 't']
    } else if ch == '\r' {
        seq!['\\', 'r']
    } else if ch == '\0' {
        seq!['\\', '0']
    } else {
        seq![ch]
    }
}

/// Text written character by character as the body of a string literal.
pub open spec fn quoted(s: Seq<char>) -> Seq<char>
    decreases s.len(),
{
    if s.len() == 0 {
        Seq::empty()
    } else {
        quoted_char(s[0]) + quoted(s.drop_first())
    }
}

/// Scanning over the written form of some text adds that text to the value.
proof fn lemma_scan_quoted(c: Seq<char>, i: int, s: Seq<char>, value: Seq<char>, column: nat, line: nat, start_col: nat)
    requires
        0 <= i,
        i + quoted(s).len() <= c.len(),
        c.subrange(i, i + quoted(s).len()) == quoted(s),
    ensures
        scan_string(c, i, value, column, line, start_col) == scan_string(
            c,
            i + quoted(s).len(),
            value + s,
            column + quoted(s).len(),
            line,
            start_col,
        ),
    decreases s.len(),
{
    if s.len() == 0 {
        assert(value + s =~= value);
    } else {
        let q0 = quoted_char(s[0]);
        let rest = s.drop_first();
        assert(quoted(s) == q0 + quoted(rest));
        let n = q0.len() as int;
        assert(c.subrange(i + n, i + quoted(s).len()) =~= quoted(rest)) by {
            assert forall|j: int| 0 <= j < quoted(rest).len() implies c.subrange(i + n, i + quoted(s).len())[j]
                == quoted(rest)[j] by {
                assert(c[i + n + j] == c.subrange(i, i + quoted(s).len())[n + j]);
            }
        }
        assert(c[i] == q0[0]) by {
            assert(c[i] == c.subrange(i, i + quoted(s).len())[0]);
        }
        if n == 2 {
            assert(c[i + 1] == q0[1]) by {
                assert(c[i + 1] == c.subrange(i, i + quoted(s).len())[1]);
            }
        }
        lemma_scan_quoted(c, i + n, rest, value.push(s[0]), column + n as nat, line, start_col);
        assert(value.push(s[0]) + rest =~= value + s);
    }
}

/// A string literal whose body is the written form of some text lexes to
/// one string token holding exactly that text: each escape stands for the
/// character it names, and every other character for itself.
pub proof fn lemma_quoted_string_lexes(s: Seq<char>)
    ensures
        ({
            let src = seq!['"'] + quoted(s) + seq!['"'];
            lex_spec(src) == Ok::<Seq<Tok>, Seq<char>>(
                seq![
                    Tok { kind: Kind::StringLiteral(s), lexeme: s, line: 1, column: 1 },
                    Tok { kind: Kind::Eof, lexeme: Seq::empty(), line: 1, column: 1 + src.len() },
                ],
            )
        }),
{
    let q = quoted(s);
    let src = seq!['"'] + q + seq!['"'];
    assert(src.subrange(1, 1 + q.len() as int) =~= q);
    lemma_scan_quoted(src, 1, s, Seq::empty(), 2, 1, 1);
    assert(Seq::<char>::empty() + s =~= s);
    assert(src[1 + q.len() as int] == '"');
    let tok = Tok { kind: Kind::StringLiteral(s), lexeme: s, line: 1, column: 1 };
    let eof = Tok { kind: Kind::Eof, lexeme: Seq::<char>::empty(), line: 1, column: 1 + src.len() };
    assert(src[0] == '"');
    assert(lex_from(src, src.len(), 1, 1 + src.len()) == Ok::<Seq<Tok>, Seq<char>>(seq![eof]));
    assert(seq![tok] + seq![eof] =~= seq![tok, eof]);
}

/// Text that the lexer reads as one token from its start lexes to that
/// token and the end of the text.
pub(crate) proof fn lemma_lex_single_token(c: Seq<char>, k: Kind)
    requires
        c.len() >= 1,
        step(c, 0, 1, 1) == (Step::Emit {
            tok: Tok { kind: k, lexeme: c, line: 1, column: 1 },
            next: c.len(),
            line: 1,
            column: 1 + c.len(),
        }),
    ensures
        lex_spec(c) == Ok::<Seq<Tok>, Seq<char>>(
            seq![
                Tok { kind: k, lexeme: c, line: 1, column: 1 },
                Tok { kind: Kind::Eof, lexeme: Seq::empty(), line: 1, column: 1 + c.len() },
            ],
        ),
{
    let tok = Tok { kind: k, lexeme: c, line: 1, column: 1 };
    let eof = Tok { kind: Kind::Eof, lexeme: Seq::<char>::empty(), line: 1, column: 1 + c.len() };
    assert(lex_from(c, c.len(), 1, 1 + c.len()) == Ok::<Seq<Tok>, Seq<char>>(seq![eof]));
    assert(seq![tok] + seq![eof] =~= seq![tok, eof]);
}

/// The text of each token that is always written the same way: the
/// keywords, the punctuation and the operators.
pub open spec fn token_text(k: Kind) -> Option<Seq<char>> {
    match k {
        Kind::Fn => Some(seq!['f', 'n']),
        Kind::Return => Some(seq!['r', 'e', 't', 'u', 'r', 'n']),
        Kind::Let => Some(seq!['l', 'e', 't']),
        Kind::Var => Some(seq!['v', 'a', 'r']),
        Kind::Import => Some(seq!['i', 'm', 'p', 'o', 'r', 't']),
        Kind::As => Some(seq!['a', 's']),
        Kind::True => Some(seq!['t', 'r', 'u', 'e']),
        Kind::False => Some(seq!['f', 'a', 'l', 's', 'e']),
        Kind::LParen => Some(seq!['(']),
        Kind::RParen => Some(seq![')']),
        Kind::LBrace => Some(seq!['{']),
        Kind::RBrace => Some(seq!['}']),
        Kind::Comma => Some(seq![',']),
        Kind::Semicolon => Some(seq![';']),
        Kind::Dot => Some(seq!['.']),
        Kind::Plus => Some(seq!['+']),
        Kind::Minus => Some(seq!['-']),
        Kind::Star => Some(seq!['*']),
        Kind::Slash => Some(seq!['/']),
        Kind::Percent => Some(seq!['%']),
        Kind::Bang => Some(seq!['!']),
        Kind::Equal => Some(seq!['=']),
        Kind::EqualEqual => Some(seq!['=', '=']),
        Kind::BangEqual => Some(seq!['!', '=']),
        Kind::Less => Some(seq!['<']),
        Kind::LessEqual => Some(seq!['<', '=']),
        Kind::Greater => Some(seq!['>']),
        Kind::GreaterEqual => Some(seq!['>', '=']),
        Kind::AndAnd => Some(seq!['&', '&']),
        Kind::OrOr => Some(seq!['|', '|']),
        _ => None,
    }
}

/// Each keyword, punctuation mark and operator, written alone, lexes to
/// one token of its kind with its text, then the end of the text.
pub proof fn lemma_fixed_tokens_lex(k: Kind)
    ensures
        token_text(k) matches Some(t) ==> lex_spec(t) == Ok::<Seq<Tok>, Seq<char>>(
            seq![
                Tok { kind: k, lexeme: t, line: 1, column: 1 },
                Tok { kind: Kind::Eof, lexeme: Seq::empty(), line: 1, column: 1 + t.len() },
            ],
        ),
{
    reveal_with_fuel(ident_end, 8);
    reveal_strlit("fn");
    reveal_strlit("return");
    reveal_strlit("let");
    reveal_strlit("var");
    reveal_strlit("import");
    reveal_strlit("as");
    reveal_strlit("true");
    reveal_strlit("false");
    match k {
        Kind::Fn => {
            let t = token_text(k)->0;
            assert(t == "fn"@);
            assert(ident_end(t, 0) == t.len());
            assert(t.subrange(0, t.len() as int) =~= t);
            lemma_lex_single_token(t, k);
        },
        Kind::Return => {
            let t = token_text(k)->0;
            assert(t == "return"@);
            assert(ident_end(t, 0) == t.len());
            assert(t.subrange(0, t.len() as int) =~= t);
            lemma_lex_single_token(t, k);
        },
        Kind::Let => {
            let t = token_text(k)->0;
            assert(t == "let"@);
            assert(ident_end(t, 0) == t.len());
            assert(t.subrange(0, t.len() as int) =~= t);
            lemma_lex_single_token(t, k);
        },
        Kind::Var => {
            let t = token_text(k)->0;
            assert(t == "var"@);
            assert(ident_end(t, 0) == t.len());
            assert(t.subrange(0, t.len() as int) =~= t);
            lemma_lex_single_token(t, k);
        },
        Kind::Import => {
            let t = token_text(k)->0;
            assert(t == "import"@);
            assert(ident_end(t, 0) == t.len());
            assert(t.subrange(0, t.len() as int) =~= t);
            lemma_lex_single_token(t, k);
        },
        Kind::As => {
            let t = token_text(k)->0;
            assert(t == "as"@);
            assert(ident_end(t, 0) == t.len());
            assert(t.subrange(0, t.len() as int) =~= t);
            lemma_lex_single_token(t, k);
        },
        Kind::True => {
            let t = token_text(k)->0;
            assert(t == "true"@);
            assert(ident_end(t, 0) == t.len());
            assert(t.subrange(0, t.len() as int) =~= t);
            lemma_lex_single_token(t, k);
        },
        Kind::False => {
            let t = token_text(k)->0;
            assert(t == "false"@);
            assert(ident_end(t, 0) == t.len());
            assert(t.subrange(0, t.len() as int) =~= t);
            lemma_lex_single_token(t, k);
        },
        Kind::LParen => {
            lemma_lex_single_token(token_text(k)->0, k);
        },
        Kind::RParen => {
            lemma_lex_single_token(token_text(k)->0, k);
        },
        Kind::LBrace => {
            lemma_lex_single_token(token_text(k)->0, k);
        },
        Kind::RBrace => {
            lemma_lex_single_token(token_text(k)->0, k);
        },
        Kind::Comma => {
            lemma_lex_single_token(token_text(k)->0, k);
        },
        Kind::Semicolon => {
            lemma_lex_single_token(token_text(k)->0, k);
        },
        Kind::Dot => {
            lemma_lex_single_token(token_text(k)->0, k);
        },
        Kind::Plus => {
            lemma_lex_single_token(token_text(k)->0, k);
        },
        Kind::Minus => {
            lemma_lex_single_token(token_text(k)->0, k);
        },
        Kind::Star => {
            lemma_lex_single_token(token_text(k)->0, k);
        },
        Kind::Slash => {
            lemma_lex_single_token(token_text(k)->0, k);
        },
        Kind::Percent => {
            lemma_lex_single_token(token_text(k)->0, k);
        },
        Kind::Bang => {
            lemma_lex_single_token(token_text(k)->0, k);
        },
        Kind::Equal => {
            lemma_lex_single_token(token_text(k)->0, k);
        },
        Kind::EqualEqual => {
            lemma_lex_single_token(token_text(k)->0, k);
        },
        Kind::BangEqual => {
            lemma_lex_single_token(token_text(k)->0, k);
        },
        Kind::Less => {
            lemma_lex_single_token(token_text(k)->0, k);
        },
        Kind::LessEqual => {
            lemma_lex_single_token(token_text(k)->0, k);
        },
        Kind::Greater => {
            lemma_lex_single_token(token_text(k)->0, k);
        },
        Kind::GreaterEqual => {
            lemma_lex_single_token(token_text(k)->0, k);
        },
        Kind::AndAnd => {
            lemma_lex_single_token(token_text(k)->0, k);
        },
        Kind::OrOr => {
            lemma_lex_single_token(token_text(k)->0, k);
        },
        _ => {},
    }
}

} // verus!
