//! The ApexLang parser: a recursive-descent parser over the lexer's tokens,
//! checked against the grammar rule by rule.

use vstd::prelude::*;
use crate::apexlang::ast::{
    expr_v, exprs_v, function_v, import_v, program_v, statement_v, texts, opt_text, BinaryOp,
    Expr, ExprV, Function, FunctionV, Import, ImportKind, ImportV, Path, Program, ProgramV, Statement,
    StatementV, UnaryOp, Value,
};
use crate::apexlang::error::ApexError;
use crate::apexlang::grammar::{
    alias_at, args_at, body_at, call_at, call_rest, closed_expr, declaration_at, err_at, expr_at,
    function_at, function_body_at, functions_at, ident_at, import_at, imports_at, kind_text,
    lemma_lex_tokens_wf, lemma_next_token, level_at, level_rest, near, op_at, param_list_at,
    params_at, parse_spec, path_rest, primary_at, program_of, statement_at, then_semicolon,
    tokens_wf, unary_at,
};
use crate::apexlang::lexer::{append_at, lex, lex_spec, toks, Kind, Tok, Token, TokenKind};

verus! {

impl Token {
    /// How the token's kind is named in messages
    pub fn kind_name(&self) -> (s: String)
        ensures
            s@ == kind_text(self.kind@),
    {
        let name = match &self.kind {
            TokenKind::Fn => "fn",
            TokenKind::Return => "return",
            TokenKind::Let => "let",
            TokenKind::Var => "var",
            TokenKind::Import => "import",
            TokenKind::As => "as",
            TokenKind::True => "true",
            TokenKind::False => "false",
            TokenKind::Identifier(_) => "identifier",
            TokenKind::Integer(_) => "integer",
            TokenKind::Number(_) => "number",
            TokenKind::StringLiteral(_) => "string literal",
            TokenKind::LParen => "'('",
            TokenKind::RParen => "')'",
            TokenKind::LBrace => "'{'",
            TokenKind::RBrace => "'}'",
            TokenKind::Comma => "','",
            TokenKind::Semicolon => "';'",
            TokenKind::Dot => "'.'",
            TokenKind::Plus => "'+'",
            TokenKind::Minus => "'-'",
            TokenKind::Star => "'*'",
            TokenKind::Slash => "'/'",
            TokenKind::Percent => "'%'",
            TokenKind::Bang => "'!'",
            TokenKind::Equal => "'='",
            TokenKind::EqualEqual => "'=='",
            TokenKind::BangEqual => "'!='",
            TokenKind::Less => "'<'",
            TokenKind::LessEqual => "'<='",
            TokenKind::Greater => "'>'",
            TokenKind::GreaterEqual => "'>='",
            TokenKind::AndAnd => "'&&'",
            TokenKind::OrOr => "'||'",
            TokenKind::Eof => "end of file",
        };
        String::from_str(name)
    }
}

/// An outcome of the parser that agrees with the grammar's: the same
/// expression and position, or the same message.
pub open spec fn agrees_expr(r: Result<(Expr, usize), ApexError>, s: Result<(ExprV, int), Seq<char>>) -> bool {
    match s {
        Ok((e, q)) => r matches Ok((x, q2)) && expr_v(x) == e && q2 == q,
        Err(m) => r matches Err(x) && x@ == m,
    }
}

/// A call by its values: the callee's value and the arguments' values.
proof fn lemma_call_view(c: Expr, args: Vec<Expr>)
    ensures
        expr_v(Expr::Call { callee: Box::new(c), arguments: args }) == ExprV::Call(Box::new(expr_v(c)), exprs_v(args@)),
{
    let e = Expr::Call { callee: Box::new(c), arguments: args };
    match expr_v(e) {
        ExprV::Call(b, s) => {
            assert(s =~= exprs_v(args@));
        },
        _ => {},
    }
}

/// The operator of a token kind at a level of precedence.
fn op_of(level: u8, k: &TokenKind) -> (r: Option<BinaryOp>)
    ensures
        r == op_at(level as nat, k@),
{
    match k {
        TokenKind::OrOr => if level == 0 { Some(BinaryOp::Or) } else { None },
        TokenKind::AndAnd => if level == 1 { Some(BinaryOp::And) } else { None },
        TokenKind::EqualEqual => if level == 2 { Some(BinaryOp::Eq) } else { None },
        TokenKind::BangEqual => if level == 2 { Some(BinaryOp::Ne) } else { None },
        TokenKind::Less => if level == 3 { Some(BinaryOp::Lt) } else { None },
        TokenKind::LessEqual => if level == 3 { Some(BinaryOp::Le) } else { None },
        TokenKind::Greater => if level == 3 { Some(BinaryOp::Gt) } else { None },
        TokenKind::GreaterEqual => if level == 3 { Some(BinaryOp::Ge) } else { None },
        TokenKind::Plus => if level == 4 { Some(BinaryOp::Add) } else { None },
        TokenKind::Minus => if level == 4 { Some(BinaryOp::Sub) } else { None },
        TokenKind::Star => if level == 5 { Some(BinaryOp::Mul) } else { None },
        TokenKind::Slash => if level == 5 { Some(BinaryOp::Div) } else { None },
        TokenKind::Percent => if level == 5 { Some(BinaryOp::Mod) } else { None },
        _ => None,
    }
}

/// A parser over the tokens of one source text.
pub struct Parser {
    tokens: Vec<Token>,
    current: usize,
}

impl Parser {
    /// The tokens by their values.
    pub closed spec fn ts(&self) -> Seq<Tok> {
        toks(self.tokens@)
    }

    /// The tokens are as the lexer gives them.
    pub closed spec fn wf(&self) -> bool {
        tokens_wf(self.ts()) && self.ts().len() <= usize::MAX
    }

    /// The error at token `p`, with its line, column and text
    fn error_here(&self, p: usize, message: &str) -> (e: ApexError)
        requires
            p < self.ts().len(),
        ensures
            e@ == err_at(self.ts(), p as int, message@),
    {
        let token = &self.tokens[p];
        let mut s = String::from_str(message);
        append_at(&mut s, token.line, token.column);
        s.append(" near ");
        let ghost before = s@;
        if matches!(token.kind, TokenKind::Eof) {
            s.append("end of file");
        } else if token.lexeme.as_str().is_empty() {
            let name = token.kind_name();
            s.append(name.as_str());
        } else {
            s.append("'");
            s.append(token.lexeme.as_str());
            s.append("'");
        }
        proof {
            assert(self.ts()[p as int] == token@);
            assert(s@ =~= before + near(token@));
        }
        ApexError::new(s)
    }

    /// The name of the identifier at `p`
    fn identifier_at(&self, p: usize) -> (r: Option<String>)
        requires
            p < self.ts().len(),
        ensures
            match ident_at(self.ts(), p as int) {
                Some(n) => r matches Some(s) && s@ == n,
                None => r is None,
            },
    {
        proof {
            assert(self.ts()[p as int] == self.tokens@[p as int]@);
        }
        match &self.tokens[p].kind {
            TokenKind::Identifier(name) => Some(name.clone()),
            _ => None,
        }
    }

    /// The kind of token `p` by its value.
    proof fn lemma_kind(&self, p: int)
        requires
            0 <= p < self.ts().len(),
        ensures
            self.ts()[p] == self.tokens@[p]@,
            self.ts()[p].kind == self.tokens@[p].kind@,
            self.ts().len() == self.tokens@.len(),
    {
    }

    /// An expression from `p`
    fn parse_expression(&self, p: usize) -> (r: Result<(Expr, usize), ApexError>)
        requires
            self.wf(),
            p < self.ts().len(),
        ensures
            agrees_expr(r, expr_at(self.ts(), p as int)),
            r matches Ok((_, q)) ==> p < q < self.ts().len(),
        decreases self.ts().len() - p, 12int,
    {
        self.parse_level(p, 0)
    }

    /// An expression at a level of precedence from `p`: operands of the
    /// next level joined from the left by this level's operators
    fn parse_level(&self, p: usize, level: u8) -> (r: Result<(Expr, usize), ApexError>)
        requires
            self.wf(),
            p < self.ts().len(),
            level <= 6,
        ensures
            agrees_expr(r, level_at(self.ts(), p as int, level as nat)),
            r matches Ok((_, q)) ==> p < q < self.ts().len(),
        decreases self.ts().len() - p, crate::apexlang::grammar::level_rank(level as nat),
    {
        if level >= 6 {
            return self.parse_unary(p);
        }
        let (mut left, mut q) = match self.parse_level(p, level + 1) {
            Ok(x) => x,
            Err(e) => return Err(e),
        };
        loop
            invariant
                self.wf(),
                p < q < self.ts().len(),
                level < 6,
                level_at(self.ts(), p as int, level as nat) == level_rest(self.ts(), q as int, level as nat, expr_v(left)),
            decreases self.ts().len() - q,
        {
            proof {
                self.lemma_kind(q as int);
            }
            match op_of(level, &self.tokens[q].kind) {
                None => return Ok((left, q)),
                Some(op) => {
                    proof {
                        lemma_next_token(self.ts(), q as int);
                    }
                    match self.parse_level(q + 1, level + 1) {
                        Ok((right, q2)) => {
                            left = Expr::Binary(Box::new(left), op, Box::new(right));
                            q = q2;
                        },
                        Err(e) => return Err(e),
                    }
                },
            }
        }
    }

    /// A unary expression from `p`
    fn parse_unary(&self, p: usize) -> (r: Result<(Expr, usize), ApexError>)
        requires
            self.wf(),
            p < self.ts().len(),
        ensures
            agrees_expr(r, unary_at(self.ts(), p as int)),
            r matches Ok((_, q)) ==> p < q < self.ts().len(),
        decreases self.ts().len() - p, 3int,
    {
        proof {
            self.lemma_kind(p as int);
        }
        let op = match &self.tokens[p].kind {
            TokenKind::Bang => Some(UnaryOp::Not),
            TokenKind::Plus => Some(UnaryOp::Plus),
            TokenKind::Minus => Some(UnaryOp::Minus),
            _ => None,
        };
        match op {
            Some(o) => {
                proof {
                    lemma_next_token(self.ts(), p as int);
                }
                match self.parse_unary(p + 1) {
                    Ok((e, q)) => Ok((Expr::Unary(o, Box::new(e)), q)),
                    Err(e) => Err(e),
                }
            },
            None => self.parse_call(p),
        }
    }

    /// A primary expression from `p` and the argument lists after it
    fn parse_call(&self, p: usize) -> (r: Result<(Expr, usize), ApexError>)
        requires
            self.wf(),
            p < self.ts().len(),
        ensures
            agrees_expr(r, call_at(self.ts(), p as int)),
            r matches Ok((_, q)) ==> p < q < self.ts().len(),
        decreases self.ts().len() - p, 2int,
    {
        let (mut callee, mut q) = match self.parse_primary(p) {
            Ok(x) => x,
            Err(e) => return Err(e),
        };
        loop
            invariant
                self.wf(),
                p < q < self.ts().len(),
                call_at(self.ts(), p as int) == call_rest(self.ts(), q as int, expr_v(callee)),
            decreases self.ts().len() - q,
        {
            proof {
                self.lemma_kind(q as int);
            }
            if !matches!(self.tokens[q].kind, TokenKind::LParen) {
                return Ok((callee, q));
            }
            proof {
                lemma_next_token(self.ts(), q as int);
                self.lemma_kind(q + 1);
            }
            if matches!(self.tokens[q + 1].kind, TokenKind::RParen) {
                proof {
                    lemma_next_token(self.ts(), q + 1);
                }
                let arguments: Vec<Expr> = Vec::new();
                proof {
                    assert(exprs_v(arguments@) =~= Seq::<ExprV>::empty());
                    lemma_call_view(callee, arguments);
                }
                callee = Expr::Call { callee: Box::new(callee), arguments };
                q = q + 2;
            } else {
                match self.parse_arguments(q + 1) {
                    Ok((arguments, after)) => {
                        proof {
                            self.lemma_kind(after as int);
                        }
                        if matches!(self.tokens[after].kind, TokenKind::RParen) {
                            proof {
                                lemma_next_token(self.ts(), after as int);
                            }
                            proof {
                                lemma_call_view(callee, arguments);
                            }
                            callee = Expr::Call { callee: Box::new(callee), arguments };
                            q = after + 1;
                        } else {
                            return Err(self.error_here(after, "Expected ')' after arguments"));
                        }
                    },
                    Err(e) => return Err(e),
                }
            }
        }
    }

    /// Arguments separated by commas from `p`
    fn parse_arguments(&self, p: usize) -> (r: Result<(Vec<Expr>, usize), ApexError>)
        requires
            self.wf(),
            p < self.ts().len(),
        ensures
            match args_at(self.ts(), p as int, Seq::empty()) {
                Ok((es, q)) => r matches Ok((v, q2)) && exprs_v(v@) == es && q2 == q,
                Err(m) => r matches Err(x) && x@ == m,
            },
            r matches Ok((_, q)) ==> p < q < self.ts().len(),
        decreases self.ts().len() - p, 13int,
    {
        let mut arguments: Vec<Expr> = Vec::new();
        let mut q = p;
        proof {
            assert(exprs_v(arguments@) =~= Seq::<ExprV>::empty());
        }
        loop
            invariant
                self.wf(),
                p <= q < self.ts().len(),
                args_at(self.ts(), p as int, Seq::empty()) == args_at(self.ts(), q as int, exprs_v(arguments@)),
            decreases self.ts().len() - q,
        {
            match self.parse_expression(q) {
                Ok((e, after)) => {
                    let ghost ev = expr_v(e);
                    let ghost before = exprs_v(arguments@);
                    arguments.push(e);
                    proof {
                        assert(exprs_v(arguments@) =~= before.push(ev));
                        self.lemma_kind(after as int);
                    }
                    if matches!(self.tokens[after].kind, TokenKind::Comma) {
                        proof {
                            lemma_next_token(self.ts(), after as int);
                        }
                        q = after + 1;
                    } else {
                        return Ok((arguments, after));
                    }
                },
                Err(e) => return Err(e),
            }
        }
    }

    /// A literal, a parenthesised expression or a path from `p`
    fn parse_primary(&self, p: usize) -> (r: Result<(Expr, usize), ApexError>)
        requires
            self.wf(),
            p < self.ts().len(),
        ensures
            agrees_expr(r, primary_at(self.ts(), p as int)),
            r matches Ok((_, q)) ==> p < q < self.ts().len(),
        decreases self.ts().len() - p, 1int,
    {
        proof {
            self.lemma_kind(p as int);
        }
        match &self.tokens[p].kind {
            TokenKind::Number(v) => {
                proof {
                    lemma_next_token(self.ts(), p as int);
                }
                Ok((Expr::Literal(Value::Number(v.clone())), p + 1))
            },
            TokenKind::Integer(v) => {
                proof {
                    lemma_next_token(self.ts(), p as int);
                }
                Ok((Expr::Literal(Value::Int(v.clone())), p + 1))
            },
            TokenKind::StringLiteral(v) => {
                proof {
                    lemma_next_token(self.ts(), p as int);
                }
                Ok((Expr::Literal(Value::String(v.clone())), p + 1))
            },
            TokenKind::True => {
                proof {
                    lemma_next_token(self.ts(), p as int);
                }
                Ok((Expr::Literal(Value::Bool(true)), p + 1))
            },
            TokenKind::False => {
                proof {
                    lemma_next_token(self.ts(), p as int);
                }
                Ok((Expr::Literal(Value::Bool(false)), p + 1))
            },
            TokenKind::LParen => {
                proof {
                    lemma_next_token(self.ts(), p as int);
                }
                match self.parse_expression(p + 1) {
                    Ok((e, q)) => {
                        proof {
                            self.lemma_kind(q as int);
                        }
                        if matches!(self.tokens[q].kind, TokenKind::RParen) {
                            proof {
                                lemma_next_token(self.ts(), q as int);
                            }
                            Ok((e, q + 1))
                        } else {
                            Err(self.error_here(q, "Expected ')' after expression"))
                        }
                    },
                    Err(e) => Err(e),
                }
            },
            TokenKind::Identifier(first) => {
                proof {
                    lemma_next_token(self.ts(), p as int);
                }
                let mut segments: Vec<String> = Vec::new();
                segments.push(first.clone());
                let mut q = p + 1;
                proof {
                    assert(texts(segments@) =~= seq![first@]);
                }
                loop
                    invariant
                        self.wf(),
                        p < q < self.ts().len(),
                        self.ts()[p as int].kind == Kind::Identifier(first@),
                        path_rest(self.ts(), p + 1, seq![first@]) == path_rest(self.ts(), q as int, texts(segments@)),
                    decreases self.ts().len() - q,
                {
                    proof {
                        self.lemma_kind(q as int);
                    }
                    if !matches!(self.tokens[q].kind, TokenKind::Dot) {
                        let path = Path::join(segments);
                        return Ok((Expr::Path(path), q));
                    }
                    proof {
                        lemma_next_token(self.ts(), q as int);
                    }
                    match self.identifier_at(q + 1) {
                        Some(name) => {
                            proof {
                                lemma_next_token(self.ts(), q + 1);
                            }
                            let ghost before = texts(segments@);
                            segments.push(name);
                            proof {
                                assert(texts(segments@) =~= before.push(name@));
                            }
                            q = q + 2;
                        },
                        None => return Err(self.error_here(q + 1, "Expected identifier after '.'")),
                    }
                }
            },
            _ => Err(self.error_here(p, "Expected expression")),
        }
    }

    /// The position after a `;` at `q`, or the error there
    fn expect_semicolon(&self, q: usize, message: &str) -> (r: Result<usize, ApexError>)
        requires
            self.wf(),
            q < self.ts().len(),
        ensures
            self.ts()[q as int].kind is Semicolon ==> r == Ok::<usize, ApexError>((q + 1) as usize) && q + 1 < self.ts().len(),
            !(self.ts()[q as int].kind is Semicolon) ==> (r matches Err(e) && e@ == err_at(self.ts(), q as int, message@)),
    {
        proof {
            self.lemma_kind(q as int);
        }
        if matches!(self.tokens[q].kind, TokenKind::Semicolon) {
            proof {
                lemma_next_token(self.ts(), q as int);
            }
            Ok(q + 1)
        } else {
            Err(self.error_here(q, message))
        }
    }

    /// An expression from `p` closed by a `;`
    fn parse_closed_expression(&self, p: usize, message: &str) -> (r: Result<(Expr, usize), ApexError>)
        requires
            self.wf(),
            p < self.ts().len(),
        ensures
            agrees_expr(r, closed_expr(self.ts(), p as int, message@)),
            r matches Ok((_, q)) ==> p < q < self.ts().len(),
    {
        match self.parse_expression(p) {
            Ok((e, q)) => match self.expect_semicolon(q, message) {
                Ok(after) => Ok((e, after)),
                Err(err) => Err(err),
            },
            Err(err) => Err(err),
        }
    }

    /// The rest of a `let` or `var` declaration from `p`
    fn parse_variable_declaration(&self, p: usize, mutable: bool) -> (r: Result<(Statement, usize), ApexError>)
        requires
            self.wf(),
            p < self.ts().len(),
        ensures
            match declaration_at(self.ts(), p as int, mutable) {
                Ok((st, q)) => r matches Ok((x, q2)) && statement_v(x) == st && q2 == q,
                Err(m) => r matches Err(x) && x@ == m,
            },
            r matches Ok((_, q)) ==> p < q < self.ts().len(),
    {
        let name = match self.identifier_at(p) {
            Some(n) => n,
            None => return Err(self.error_here(p, "Expected variable name")),
        };
        proof {
            self.lemma_kind(p as int);
            lemma_next_token(self.ts(), p as int);
            self.lemma_kind(p + 1);
        }
        if !matches!(self.tokens[p + 1].kind, TokenKind::Equal) {
            return Err(self.error_here(p + 1, "Expected '=' after variable name"));
        }
        proof {
            lemma_next_token(self.ts(), p + 1);
        }
        match self.parse_closed_expression(p + 2, "Expected ';' after variable declaration") {
            Ok((value, q)) => Ok((Statement::Let { name, mutable, value }, q)),
            Err(e) => Err(e),
        }
    }

    /// Whether an assignment starts at `p`: a name and then `=`
    fn is_assignment_start(&self, p: usize) -> (b: bool)
        requires
            self.wf(),
            p < self.ts().len(),
        ensures
            b == (ident_at(self.ts(), p as int) is Some && self.ts()[p + 1].kind is Equal),
            b ==> p + 2 < self.ts().len(),
    {
        proof {
            self.lemma_kind(p as int);
        }
        if !matches!(self.tokens[p].kind, TokenKind::Identifier(_)) {
            return false;
        }
        proof {
            lemma_next_token(self.ts(), p as int);
            self.lemma_kind(p + 1);
        }
        let b = matches!(self.tokens[p + 1].kind, TokenKind::Equal);
        proof {
            if b {
                lemma_next_token(self.ts(), p + 1);
            }
        }
        b
    }

    /// A statement from `p`
    fn parse_statement(&self, p: usize) -> (r: Result<(Statement, usize), ApexError>)
        requires
            self.wf(),
            p < self.ts().len(),
        ensures
            match statement_at(self.ts(), p as int) {
                Ok((st, q)) => r matches Ok((x, q2)) && statement_v(x) == st && q2 == q,
                Err(m) => r matches Err(x) && x@ == m,
            },
            r matches Ok((_, q)) ==> p < q < self.ts().len(),
    {
        proof {
            self.lemma_kind(p as int);
            reveal(statement_at);
        }
        if matches!(self.tokens[p].kind, TokenKind::Return) {
            proof {
                lemma_next_token(self.ts(), p as int);
            }
            return match self.parse_closed_expression(p + 1, "Expected ';' after return expression") {
                Ok((e, q)) => Ok((Statement::Return(e), q)),
                Err(e) => Err(e),
            };
        }
        if matches!(self.tokens[p].kind, TokenKind::Let) {
            proof {
                lemma_next_token(self.ts(), p as int);
            }
            return self.parse_variable_declaration(p + 1, false);
        }
        if matches!(self.tokens[p].kind, TokenKind::Var) {
            proof {
                lemma_next_token(self.ts(), p as int);
            }
            return self.parse_variable_declaration(p + 1, true);
        }
        if self.is_assignment_start(p) {
            let name = match self.identifier_at(p) {
                Some(n) => n,
                None => return Err(self.error_here(p, "Expected variable name")),
            };
            return match self.parse_closed_expression(p + 2, "Expected ';' after assignment") {
                Ok((value, q)) => Ok((Statement::Assignment { name, value }, q)),
                Err(e) => Err(e),
            };
        }
        match self.parse_closed_expression(p, "Expected ';' after expression") {
            Ok((e, q)) => Ok((Statement::Expr(e), q)),
            Err(e) => Err(e),
        }
    }

    /// Parameter names separated by commas from `p`
    fn parse_parameters(&self, p: usize) -> (r: Result<(Vec<String>, usize), ApexError>)
        requires
            self.wf(),
            p < self.ts().len(),
        ensures
            match params_at(self.ts(), p as int, Seq::empty()) {
                Ok((ns, q)) => r matches Ok((v, q2)) && texts(v@) == ns && q2 == q,
                Err(m) => r matches Err(x) && x@ == m,
            },
            r matches Ok((_, q)) ==> p < q < self.ts().len(),
    {
        let mut params: Vec<String> = Vec::new();
        let mut q = p;
        proof {
            assert(texts(params@) =~= Seq::<Seq<char>>::empty());
        }
        loop
            invariant
                self.wf(),
                p <= q < self.ts().len(),
                params_at(self.ts(), p as int, Seq::empty()) == params_at(self.ts(), q as int, texts(params@)),
            decreases self.ts().len() - q,
        {
            let name = match self.identifier_at(q) {
                Some(n) => n,
                None => return Err(self.error_here(q, "Expected parameter name")),
            };
            proof {
                self.lemma_kind(q as int);
                lemma_next_token(self.ts(), q as int);
                self.lemma_kind(q + 1);
            }
            let ghost before = texts(params@);
            params.push(name);
            proof {
                assert(texts(params@) =~= before.push(name@));
            }
            if matches!(self.tokens[q + 1].kind, TokenKind::Comma) {
                proof {
                    lemma_next_token(self.ts(), q + 1);
                }
                q = q + 2;
            } else {
                return Ok((params, q + 1));
            }
        }
    }

    /// A function declaration from `p`
    fn parse_function(&self, p: usize) -> (r: Result<(Function, usize), ApexError>)
        requires
            self.wf(),
            p < self.ts().len(),
        ensures
            match function_at(self.ts(), p as int) {
                Ok((fv, q)) => r matches Ok((x, q2)) && function_v(x) == fv && q2 == q,
                Err(m) => r matches Err(x) && x@ == m,
            },
            r matches Ok((_, q)) ==> p < q < self.ts().len(),
    {
        proof {
            self.lemma_kind(p as int);
            reveal(function_at);
        }
        if !matches!(self.tokens[p].kind, TokenKind::Fn) {
            return Err(self.error_here(p, "Expected 'fn' at the start of a function"));
        }
        proof {
            lemma_next_token(self.ts(), p as int);
        }
        let name = match self.identifier_at(p + 1) {
            Some(n) => n,
            None => return Err(self.error_here(p + 1, "Expected function name after 'fn'")),
        };
        proof {
            self.lemma_kind(p + 1);
            lemma_next_token(self.ts(), p + 1);
            self.lemma_kind(p + 2);
        }
        if !matches!(self.tokens[p + 2].kind, TokenKind::LParen) {
            return Err(self.error_here(p + 2, "Expected '(' after function name"));
        }
        proof {
            lemma_next_token(self.ts(), p + 2);
            self.lemma_kind(p + 3);
        }
        let (params, q) = if matches!(self.tokens[p + 3].kind, TokenKind::RParen) {
            let none: Vec<String> = Vec::new();
            proof {
                assert(texts(none@) =~= Seq::<Seq<char>>::empty());
            }
            (none, p + 3)
        } else {
            match self.parse_parameters(p + 3) {
                Ok(x) => x,
                Err(e) => return Err(e),
            }
        };
        assert(param_list_at(self.ts(), p + 3) == Ok::<(Seq<Seq<char>>, int), Seq<char>>((texts(params@), q as int)));
        proof {
            self.lemma_kind(q as int);
        }
        if !matches!(self.tokens[q].kind, TokenKind::RParen) {
            return Err(self.error_here(q, "Expected ')' after function parameters"));
        }
        proof {
            lemma_next_token(self.ts(), q as int);
            self.lemma_kind(q + 1);
        }
        if !matches!(self.tokens[q + 1].kind, TokenKind::LBrace) {
            return Err(self.error_here(q + 1, "Expected '{' to start function body"));
        }
        proof {
            lemma_next_token(self.ts(), q + 1);
        }
        let start = q + 2;
        let mut body: Vec<Statement> = Vec::new();
        let mut r = start;
        proof {
            assert(body@.map_values(|s: Statement| statement_v(s)) =~= Seq::<StatementV>::empty());
        }
        while !matches!(self.tokens[r].kind, TokenKind::RBrace) && !matches!(self.tokens[r].kind, TokenKind::Eof)
            invariant
                self.wf(),
                start == q + 2,
                start <= r < self.ts().len(),
                self.ts()[q as int].kind is RParen,
                self.ts()[q + 1].kind is LBrace,
                function_at(self.ts(), p as int) == function_body_at(self.ts(), q as int, name@, texts(params@)),
                body_at(self.ts(), start as int, Seq::empty()) == body_at(self.ts(), r as int, body@.map_values(|s: Statement| statement_v(s))),
            decreases self.ts().len() - r,
        {
            proof {
                self.lemma_kind(r as int);
            }
            match self.parse_statement(r) {
                Ok((st, after)) => {
                    let ghost before = body@.map_values(|s: Statement| statement_v(s));
                    let ghost sv = statement_v(st);
                    body.push(st);
                    proof {
                        assert(body@.map_values(|s: Statement| statement_v(s)) =~= before.push(sv));
                    }
                    r = after;
                },
                Err(e) => return Err(e),
            }
        }
        proof {
            self.lemma_kind(r as int);
        }
        if !matches!(self.tokens[r].kind, TokenKind::RBrace) {
            return Err(self.error_here(r, "Expected '}' to end function body"));
        }
        proof {
            lemma_next_token(self.ts(), r as int);
        }
        Ok((Function { name, params, body }, r + 1))
    }

    /// An optional `as alias` from `p`, then the `;` that ends an import
    fn parse_alias(&self, p: usize) -> (r: Result<(Option<String>, usize), ApexError>)
        requires
            self.wf(),
            p < self.ts().len(),
        ensures
            match alias_at(self.ts(), p as int) {
                Ok((a, q)) => r matches Ok((x, q2)) && opt_text(x) == a && q2 == q,
                Err(m) => r matches Err(x) && x@ == m,
            },
            r matches Ok((_, q)) ==> p < q < self.ts().len(),
    {
        proof {
            self.lemma_kind(p as int);
        }
        if matches!(self.tokens[p].kind, TokenKind::As) {
            proof {
                lemma_next_token(self.ts(), p as int);
            }
            let alias = match self.identifier_at(p + 1) {
                Some(a) => a,
                None => return Err(self.error_here(p + 1, "Expected alias name after 'as'")),
            };
            proof {
                self.lemma_kind(p + 1);
                lemma_next_token(self.ts(), p + 1);
            }
            match self.expect_semicolon(p + 2, "Expected ';' after import statement") {
                Ok(q) => Ok((Some(alias), q)),
                Err(e) => Err(e),
            }
        } else {
            match self.expect_semicolon(p, "Expected ';' after import statement") {
                Ok(q) => Ok((None, q)),
                Err(e) => Err(e),
            }
        }
    }

    /// An import clause from `p`, after the `import` keyword
    fn parse_import_clause(&self, p: usize) -> (r: Result<(Import, usize), ApexError>)
        requires
            self.wf(),
            p < self.ts().len(),
        ensures
            match import_at(self.ts(), p as int) {
                Ok((iv, q)) => r matches Ok((x, q2)) && import_v(x) == iv && q2 == q,
                Err(m) => r matches Err(x) && x@ == m,
            },
            r matches Ok((_, q)) ==> p < q < self.ts().len(),
    {
        proof {
            reveal(import_at);
        }
        let module = match self.identifier_at(p) {
            Some(m) => m,
            None => return Err(self.error_here(p, "Expected module name after 'import'")),
        };
        proof {
            self.lemma_kind(p as int);
            lemma_next_token(self.ts(), p as int);
            self.lemma_kind(p + 1);
        }
        if matches!(self.tokens[p + 1].kind, TokenKind::Dot) {
            proof {
                lemma_next_token(self.ts(), p + 1);
            }
            let symbol = match self.identifier_at(p + 2) {
                Some(s) => s,
                None => return Err(self.error_here(p + 2, "Expected symbol name after '.' in import")),
            };
            proof {
                self.lemma_kind(p + 2);
                lemma_next_token(self.ts(), p + 2);
            }
            match self.parse_alias(p + 3) {
                Ok((alias, q)) => Ok((Import { kind: ImportKind::Symbol { module, symbol, alias } }, q)),
                Err(e) => Err(e),
            }
        } else {
            match self.parse_alias(p + 1) {
                Ok((alias, q)) => Ok((Import { kind: ImportKind::Module { name: module, alias } }, q)),
                Err(e) => Err(e),
            }
        }
    }

    /// The program the tokens spell, read from the parser's position
    fn parse_program(&mut self) -> (r: Result<Program, ApexError>)
        requires
            old(self).wf(),
            old(self).current == 0,
        ensures
            match program_of(old(self).ts()) {
                Ok(pv) => r matches Ok(x) && program_v(x) == pv,
                Err(m) => r matches Err(x) && x@ == m,
            },
    {
        proof {
            self.lemma_kind(0);
        }
        let mut p = self.current;
        let mut imports: Vec<Import> = Vec::new();
        proof {
            assert(imports@.map_values(|i: Import| import_v(i)) =~= Seq::<ImportV>::empty());
        }
        while matches!(self.tokens[p].kind, TokenKind::Import)
            invariant
                self.wf(),
                p < self.ts().len(),
                program_of(self.ts()) == imports_at(self.ts(), p as int, imports@.map_values(|i: Import| import_v(i))),
            decreases self.ts().len() - p,
        {
            proof {
                self.lemma_kind(p as int);
                lemma_next_token(self.ts(), p as int);
            }
            match self.parse_import_clause(p + 1) {
                Ok((import, q)) => {
                    let ghost before = imports@.map_values(|i: Import| import_v(i));
                    let ghost iv = import_v(import);
                    imports.push(import);
                    proof {
                        assert(imports@.map_values(|i: Import| import_v(i)) =~= before.push(iv));
                    }
                    p = q;
                },
                Err(e) => return Err(e),
            }
        }
        proof {
            self.lemma_kind(p as int);
        }
        let ghost start = p as int;
        let ghost imported = imports@.map_values(|i: Import| import_v(i));
        let mut functions: Vec<Function> = Vec::new();
        proof {
            assert(functions@.map_values(|f: Function| function_v(f)) =~= Seq::<FunctionV>::empty());
        }
        while !matches!(self.tokens[p].kind, TokenKind::Eof)
            invariant
                self.wf(),
                start <= p < self.ts().len(),
                imported == imports@.map_values(|i: Import| import_v(i)),
                program_of(self.ts()) == match functions_at(self.ts(), start, Seq::empty()) {
                    Ok(fs) => Ok(ProgramV { imports: imported, functions: fs }),
                    Err(m) => Err::<ProgramV, Seq<char>>(m),
                },
                functions_at(self.ts(), start, Seq::empty()) == functions_at(self.ts(), p as int, functions@.map_values(|f: Function| function_v(f))),
            decreases self.ts().len() - p,
        {
            proof {
                self.lemma_kind(p as int);
            }
            match self.parse_function(p) {
                Ok((function, q)) => {
                    let ghost before = functions@.map_values(|f: Function| function_v(f));
                    let ghost fv = function_v(function);
                    functions.push(function);
                    proof {
                        assert(functions@.map_values(|f: Function| function_v(f)) =~= before.push(fv));
                    }
                    p = q;
                },
                Err(e) => return Err(e),
            }
        }
        self.current = p;
        Ok(Program { imports, functions })
    }

    /// The program of a source text, or the error of its lexing or parsing
    pub fn parse(source: &str) -> (r: Result<Program, ApexError>)
        requires
            source@.len() < usize::MAX,
        ensures
            match parse_spec(source@) {
                Ok(pv) => r matches Ok(x) && program_v(x) == pv,
                Err(m) => r matches Err(x) && x@ == m,
            },
    {
        let tokens = match lex(source) {
            Ok(t) => t,
            Err(e) => return Err(e),
        };
        proof {
            lemma_lex_tokens_wf(source@);
        }
        let n = tokens.len();
        let mut parser = Parser { tokens, current: 0 };
        assert(parser.ts().len() == n);
        parser.parse_program()
    }
}

} // verus!
