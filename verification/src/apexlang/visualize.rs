//! Drawing ApexLang syntax trees as Graphviz graphs.
//!
//! Nodes are numbered in the order they are added, depth first: the
//! program, then each import with its description, then each function with
//! its statements and their expressions. Edges are written after the nodes,
//! in the order they are added.

use vstd::prelude::*;
use crate::apexlang::ast::{
    expr_v, function_v, import_v, program_v, statement_v, value_text, value_v, BinaryOp, Expr,
    ExprV, Function, FunctionV, Import, ImportKind, ImportV, Program, ProgramV, Statement,
    StatementV, UnaryOp,
};
use crate::apexlang::error::ApexError;
use crate::apexlang::grammar::{lemma_lex_single_token, op_at, parse_spec};
use crate::apexlang::lexer::{lex_spec, Kind, Tok};
use crate::apexlang::parser::Parser;
use crate::text::{append_decimal, chars_of, decimal, join_strings, join_with, push_char, views};

verus! {

/// A graph being drawn: the labels of its nodes, a node's number being its
/// index, and its edges, each in the order they were added.
pub struct Dot {
    pub labels: Seq<Seq<char>>,
    pub edges: Seq<(nat, nat)>,
}

/// The graph with one more node.
pub open spec fn with_node(d: Dot, label: Seq<char>) -> Dot {
    Dot { labels: d.labels.push(label), edges: d.edges }
}

/// The graph with one more edge.
pub open spec fn with_edge(d: Dot, from: nat, to: nat) -> Dot {
    Dot { labels: d.labels, edges: d.edges.push((from, to)) }
}

/// The symbol of a prefix operator.
pub open spec fn unary_text(op: UnaryOp) -> Seq<char> {
    match op {
        UnaryOp::Plus => "+"@,
        UnaryOp::Minus => "-"@,
        UnaryOp::Not => "!"@,
    }
}

/// The symbol of an infix operator.
pub open spec fn binary_text(op: BinaryOp) -> Seq<char> {
    match op {
        BinaryOp::Add => "+"@,
        BinaryOp::Sub => "-"@,
        BinaryOp::Mul => "*"@,
        BinaryOp::Div => "/"@,
        BinaryOp::Mod => "%"@,
        BinaryOp::Eq => "=="@,
        BinaryOp::Ne => "!="@,
        BinaryOp::Lt => "<"@,
        BinaryOp::Le => "<="@,
        BinaryOp::Gt => ">"@,
        BinaryOp::Ge => ">="@,
        BinaryOp::And => "&&"@,
        BinaryOp::Or => "||"@,
    }
}

/// The graph with an expression's nodes and edges added, and the number of
/// the expression's node.
pub open spec fn expr_dot(d: Dot, e: ExprV) -> (Dot, nat)
    decreases e,
{
    let id = d.labels.len();
    match e {
        ExprV::Literal(v) => (with_node(d, "Literal: "@ + value_text(v)), id),
        ExprV::Path(segs) => (with_node(d, "Path: "@ + join_with(segs, "::"@)), id),
        ExprV::Unary(op, inner) => {
            let (d1, c) = expr_dot(with_node(d, "Unary: "@ + unary_text(op)), *inner);
            (with_edge(d1, id, c), id)
        },
        ExprV::Binary(l, op, r) => {
            let (d1, lc) = expr_dot(with_node(d, "Binary: "@ + binary_text(op)), *l);
            let (d2, rc) = expr_dot(d1, *r);
            (with_edge(with_edge(d2, id, lc), id, rc), id)
        },
        ExprV::Call(callee, args) => {
            let (d1, c) = expr_dot(with_node(d, "Call"@), *callee);
            (args_dot(with_edge(d1, id, c), id, args), id)
        },
    }
}

/// The graph with the arguments of the call `call` added, each under an
/// "arg #n" node.
pub open spec fn args_dot(d: Dot, call: nat, args: Seq<ExprV>) -> Dot
    decreases args,
{
    if args.len() == 0 {
        d
    } else {
        let d1 = args_dot(d, call, args.drop_last());
        let label = d1.labels.len();
        let (d2, a) = expr_dot(with_node(d1, "arg #"@ + decimal(args.len())), args.last());
        with_edge(with_edge(d2, call, label), label, a)
    }
}

/// The label of a statement's node, and the expression under it.
pub open spec fn statement_parts(s: StatementV) -> (Seq<char>, ExprV) {
    match s {
        StatementV::Let { name, mutable, value } => (
            if mutable { "var "@ + name } else { "let "@ + name },
            value,
        ),
        StatementV::Assignment { name, value } => ("assign "@ + name, value),
        StatementV::Expr(e) => ("expr"@, e),
        StatementV::Return(e) => ("return"@, e),
    }
}

/// The graph with a statement added, and the number of its node.
pub open spec fn statement_dot(d: Dot, s: StatementV) -> (Dot, nat) {
    let id = d.labels.len();
    let (label, e) = statement_parts(s);
    let (d1, c) = expr_dot(with_node(d, label), e);
    (with_edge(d1, id, c), id)
}

/// The graph with statements added under the function node `f`.
pub open spec fn statements_dot(d: Dot, f: nat, body: Seq<StatementV>) -> Dot
    decreases body.len(),
{
    if body.len() == 0 {
        d
    } else {
        let (d1, s) = statement_dot(statements_dot(d, f, body.drop_last()), body.last());
        with_edge(d1, f, s)
    }
}

/// The label of a function's node: `fn name(a, b)`.
pub open spec fn function_label(f: FunctionV) -> Seq<char> {
    "fn "@ + f.name + "("@ + join_with(f.params, ", "@) + ")"@
}

/// The graph with a function added, and the number of its node.
pub open spec fn function_dot(d: Dot, f: FunctionV) -> (Dot, nat) {
    let id = d.labels.len();
    (statements_dot(with_node(d, function_label(f)), id, f.body), id)
}

/// How an import is described.
pub open spec fn import_text(i: ImportV) -> Seq<char> {
    match i {
        ImportV::Module { name, alias } => match alias {
            Some(a) => "module "@ + name + " as "@ + a,
            None => "module "@ + name,
        },
        ImportV::Symbol { module, symbol, alias } => match alias {
            Some(a) => "symbol "@ + module + "::"@ + symbol + " as "@ + a,
            None => "symbol "@ + module + "::"@ + symbol,
        },
    }
}

/// The graph with imports added under the root node: an "Import #n" node
/// each, with its description under it.
pub open spec fn imports_dot(d: Dot, root: nat, imports: Seq<ImportV>) -> Dot
    decreases imports.len(),
{
    if imports.len() == 0 {
        d
    } else {
        let d1 = imports_dot(d, root, imports.drop_last());
        let i = d1.labels.len();
        let d2 = with_edge(with_node(d1, "Import #"@ + decimal(imports.len())), root, i);
        let detail = d2.labels.len();
        with_edge(with_node(d2, import_text(imports.last())), i, detail)
    }
}

/// The graph with functions added under the root node.
pub open spec fn functions_dot(d: Dot, root: nat, functions: Seq<FunctionV>) -> Dot
    decreases functions.len(),
{
    if functions.len() == 0 {
        d
    } else {
        let (d1, f) = function_dot(functions_dot(d, root, functions.drop_last()), functions.last());
        with_edge(d1, root, f)
    }
}

/// The graph of a program: the "Program" node, its imports, its functions.
pub open spec fn program_dot(p: ProgramV) -> Dot {
    let d0 = with_node(Dot { labels: Seq::empty(), edges: Seq::empty() }, "Program"@);
    functions_dot(imports_dot(d0, 0, p.imports), 0, p.functions)
}

/// A label with each double quote escaped by a backslash.
pub open spec fn escaped(s: Seq<char>) -> Seq<char>
    decreases s.len(),
{
    if s.len() == 0 {
        Seq::empty()
    } else {
        escaped(s.drop_last()) + if s.last() == '"' { seq!['\\', '"'] } else { seq![s.last()] }
    }
}

/// The line of node `i`.
pub open spec fn node_line(i: nat, label: Seq<char>) -> Seq<char> {
    "    n"@ + decimal(i) + " [label=\""@ + escaped(label) + "\"];\n"@
}

/// The line of an edge.
pub open spec fn edge_line(from: nat, to: nat) -> Seq<char> {
    "    n"@ + decimal(from) + " -> n"@ + decimal(to) + ";\n"@
}

/// The lines of the nodes.
pub open spec fn node_lines(labels: Seq<Seq<char>>) -> Seq<char>
    decreases labels.len(),
{
    if labels.len() == 0 {
        Seq::empty()
    } else {
        node_lines(labels.drop_last()) + node_line((labels.len() - 1) as nat, labels.last())
    }
}

/// The lines of the edges.
pub open spec fn edge_lines(edges: Seq<(nat, nat)>) -> Seq<char>
    decreases edges.len(),
{
    if edges.len() == 0 {
        Seq::empty()
    } else {
        edge_lines(edges.drop_last()) + edge_line(edges.last().0, edges.last().1)
    }
}

/// The opening of the Graphviz text.
pub open spec fn dot_header() -> Seq<char> {
    "digraph ApexLangAST {\n    node [shape=box, fontname=\"FiraCode\"];\n"@
}

/// The Graphviz text of a graph.
pub open spec fn dot_text(d: Dot) -> Seq<char> {
    dot_header() + node_lines(d.labels) + edge_lines(d.edges) + "}\n"@
}

/// Appends a label with each double quote escaped.
fn append_escaped(s: &mut String, label: &str)
    ensures
        final(s)@ == old(s)@ + escaped(label@),
{
    let c = chars_of(label);
    let mut i: usize = 0;
    while i < c.len()
        invariant
            i <= c@.len(),
            c@ == label@,
            s@ == old(s)@ + escaped(c@.take(i as int)),
        decreases c@.len() - i,
    {
        if c[i] == '"' {
            push_char(s, '\\');
            push_char(s, '"');
        } else {
            push_char(s, c[i]);
        }
        proof {
            assert(c@.take(i + 1).drop_last() =~= c@.take(i as int));
        }
        i = i + 1;
    }
    proof {
        assert(c@.take(i as int) =~= c@);
    }
}

/// A graph being drawn: node labels, and edges by node numbers.
struct DotBuilder {
    labels: Vec<String>,
    edges: Vec<(usize, usize)>,
}

/// The edges by their values.
pub open spec fn edge_values(e: Seq<(usize, usize)>) -> Seq<(nat, nat)> {
    e.map_values(|x: (usize, usize)| (x.0 as nat, x.1 as nat))
}

impl DotBuilder {
    /// The graph drawn so far.
    spec fn dot(&self) -> Dot {
        Dot { labels: views(self.labels@), edges: edge_values(self.edges@) }
    }

    fn new() -> (b: Self)
        ensures
            b.dot() == (Dot { labels: Seq::empty(), edges: Seq::empty() }),
    {
        let b = DotBuilder { labels: Vec::new(), edges: Vec::new() };
        assert(b.dot().labels =~= Seq::<Seq<char>>::empty());
        assert(b.dot().edges =~= Seq::<(nat, nat)>::empty());
        b
    }

    /// Adds a node; its number
    fn add_node(&mut self, label: String) -> (id: usize)
        ensures
            final(self).dot() == with_node(old(self).dot(), label@),
            id == old(self).dot().labels.len(),
    {
        let id = self.labels.len();
        let ghost text = label@;
        self.labels.push(label);
        proof {
            assert(views(self.labels@) =~= views(old(self).labels@).push(text));
        }
        id
    }

    /// Adds an edge
    fn add_edge(&mut self, parent: usize, child: usize)
        ensures
            final(self).dot() == with_edge(old(self).dot(), parent as nat, child as nat),
    {
        self.edges.push((parent, child));
        proof {
            assert(edge_values(self.edges@) =~= edge_values(old(self).edges@).push((parent as nat, child as nat)));
        }
    }

    /// The Graphviz text of the graph
    fn finish(self) -> (out: String)
        ensures
            out@ == dot_text(self.dot()),
    {
        let mut out = String::from_str("digraph ApexLangAST {\n    node [shape=box, fontname=\"FiraCode\"];\n");
        let ghost labels = views(self.labels@);
        let mut i: usize = 0;
        proof {
            assert(labels.take(0) =~= Seq::<Seq<char>>::empty());
        }
        while i < self.labels.len()
            invariant
                i <= self.labels@.len(),
                labels == views(self.labels@),
                out@ == dot_header() + node_lines(labels.take(i as int)),
            decreases self.labels@.len() - i,
        {
            let ghost before = out@;
            out.append("    n");
            append_decimal(&mut out, i as u64);
            out.append(" [label=\"");
            append_escaped(&mut out, self.labels[i].as_str());
            out.append("\"];\n");
            proof {
                let t = labels.take(i + 1);
                assert(t.drop_last() =~= labels.take(i as int));
                assert(t.last() == self.labels@[i as int]@);
                assert(out@ =~= before + node_line(i as nat, t.last()));
            }
            i = i + 1;
        }
        proof {
            assert(labels.take(i as int) =~= labels);
        }
        let ghost edges = edge_values(self.edges@);
        let mut j: usize = 0;
        proof {
            assert(edges.take(0) =~= Seq::<(nat, nat)>::empty());
        }
        while j < self.edges.len()
            invariant
                j <= self.edges@.len(),
                edges == edge_values(self.edges@),
                out@ == dot_header() + node_lines(labels) + edge_lines(edges.take(j as int)),
            decreases self.edges@.len() - j,
        {
            let ghost before = out@;
            let (parent, child) = self.edges[j];
            out.append("    n");
            append_decimal(&mut out, parent as u64);
            out.append(" -> n");
            append_decimal(&mut out, child as u64);
            out.append(";\n");
            proof {
                let t = edges.take(j + 1);
                assert(t.drop_last() =~= edges.take(j as int));
                assert(t.last() == (parent as nat, child as nat));
                assert(out@ =~= before + edge_line(parent as nat, child as nat));
            }
            j = j + 1;
        }
        proof {
            assert(edges.take(j as int) =~= edges);
        }
        out.append("}\n");
        out
    }
}

/// A label: a fixed text followed by another
fn label_of(head: &str, tail: &str) -> (s: String)
    ensures
        s@ == head@ + tail@,
{
    let mut s = String::from_str(head);
    s.append(tail);
    s
}

fn unary_symbol(op: UnaryOp) -> (s: &'static str)
    ensures
        s@ == unary_text(op),
{
    match op {
        UnaryOp::Plus => "+",
        UnaryOp::Minus => "-",
        UnaryOp::Not => "!",
    }
}

fn binary_symbol(op: BinaryOp) -> (s: &'static str)
    ensures
        s@ == binary_text(op),
{
    match op {
        BinaryOp::Add => "+",
        BinaryOp::Sub => "-",
        BinaryOp::Mul => "*",
        BinaryOp::Div => "/",
        BinaryOp::Mod => "%",
        BinaryOp::Eq => "==",
        BinaryOp::Ne => "!=",
        BinaryOp::Lt => "<",
        BinaryOp::Le => "<=",
        BinaryOp::Gt => ">",
        BinaryOp::Ge => ">=",
        BinaryOp::And => "&&",
        BinaryOp::Or => "||",
    }
}

/// Adds an expression's nodes and edges; the number of its node
fn add_expr(builder: &mut DotBuilder, expr: &Expr) -> (id: usize)
    ensures
        (final(builder).dot(), id as nat) == expr_dot(old(builder).dot(), expr_v(*expr)),
    decreases expr,
{
    match expr {
        Expr::Literal(value) => {
            let text = value.to_string();
            builder.add_node(label_of("Literal: ", text.as_str()))
        },
        Expr::Path(path) => {
            let joined = join_strings(&path.segments, "::");
            proof {
                assert(crate::apexlang::ast::texts(path.segments@) =~= views(path.segments@));
            }
            builder.add_node(label_of("Path: ", joined.as_str()))
        },
        Expr::Unary(op, inner) => {
            let node = builder.add_node(label_of("Unary: ", unary_symbol(*op)));
            let child = add_expr(builder, &**inner);
            builder.add_edge(node, child);
            node
        },
        Expr::Binary(lhs, op, rhs) => {
            let node = builder.add_node(label_of("Binary: ", binary_symbol(*op)));
            let left = add_expr(builder, &**lhs);
            let right = add_expr(builder, &**rhs);
            builder.add_edge(node, left);
            builder.add_edge(node, right);
            node
        },
        Expr::Call { callee, arguments } => {
            let node = builder.add_node(String::from_str("Call"));
            let callee_id = add_expr(builder, &**callee);
            builder.add_edge(node, callee_id);
            let ghost start = builder.dot();
            let ghost argv = match expr_v(*expr) {
                ExprV::Call(_, a) => a,
                _ => Seq::empty(),
            };
            let mut i: usize = 0;
            proof {
                assert(argv.take(0) =~= Seq::<ExprV>::empty());
            }
            while i < arguments.len()
                invariant
                    i <= arguments@.len(),
                    *expr == (Expr::Call { callee: *callee, arguments: *arguments }),
                    argv.len() == arguments@.len(),
                    forall|j: int| 0 <= j < arguments@.len() ==> argv[j] == expr_v(#[trigger] arguments@[j]),
                    builder.dot() == args_dot(start, node as nat, argv.take(i as int)),
                decreases arguments@.len() - i,
            {
                let mut label = String::from_str("arg #");
                append_decimal(&mut label, (i + 1) as u64);
                let label_id = builder.add_node(label);
                proof {
                    assert(decreases_to!(*expr => expr->arguments));
                    assert(decreases_to!(*arguments => arguments@));
                    assert(decreases_to!(arguments@ => arguments@[i as int]));
                }
                let arg_id = add_expr(builder, &arguments[i]);
                builder.add_edge(node, label_id);
                builder.add_edge(label_id, arg_id);
                proof {
                    let t = argv.take(i + 1);
                    assert(t.drop_last() =~= argv.take(i as int));
                    assert(t.last() == expr_v(arguments@[i as int]));
                }
                i = i + 1;
            }
            proof {
                assert(argv.take(i as int) =~= argv);
            }
            node
        },
    }
}

/// Adds a statement and its expression; the number of its node
fn add_statement(builder: &mut DotBuilder, statement: &Statement) -> (id: usize)
    ensures
        (final(builder).dot(), id as nat) == statement_dot(old(builder).dot(), statement_v(*statement)),
{
    let (label, value) = match statement {
        Statement::Let { name, mutable, value } => {
            let head = if *mutable { "var " } else { "let " };
            (label_of(head, name.as_str()), value)
        },
        Statement::Assignment { name, value } => (label_of("assign ", name.as_str()), value),
        Statement::Expr(e) => (String::from_str("expr"), e),
        Statement::Return(e) => (String::from_str("return"), e),
    };
    assert(statement_parts(statement_v(*statement)) == (label@, expr_v(*value)));
    let node = builder.add_node(label);
    let child = add_expr(builder, value);
    builder.add_edge(node, child);
    node
}

/// Adds a function and its statements; the number of its node
fn add_function(builder: &mut DotBuilder, function: &Function) -> (id: usize)
    ensures
        (final(builder).dot(), id as nat) == function_dot(old(builder).dot(), function_v(*function)),
{
    let params = join_strings(&function.params, ", ");
    let mut label = String::from_str("fn ");
    label.append(function.name.as_str());
    label.append("(");
    label.append(params.as_str());
    label.append(")");
    proof {
        assert(crate::apexlang::ast::texts(function.params@) =~= views(function.params@));
        assert(label@ =~= function_label(function_v(*function)));
    }
    let node = builder.add_node(label);
    let ghost start = builder.dot();
    let ghost body = function_v(*function).body;
    let mut i: usize = 0;
    proof {
        assert(body.take(0) =~= Seq::<StatementV>::empty());
    }
    while i < function.body.len()
        invariant
            i <= function.body@.len(),
            body == function.body@.map_values(|s: Statement| statement_v(s)),
            builder.dot() == statements_dot(start, node as nat, body.take(i as int)),
        decreases function.body@.len() - i,
    {
        let st = add_statement(builder, &function.body[i]);
        builder.add_edge(node, st);
        proof {
            let t = body.take(i + 1);
            assert(t.drop_last() =~= body.take(i as int));
            assert(t.last() == statement_v(function.body@[i as int]));
        }
        i = i + 1;
    }
    proof {
        assert(body.take(i as int) =~= body);
    }
    node
}

/// How an import is described
fn describe_import(import: &Import) -> (s: String)
    ensures
        s@ == import_text(import_v(*import)),
{
    match &import.kind {
        ImportKind::Module { name, alias } => {
            let mut s = label_of("module ", name.as_str());
            match alias {
                Some(a) => {
                    s.append(" as ");
                    s.append(a.as_str());
                },
                None => {},
            }
            s
        },
        ImportKind::Symbol { module, symbol, alias } => {
            let mut s = label_of("symbol ", module.as_str());
            s.append("::");
            s.append(symbol.as_str());
            match alias {
                Some(a) => {
                    s.append(" as ");
                    s.append(a.as_str());
                },
                None => {},
            }
            s
        },
    }
}

/// The Graphviz text of a program's syntax tree
pub fn program_to_dot(program: &Program) -> (s: String)
    ensures
        s@ == dot_text(program_dot(program_v(*program))),
{
    let mut builder = DotBuilder::new();
    let root = builder.add_node(String::from_str("Program"));
    let ghost pv = program_v(*program);
    let ghost start = builder.dot();
    let mut i: usize = 0;
    proof {
        assert(pv.imports.take(0) =~= Seq::<ImportV>::empty());
    }
    while i < program.imports.len()
        invariant
            i <= program.imports@.len(),
            root == 0,
            pv == program_v(*program),
            builder.dot() == imports_dot(start, 0, pv.imports.take(i as int)),
        decreases program.imports@.len() - i,
    {
        let mut label = String::from_str("Import #");
        append_decimal(&mut label, (i + 1) as u64);
        let import_id = builder.add_node(label);
        builder.add_edge(root, import_id);
        let detail = describe_import(&program.imports[i]);
        let detail_id = builder.add_node(detail);
        builder.add_edge(import_id, detail_id);
        proof {
            let t = pv.imports.take(i + 1);
            assert(t.drop_last() =~= pv.imports.take(i as int));
            assert(t.last() == import_v(program.imports@[i as int]));
        }
        i = i + 1;
    }
    proof {
        assert(pv.imports.take(i as int) =~= pv.imports);
    }
    let ghost middle = builder.dot();
    let mut k: usize = 0;
    proof {
        assert(pv.functions.take(0) =~= Seq::<FunctionV>::empty());
    }
    while k < program.functions.len()
        invariant
            k <= program.functions@.len(),
            root == 0,
            pv == program_v(*program),
            builder.dot() == functions_dot(middle, 0, pv.functions.take(k as int)),
        decreases program.functions@.len() - k,
    {
        let fn_id = add_function(&mut builder, &program.functions[k]);
        builder.add_edge(root, fn_id);
        proof {
            let t = pv.functions.take(k + 1);
            assert(t.drop_last() =~= pv.functions.take(k as int));
            assert(t.last() == function_v(program.functions@[k as int]));
        }
        k = k + 1;
    }
    proof {
        assert(pv.functions.take(k as int) =~= pv.functions);
    }
    builder.finish()
}

/// The Graphviz text of the syntax tree of a source text, or the error of
/// its lexing or parsing
pub fn visualize_source(source: &str) -> (r: Result<String, ApexError>)
    requires
        source@.len() < usize::MAX,
    ensures
        match parse_spec(source@) {
            Ok(pv) => r matches Ok(s) && s@ == dot_text(program_dot(pv)),
            Err(m) => r matches Err(e) && e@ == m,
        },
{
    match Parser::parse(source) {
        Ok(program) => Ok(program_to_dot(&program)),
        Err(e) => Err(e),
    }
}

/// The symbol an infix operator is shown with is the one it is written
/// with: read as source text, it is a single token, and at some level of
/// precedence the parser takes that token for this operator.
pub proof fn lemma_operator_symbol_reads_back(op: BinaryOp)
    ensures
        exists|k: Kind, level: nat|
            #![trigger op_at(level, k)]
            level <= 5 && op_at(level, k) == Some(op) && lex_spec(binary_text(op)) == Ok::<Seq<Tok>, Seq<char>>(
                seq![
                    Tok { kind: k, lexeme: binary_text(op), line: 1, column: 1 },
                    Tok { kind: Kind::Eof, lexeme: Seq::empty(), line: 1, column: 1 + binary_text(op).len() },
                ],
            ),
{
    let t = binary_text(op);
    match op {
        BinaryOp::Add => {
            reveal_strlit("+");
            assert(t =~= seq!['+']);
            lemma_lex_single_token(t, Kind::Plus);
            assert(op_at(4, Kind::Plus) == Some(op));
        },
        BinaryOp::Sub => {
            reveal_strlit("-");
            assert(t =~= seq!['-']);
            lemma_lex_single_token(t, Kind::Minus);
            assert(op_at(4, Kind::Minus) == Some(op));
        },
        BinaryOp::Mul => {
            reveal_strlit("*");
            assert(t =~= seq!['*']);
            lemma_lex_single_token(t, Kind::Star);
            assert(op_at(5, Kind::Star) == Some(op));
        },
        BinaryOp::Div => {
            reveal_strlit("/");
            assert(t =~= seq!['/']);
            lemma_lex_single_token(t, Kind::Slash);
            assert(op_at(5, Kind::Slash) == Some(op));
        },
        BinaryOp::Mod => {
            reveal_strlit("%");
            assert(t =~= seq!['%']);
            lemma_lex_single_token(t, Kind::Percent);
            assert(op_at(5, Kind::Percent) == Some(op));
        },
        BinaryOp::Eq => {
            reveal_strlit("==");
            assert(t =~= seq!['=', '=']);
            lemma_lex_single_token(t, Kind::EqualEqual);
            assert(op_at(2, Kind::EqualEqual) == Some(op));
        },
        BinaryOp::Ne => {
            reveal_strlit("!=");
            assert(t =~= seq!['!', '=']);
            lemma_lex_single_token(t, Kind::BangEqual);
            assert(op_at(2, Kind::BangEqual) == Some(op));
        },
        BinaryOp::Lt => {
            reveal_strlit("<");
            assert(t =~= seq!['<']);
            lemma_lex_single_token(t, Kind::Less);
            assert(op_at(3, Kind::Less) == Some(op));
        },
        BinaryOp::Le => {
            reveal_strlit("<=");
            assert(t =~= seq!['<', '=']);
            lemma_lex_single_token(t, Kind::LessEqual);
            assert(op_at(3, Kind::LessEqual) == Some(op));
        },
        BinaryOp::Gt => {
            reveal_strlit(">");
            assert(t =~= seq!['>']);
            lemma_lex_single_token(t, Kind::Greater);
            assert(op_at(3, Kind::Greater) == Some(op));
        },
        BinaryOp::Ge => {
            reveal_strlit(">=");
            assert(t =~= seq!['>', '=']);
            lemma_lex_single_token(t, Kind::GreaterEqual);
            assert(op_at(3, Kind::GreaterEqual) == Some(op));
        },
        BinaryOp::And => {
            reveal_strlit("&&");
            assert(t =~= seq!['&', '&']);
            lemma_lex_single_token(t, Kind::AndAnd);
            assert(op_at(1, Kind::AndAnd) == Some(op));
        },
        BinaryOp::Or => {
            reveal_strlit("||");
            assert(t =~= seq!['|', '|']);
            lemma_lex_single_token(t, Kind::OrOr);
            assert(op_at(0, Kind::OrOr) == Some(op));
        },
    }
}

/// No two infix operators are shown with the same symbol.
pub proof fn lemma_operator_symbols_distinct(a: BinaryOp, b: BinaryOp)
    ensures
        binary_text(a) == binary_text(b) ==> a == b,
{
    lemma_operator_symbol_reads_back(a);
    lemma_operator_symbol_reads_back(b);
    if binary_text(a) == binary_text(b) {
        let (ka, la) = choose|k: Kind, level: nat|
            #![trigger op_at(level, k)]
            level <= 5 && op_at(level, k) == Some(a) && lex_spec(binary_text(a)) == Ok::<Seq<Tok>, Seq<char>>(
                seq![
                    Tok { kind: k, lexeme: binary_text(a), line: 1, column: 1 },
                    Tok { kind: Kind::Eof, lexeme: Seq::empty(), line: 1, column: 1 + binary_text(a).len() },
                ],
            );
        let (kb, lb) = choose|k: Kind, level: nat|
            #![trigger op_at(level, k)]
            level <= 5 && op_at(level, k) == Some(b) && lex_spec(binary_text(b)) == Ok::<Seq<Tok>, Seq<char>>(
                seq![
                    Tok { kind: k, lexeme: binary_text(b), line: 1, column: 1 },
                    Tok { kind: Kind::Eof, lexeme: Seq::empty(), line: 1, column: 1 + binary_text(b).len() },
                ],
            );
        let ts = lex_spec(binary_text(a))->Ok_0;
        assert(ts[0].kind == ka && ts[0].kind == kb);
    }
}

} // verus!
