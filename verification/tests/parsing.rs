use marin::com::ast::span::mix_spans;
use marin::com::ast::{BinOp, Expr, Label, Pattern};
use marin::com::loc::Span;
use marin::com::parser::Parser;
use marin::com::reporting::Header;
use marin::com::token::Token;

fn tok(t: Token, start: usize, end: usize) -> (Option<Token>, Span) {
    (Some(t), Span::new(start, end))
}

fn parse(source: &str, lexed: Vec<(Option<Token>, Span)>) -> (marin::com::ast::File, Vec<marin::com::reporting::Report>) {
    let mut parser = Parser::new(source, lexed, 0, Vec::new());
    let file = parser.parse_file();
    (file, parser.into_reports())
}

#[test]
fn precedence_values() {
    assert_eq!(BinOp::Mul.precedence(), 50);
    assert_eq!(BinOp::Add.precedence(), 40);
    assert_eq!(BinOp::BitAnd.precedence(), 30);
    assert_eq!(BinOp::Lt.precedence(), 20);
    assert_eq!(BinOp::And.precedence(), 15);
    assert_eq!(BinOp::Or.precedence(), 10);
}

#[test]
fn parse_let_with_operations() {
    let src = "let x = 1 + 2 * 3";
    let lexed = vec![
        tok(Token::Let, 0, 3),
        tok(Token::Ident, 4, 5),
        tok(Token::Assign, 6, 7),
        tok(Token::Int, 8, 9),
        tok(Token::Add, 10, 11),
        tok(Token::Int, 12, 13),
        tok(Token::Mul, 14, 15),
        tok(Token::Int, 16, 17),
    ];
    let (file, reports) = parse(src, lexed);
    assert!(reports.is_empty());
    assert_eq!(file.0.len(), 1);
    let Expr::Let(l) = &file.0[0] else { panic!("expected a let") };
    assert_eq!(l.let_kw, Span::new(0, 3));
    assert_eq!(l.assign, Some(Span::new(6, 7)));
    assert!(matches!(&*l.pattern, Expr::Var(v) if v.span == Span::new(4, 5)));
    let Expr::Binary(sum) = &*l.value else { panic!("expected a sum") };
    assert_eq!(sum.op, BinOp::Add);
    assert!(matches!(&*sum.left, Expr::Int(_)));
    let Expr::Binary(product) = &*sum.right else { panic!("expected a product") };
    assert_eq!(product.op, BinOp::Mul);
    assert_eq!(file.0[0].span(), Span::new(0, 17));
}

#[test]
fn operators_of_one_level_group_to_the_right() {
    let src = "1 - 2 - 3";
    let lexed = vec![
        tok(Token::Int, 0, 1),
        tok(Token::Sub, 2, 3),
        tok(Token::Int, 4, 5),
        tok(Token::Sub, 6, 7),
        tok(Token::Int, 8, 9),
    ];
    let (file, _) = parse(src, lexed);
    let Expr::Binary(outer) = &file.0[0] else { panic!() };
    assert!(matches!(&*outer.left, Expr::Int(i) if i.span == Span::new(0, 1)));
    assert!(matches!(&*outer.right, Expr::Binary(_)));
}

#[test]
fn tighter_operator_on_the_left_binds_first() {
    let src = "2 * 3 + 4 == x";
    let lexed = vec![
        tok(Token::Int, 0, 1),
        tok(Token::Mul, 2, 3),
        tok(Token::Int, 4, 5),
        tok(Token::Add, 6, 7),
        tok(Token::Int, 8, 9),
        tok(Token::Eq, 10, 12),
        tok(Token::Ident, 13, 14),
    ];
    let (file, reports) = parse(src, lexed);
    assert!(reports.is_empty());
    let Expr::Binary(eq) = &file.0[0] else { panic!("expected a comparison") };
    assert_eq!(eq.op, BinOp::Eq);
    assert!(matches!(&*eq.right, Expr::Var(_)));
    let Expr::Binary(sum) = &*eq.left else { panic!("expected a sum") };
    assert_eq!(sum.op, BinOp::Add);
    assert!(matches!(&*sum.right, Expr::Int(i) if i.span == Span::new(8, 9)));
    let Expr::Binary(product) = &*sum.left else { panic!("expected a product") };
    assert_eq!(product.op, BinOp::Mul);
}

#[test]
fn parse_call_index_and_access() {
    let src = "f(a, b)[0].x";
    let lexed = vec![
        tok(Token::Ident, 0, 1),
        tok(Token::LeftParen, 1, 2),
        tok(Token::Ident, 2, 3),
        tok(Token::Comma, 3, 4),
        tok(Token::Ident, 5, 6),
        tok(Token::RightParen, 6, 7),
        tok(Token::LeftBracket, 7, 8),
        tok(Token::Int, 8, 9),
        tok(Token::RightBracket, 9, 10),
        tok(Token::Dot, 10, 11),
        tok(Token::Ident, 11, 12),
    ];
    let (file, reports) = parse(src, lexed);
    assert!(reports.is_empty());
    let Expr::Access(access) = &file.0[0] else { panic!("expected an access") };
    let Expr::Index(index) = &*access.accessed else { panic!("expected an index") };
    let Expr::Call(call) = &*index.indexed else { panic!("expected a call") };
    assert_eq!(call.args.len(), 2);
    assert_eq!(file.0[0].span(), Span::new(0, 12));
}

#[test]
fn parse_block_with_lines_and_label() {
    let src = "do <a>\n1\n2\nend";
    let lexed = vec![
        tok(Token::Do, 0, 2),
        tok(Token::LeftChev, 3, 4),
        tok(Token::Ident, 4, 5),
        tok(Token::RightChev, 5, 6),
        tok(Token::Newline, 6, 7),
        tok(Token::Int, 7, 8),
        tok(Token::Newline, 8, 9),
        tok(Token::Int, 9, 10),
        tok(Token::Newline, 10, 11),
        tok(Token::End, 11, 14),
    ];
    let (file, reports) = parse(src, lexed);
    assert!(reports.is_empty());
    let Expr::Block(block) = &file.0[0] else { panic!("expected a block") };
    assert_eq!(block.items.len(), 2);
    assert!(matches!(&*block.label, Label::Named(n) if n.left_chev == Span::new(3, 4)));
    assert_eq!(block.label.span(), Span::new(3, 6));
    assert_eq!(file.0[0].span(), Span::new(0, 14));
}

#[test]
fn parse_conditional_with_else() {
    let src = "if c then 1 else 2 end";
    let lexed = vec![
        tok(Token::If, 0, 2),
        tok(Token::Ident, 3, 4),
        tok(Token::Then, 5, 9),
        tok(Token::Int, 10, 11),
        tok(Token::Else, 12, 16),
        tok(Token::Int, 17, 18),
        tok(Token::End, 19, 22),
    ];
    let (file, reports) = parse(src, lexed);
    assert!(reports.is_empty());
    let Expr::Conditional(c) = &file.0[0] else { panic!("expected a conditional") };
    assert_eq!(c.else_branches.len(), 1);
    assert_eq!(c.end_kw, Span::new(19, 22));
    assert_eq!(file.0[0].span(), Span::new(0, 22));
}

#[test]
fn missing_expression_is_reported() {
    let src = "let x =";
    let lexed = vec![tok(Token::Let, 0, 3), tok(Token::Ident, 4, 5), tok(Token::Assign, 6, 7)];
    let (file, reports) = parse(src, lexed);
    assert_eq!(reports.len(), 1);
    assert!(matches!(reports[0].header, Header::ExpectedExpression()));
    let Expr::Let(l) = &file.0[0] else { panic!() };
    assert!(matches!(&*l.value, Expr::Missing(m) if m.span == Span::at(7)));
}

#[test]
fn unexpected_token_is_reported() {
    let src = "(1";
    let lexed = vec![tok(Token::LeftParen, 0, 1), tok(Token::Int, 1, 2)];
    let (_, reports) = parse(src, lexed);
    assert_eq!(reports.len(), 1);
    assert!(matches!(reports[0].header, Header::ExpectedToken(Token::RightParen, Token::Eof)));
    assert_eq!(reports[0].header.msg(), "expected ')', encountered end of file instead");
}

#[test]
fn leftover_token_is_reported_at_end_of_file() {
    let src = "1 )";
    let lexed = vec![tok(Token::Int, 0, 1), tok(Token::RightParen, 2, 3)];
    let (file, reports) = parse(src, lexed);
    assert_eq!(file.0.len(), 1);
    assert_eq!(reports.len(), 1);
    assert!(matches!(reports[0].header, Header::ExpectedToken(Token::Eof, Token::RightParen)));
}

#[test]
fn invalid_characters_are_reported_once() {
    let src = "1 $$ 2";
    let lexed = vec![
        tok(Token::Int, 0, 1),
        (None, Span::new(2, 3)),
        (None, Span::new(3, 4)),
        tok(Token::Newline, 4, 5),
        tok(Token::Int, 5, 6),
    ];
    let (file, reports) = parse(src, lexed);
    assert_eq!(file.0.len(), 2);
    assert_eq!(reports.len(), 1);
    assert!(matches!(&reports[0].header, Header::InvalidCharacterSequence(s) if s == "$$"));
    assert_eq!(reports[0].labels[0].1.span, Span::new(2, 4));
}

#[test]
fn empty_import_is_reported() {
    let src = "import";
    let lexed = vec![tok(Token::Import, 0, 6)];
    let (file, reports) = parse(src, lexed);
    assert!(matches!(&file.0[0], Expr::Import(i) if i.queries.is_empty()));
    assert_eq!(reports.len(), 1);
    assert!(matches!(reports[0].header, Header::EmptyImport()));
}

#[test]
fn import_queries_get_fresh_ids() {
    let src = "import a, b from c";
    let lexed = vec![
        tok(Token::Import, 0, 6),
        tok(Token::Ident, 7, 8),
        tok(Token::Comma, 8, 9),
        tok(Token::Ident, 10, 11),
        tok(Token::From, 12, 16),
        tok(Token::Ident, 17, 18),
    ];
    let (file, reports) = parse(src, lexed);
    assert!(reports.is_empty());
    let Expr::ImportFrom(i) = &file.0[0] else { panic!("expected an import from") };
    assert_eq!(i.queries.iter().map(|q| q.uid).collect::<Vec<_>>(), vec![1, 2]);
    assert_eq!(i.path_query_uid, 3);
}

#[test]
fn class_item_without_annotation_is_reported() {
    let src = "class C\nx int\nend";
    let lexed = vec![
        tok(Token::Class, 0, 5),
        tok(Token::Ident, 6, 7),
        tok(Token::Newline, 7, 8),
        tok(Token::Ident, 8, 9),
        tok(Token::Ident, 10, 13),
        tok(Token::Newline, 13, 14),
        tok(Token::End, 14, 17),
    ];
    let (_, reports) = parse(src, lexed);
    assert_eq!(reports.len(), 1);
    assert!(matches!(reports[0].header, Header::ExpectedTypeAnnotation(Token::Ident)));
}

#[test]
fn mixed_spans_cover_their_parts() {
    assert_eq!(mix_spans(&[Span::new(4, 6), Span::new(1, 2), Span::new(9, 9)]), Span::new(1, 9));
    assert_eq!(mix_spans(&[]), Span::default());
}

#[test]
fn pattern_spans_and_refutability() {
    let p = Pattern::Tuple(Span::new(0, 1), Span::new(8, 9), vec![Pattern::Binding(Span::new(1, 2)), Pattern::Int(Span::new(4, 5))]);
    assert_eq!(p.span(), Span::new(0, 9));
    assert!(!p.is_irrefutable());
    let q = Pattern::Tuple(Span::new(0, 1), Span::new(3, 4), vec![Pattern::Binding(Span::new(1, 2)), Pattern::Missing(Span::at(2))]);
    assert!(q.is_irrefutable());
}

#[test]
fn unary_operator_keeps_its_kind() {
    let src = "-x";
    let lexed = vec![tok(Token::Sub, 0, 1), tok(Token::Ident, 1, 2)];
    let (file, reports) = parse(src, lexed);
    assert!(reports.is_empty());
    let Expr::Unary(u) = &file.0[0] else { panic!("expected a unary operation") };
    assert_eq!(u.op, marin::com::ast::UnOp::Neg);
    assert_eq!(u.op_tok, Span::new(0, 1));
}

#[test]
fn primary_expression_reads_postfixes_left_to_right() {
    let src = "f(1)[2].x";
    let lexed = vec![
        tok(Token::Ident, 0, 1),
        tok(Token::LeftParen, 1, 2),
        tok(Token::Int, 2, 3),
        tok(Token::RightParen, 3, 4),
        tok(Token::LeftBracket, 4, 5),
        tok(Token::Int, 5, 6),
        tok(Token::RightBracket, 6, 7),
        tok(Token::Dot, 7, 8),
        tok(Token::Ident, 8, 9),
    ];
    let mut parser = Parser::new(src, lexed, 0, Vec::new());
    let e = parser.try_parse_primary_expression().expect("a primary expression");
    assert_eq!(e.span(), Span::new(0, 9));
    let Expr::Access(access) = &e else { panic!("expected an access") };
    assert_eq!(access.dot, Span::new(7, 8));
    assert!(matches!(&*access.accessor, Expr::Var(v) if v.span == Span::new(8, 9)));
    let Expr::Index(index) = &*access.accessed else { panic!("expected an index") };
    assert_eq!(index.left_bracket, Span::new(4, 5));
    assert_eq!(index.right_bracket, Span::new(6, 7));
    assert_eq!(index.indices.len(), 1);
    assert!(matches!(&index.indices[0], Expr::Int(i) if i.span == Span::new(5, 6)));
    let Expr::Call(call) = &*index.indexed else { panic!("expected a call") };
    assert_eq!(call.left_paren, Span::new(1, 2));
    assert_eq!(call.right_paren, Span::new(3, 4));
    assert!(matches!(&*call.callee, Expr::Var(v) if v.span == Span::new(0, 1)));
    assert_eq!(call.args.len(), 1);
    assert!(matches!(&call.args[0], Expr::Int(i) if i.span == Span::new(2, 3)));
    assert!(parser.into_reports().is_empty());
}
