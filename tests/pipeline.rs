use std::rc::Rc;

use notc::{
    Chunk, Expression, IdentifierId, Lexer, NameResolver, ParseError, Primitive, ResolvedAstTree,
    Span, SpannedAstTree, SpannedChunk, SpannedExpression, SpannedIdentifier, SpannedOperator,
    SpannedStatement, Statement, Token, TypeChecker, TypeError,
};

fn sp(start: usize, end: usize) -> Span {
    Span { start, end }
}

fn parse(src: &str) -> Result<Vec<SpannedChunk>, ParseError> {
    let mut lexer = Lexer::from_string(src.to_string());
    let mut tree = SpannedAstTree::from_rc_str(Rc::from(src));
    tree.parse_all(&mut lexer)?;
    Ok(tree.body)
}

fn resolve(src: &str) -> ResolvedAstTree {
    let text: Rc<str> = Rc::from(src);
    let mut lexer = Lexer::from_rc_str(text.clone());
    let mut tree = SpannedAstTree::from_rc_str(text.clone());
    tree.parse_all(&mut lexer).unwrap();
    let mut resolver = NameResolver::from_rc_str(text).pre_intern(&[
        Primitive::Void.name(),
        Primitive::Bool.name(),
        Primitive::Usize.name(),
    ]);
    resolver.resolve(tree)
}

fn check(src: &str) -> Result<(), TypeError> {
    let ast = resolve(src);
    assert!(ast.uses_only_primitive_types());
    let mut checker = TypeChecker::new();
    let r = checker.check(&ast);
    if r.is_ok() {
        assert_eq!(checker.depth(), 1);
    }
    r
}

/// The body statement of the only function in `src`.
fn body_of(src: &str) -> SpannedStatement {
    let mut chunks = parse(src).unwrap();
    assert_eq!(chunks.len(), 1);
    match chunks.remove(0) {
        Chunk::Function { body, .. } => body,
        other => panic!("not a function: {:?}", other),
    }
}

fn returned(st: SpannedStatement) -> SpannedExpression {
    match st {
        Statement::Return { expr: Some(e), .. } => *e,
        other => panic!("not a return with a value: {:?}", other),
    }
}

fn ident(start: usize, end: usize) -> SpannedExpression {
    Expression::Identifier(SpannedIdentifier { span: sp(start, end) })
}

#[test]
fn lexer_classifies_lexemes() {
    let mut lx = Lexer::from_string("let x: bool = a == b;".to_string());
    assert_eq!(lx.next_token(), Token::Let(sp(0, 3)));
    assert_eq!(lx.next_token(), Token::Identifier(SpannedIdentifier { span: sp(4, 5) }));
    assert_eq!(lx.next_token(), Token::Colon(sp(5, 6)));
    assert_eq!(lx.next_token(), Token::Identifier(SpannedIdentifier { span: sp(7, 11) }));
    assert_eq!(
        lx.next_token(),
        Token::Operator(SpannedOperator { span: sp(12, 13), precedence: 0 })
    );
    assert_eq!(lx.next_token(), Token::Identifier(SpannedIdentifier { span: sp(14, 15) }));
    assert_eq!(
        lx.next_token(),
        Token::Operator(SpannedOperator { span: sp(16, 18), precedence: 1 })
    );
    assert_eq!(lx.next_token(), Token::Identifier(SpannedIdentifier { span: sp(19, 20) }));
    assert_eq!(lx.next_token(), Token::EOL(sp(20, 21)));
    assert_eq!(lx.next_token(), Token::EOF(sp(21, 21)));
    assert_eq!(lx.next_token(), Token::EOF(sp(21, 21)));
}

#[test]
fn lexer_symbols_prefer_longest() {
    let mut lx = Lexer::from_string("-> -= - += + *= * /= / ! = { } ( ) ,".to_string());
    assert_eq!(lx.next_token(), Token::LArrow(sp(0, 2)));
    let expect = [(3, 5, 0), (6, 7, 2), (8, 10, 0), (11, 12, 2), (13, 15, 0), (16, 17, 3), (18, 20, 0), (21, 22, 3), (23, 24, 5), (25, 26, 0)];
    for (s, e, p) in expect {
        assert_eq!(
            lx.next_token(),
            Token::Operator(SpannedOperator { span: sp(s, e), precedence: p })
        );
    }
    assert_eq!(lx.next_token(), Token::LBrace(sp(27, 28)));
    assert_eq!(lx.next_token(), Token::RBrace(sp(29, 30)));
    assert_eq!(lx.next_token(), Token::LParen(sp(31, 32)));
    assert_eq!(lx.next_token(), Token::RParen(sp(33, 34)));
    assert_eq!(lx.next_token(), Token::Comma(sp(35, 36)));
}

#[test]
fn lexer_keywords_numbers_and_words() {
    let mut lx = Lexer::from_string(" fn const static else return if iffy _x1 12.5".to_string());
    assert_eq!(lx.next_token(), Token::Fn(sp(1, 3)));
    assert_eq!(lx.next_token(), Token::Const(sp(4, 9)));
    assert_eq!(lx.next_token(), Token::Static(sp(10, 16)));
    assert_eq!(lx.next_token(), Token::Else(sp(17, 21)));
    assert_eq!(lx.next_token(), Token::Return(sp(22, 28)));
    assert_eq!(lx.next_token(), Token::If(sp(29, 31)));
    assert_eq!(lx.next_token(), Token::Identifier(SpannedIdentifier { span: sp(32, 36) }));
    // a word stops at a digit
    assert_eq!(lx.next_token(), Token::Identifier(SpannedIdentifier { span: sp(37, 39) }));
    assert_eq!(lx.next_token(), Token::NumericLiteral(sp(39, 40)));
    assert_eq!(lx.next_token(), Token::NumericLiteral(sp(41, 45)));
    assert_eq!(lx.next_token(), Token::EOF(sp(45, 45)));
}

#[test]
fn lexer_unknown_is_zero_width_and_not_consumed() {
    let mut lx = Lexer::from_string("  # a".to_string());
    assert_eq!(lx.next_token(), Token::Unknown(sp(2, 2)));
    assert_eq!(lx.get_index(), 2);
    assert_eq!(lx.next_token(), Token::Unknown(sp(2, 2)));
}

#[test]
fn lexer_peek_and_go_to() {
    let mut lx = Lexer::from_string("a b".to_string());
    let (t, i) = lx.peek_next();
    assert_eq!(t, Token::Identifier(SpannedIdentifier { span: sp(0, 1) }));
    assert_eq!(i, 1);
    assert_eq!(lx.get_index(), 0);
    lx.go_to(i);
    assert_eq!(lx.next_token(), Token::Identifier(SpannedIdentifier { span: sp(2, 3) }));
    lx.go_to(0);
    assert_eq!(lx.next_token(), Token::Identifier(SpannedIdentifier { span: sp(0, 1) }));
}

#[test]
fn token_spans_can_be_read_and_replaced() {
    let t = Token::Operator(SpannedOperator { span: sp(1, 2), precedence: 3 });
    assert_eq!(t.get_span(), sp(1, 2));
    let u = t.set_span(sp(5, 9));
    assert_eq!(u, Token::Operator(SpannedOperator { span: sp(5, 9), precedence: 3 }));
    assert_eq!(Token::Else(sp(0, 4)).set_span(sp(2, 3)).get_span(), sp(2, 3));
}

#[test]
fn precedence_multiplication_under_addition() {
    let src = "fn f(a: usize, b: usize, c: usize) usize -> return a + b * c;";
    let e = returned(body_of(src));
    let want = Expression::BinaryOperator {
        left: Box::new(ident(51, 52)),
        span: sp(53, 54),
        precedence: 2,
        right: Box::new(Expression::BinaryOperator {
            left: Box::new(ident(55, 56)),
            span: sp(57, 58),
            precedence: 3,
            right: Box::new(ident(59, 60)),
        }),
    };
    assert_eq!(e, want);
    assert_eq!(check(src), Ok(()));
}

#[test]
fn precedence_rotates_tighter_operator_down() {
    // a * b + c is (a * b) + c
    let src = "fn f(a: usize, b: usize, c: usize) usize -> return a * b + c;";
    let e = returned(body_of(src));
    let want = Expression::BinaryOperator {
        left: Box::new(Expression::BinaryOperator {
            left: Box::new(ident(51, 52)),
            span: sp(53, 54),
            precedence: 3,
            right: Box::new(ident(55, 56)),
        }),
        span: sp(57, 58),
        precedence: 2,
        right: Box::new(ident(59, 60)),
    };
    assert_eq!(e, want);
}

#[test]
fn equal_precedence_groups_to_the_left() {
    let src = "fn f(a: usize) usize -> return a - a - a;";
    let e = returned(body_of(src));
    match e {
        Expression::BinaryOperator { left, span, .. } => {
            assert_eq!(span, sp(37, 38));
            assert!(matches!(*left, Expression::BinaryOperator { span: s, .. } if s == sp(33, 34)));
        }
        other => panic!("unexpected tree {:?}", other),
    }
}

#[test]
fn unary_binds_to_leftmost_operand() {
    let src = "fn f(a: usize, b: usize) usize -> return -a + b;";
    let e = returned(body_of(src));
    let want = Expression::BinaryOperator {
        left: Box::new(Expression::UnaryOperator {
            operation: sp(41, 42),
            expression: Box::new(ident(42, 43)),
        }),
        span: sp(44, 45),
        precedence: 2,
        right: Box::new(ident(46, 47)),
    };
    assert_eq!(e, want);
}

#[test]
fn parentheses_are_kept_as_a_group() {
    let src = "fn f(a: bool) bool -> return !(a);";
    let e = returned(body_of(src));
    let want = Expression::UnaryOperator {
        operation: sp(29, 30),
        expression: Box::new(Expression::UnaryOperator {
            operation: sp(30, 33),
            expression: Box::new(ident(31, 32)),
        }),
    };
    assert_eq!(e, want);
}

#[test]
fn dangling_else_binds_to_inner_if() {
    let src = "fn f(a: bool, b: bool) void -> if (a) if (b) f(); else g();";
    match body_of(src) {
        Statement::If { statement, ielse, span, .. } => {
            assert!(ielse.is_none());
            assert_eq!(span, sp(31, 37));
            match *statement {
                Statement::If { ielse: Some(e), span, .. } => {
                    assert_eq!(span, sp(38, 44));
                    assert!(matches!(*e, Statement::VoidCall { .. }));
                }
                other => panic!("inner statement is not an if with else: {:?}", other),
            }
        }
        other => panic!("body is not an if: {:?}", other),
    }
}

#[test]
fn call_statement_and_block_parse() {
    let src = "fn f() void -> { g(a, b); h(); }";
    match body_of(src) {
        Statement::Scope { body, span } => {
            assert_eq!(span, sp(15, 32));
            assert_eq!(body.len(), 2);
            match &body[0] {
                Statement::VoidCall { name, params, span } => {
                    assert_eq!(name.span, sp(17, 18));
                    assert_eq!(params.len(), 2);
                    assert_eq!(*span, sp(17, 24));
                }
                other => panic!("unexpected {:?}", other),
            }
        }
        other => panic!("unexpected {:?}", other),
    }
}

#[test]
fn call_expression_parses() {
    let src = "fn f(a: usize) usize -> return g(a) + a;";
    let e = returned(body_of(src));
    match e {
        Expression::BinaryOperator { left, .. } => match *left {
            Expression::Call { name, params, span } => {
                assert_eq!(name.span, sp(31, 32));
                assert_eq!(params.len(), 1);
                assert_eq!(span, sp(32, 35));
            }
            other => panic!("unexpected {:?}", other),
        },
        other => panic!("unexpected {:?}", other),
    }
}

#[test]
fn parse_errors_carry_token_and_message() {
    assert_eq!(
        parse("fn 1"),
        Err(ParseError::BadSyntax(Token::NumericLiteral(sp(3, 4)), "Function Needs Identifier"))
    );
    assert_eq!(parse("fn f() void -> #"), Err(ParseError::UnknownToken(sp(15, 15))));
    assert_eq!(
        parse("let"),
        Err(ParseError::BadSyntax(
            Token::Let(sp(0, 3)),
            "Chunks are either constants, static declerations, or functions"
        ))
    );
    assert_eq!(
        parse("fn f() void -> return a"),
        Err(ParseError::BadSyntax(Token::EOF(sp(23, 23)), "Please end statements in ';'"))
    );
    assert_eq!(
        parse("fn f() void -> { f();"),
        Err(ParseError::BadSyntax(Token::EOF(sp(21, 21)), "Invalid statement start"))
    );
    assert!(matches!(parse("const"), Err(ParseError::BadSyntax(Token::Const(_), _))));
    assert!(matches!(
        parse("fn f() void -> let x: bool == a;"),
        Err(ParseError::BadSyntax(Token::Operator(_), "Please indicate an initial value using '='"))
    ));
}

#[test]
fn failed_parse_leaves_tree_unchanged() {
    let src = "fn f() void -> return; fn";
    let mut lexer = Lexer::from_string(src.to_string());
    let mut tree = SpannedAstTree::from_rc_str(Rc::from(src));
    assert!(tree.parse_all(&mut lexer).is_err());
    assert!(tree.body.is_empty());
}

#[test]
fn empty_source_has_no_chunks() {
    assert_eq!(parse("  \n ").unwrap().len(), 0);
}

#[test]
fn interning_same_spelling_same_id() {
    let ast = resolve("fn f(a: bool) bool -> { return a; return a; }");
    match &ast.body[0] {
        Chunk::Function { name, params, rtype, body, .. } => {
            assert_eq!(name.id, IdentifierId(3));
            assert_eq!(params[0].name.id, IdentifierId(4));
            assert_eq!(params[0].ptype.id, IdentifierId(1));
            assert_eq!(rtype.id, IdentifierId(1));
            match body {
                Statement::Scope { body, .. } => {
                    for st in body {
                        match st {
                            Statement::Return { expr: Some(e), .. } => {
                                assert!(matches!(**e, Expression::Identifier(i) if i.id == IdentifierId(4)));
                            }
                            other => panic!("unexpected {:?}", other),
                        }
                    }
                }
                other => panic!("unexpected {:?}", other),
            }
        }
        other => panic!("unexpected {:?}", other),
    }
}

#[test]
fn primitive_ids_are_fixed() {
    let ast = resolve("fn g(x: usize, y: void) bool -> return x;");
    match &ast.body[0] {
        Chunk::Function { name, params, rtype, .. } => {
            assert_eq!(name.id, IdentifierId(3));
            assert_eq!(params[0].ptype.id, IdentifierId(2));
            assert_eq!(params[1].ptype.id, IdentifierId(0));
            assert_eq!(rtype.id, IdentifierId(1));
            assert_eq!(Primitive::from_id(rtype.id), Some(Primitive::Bool));
            assert_eq!(Primitive::from_id(name.id), None);
        }
        other => panic!("unexpected {:?}", other),
    }
}

#[test]
fn call_statement_arguments_resolve_before_name() {
    let ast = resolve("fn f() void -> g(h);");
    match &ast.body[0] {
        Chunk::Function { body: Statement::VoidCall { name, params, .. }, .. } => {
            assert!(matches!(params[0], Expression::Identifier(i) if i.id == IdentifierId(4)));
            assert_eq!(name.id, IdentifierId(5));
        }
        other => panic!("unexpected {:?}", other),
    }
}

#[test]
fn precedence_checks_without_grouping_error() {
    assert_eq!(check("fn f(a: bool, b: bool) bool -> return a == b;"), Ok(()));
}

#[test]
fn scope_exit_hides_inner_declaration() {
    let src = "fn f(a: bool) void -> { { let x: bool = a; } x = a; }";
    assert_eq!(check(src), Err(TypeError::NotDeclared(sp(47, 48))));
    assert_eq!(check("fn f(a: bool) void -> { { let x: bool = a; x = a; } }"), Ok(()));
}

#[test]
fn shadowing_inner_declaration_wins() {
    let src = "fn f(a: bool, n: usize) void -> { let x: bool = a; { let x: usize = n; x = n; } x = a; }";
    assert_eq!(check(src), Ok(()));
}

#[test]
fn return_type_is_enforced() {
    assert_eq!(
        check("fn f(u: usize) bool -> return u;"),
        Err(TypeError::BadReturnType(sp(23, 32)))
    );
    assert_eq!(check("fn f() void -> return;"), Ok(()));
    assert_eq!(
        check("fn f() bool -> return;"),
        Err(TypeError::BadReturnType(sp(15, 22)))
    );
}

#[test]
fn void_call_contract() {
    assert_eq!(
        check("fn g() bool -> return; fn f() void -> g();"),
        Err(TypeError::BadReturnType(sp(15, 22)))
    );
    assert_eq!(
        check("fn f(a: bool) void -> f(a); fn g(a: bool) bool -> { f(a); return a; }"),
        Ok(())
    );
    assert_eq!(
        check("fn g(a: bool) bool -> return a; fn f(a: bool) void -> g(a);"),
        Err(TypeError::NotVoid(sp(54, 58)))
    );
    assert_eq!(
        check("fn g(a: bool) void -> return; fn f(a: bool) void -> g(a, a);"),
        Err(TypeError::ParamTypeMismatch(sp(52, 59)))
    );
    assert_eq!(
        check("fn g(a: bool) void -> return; fn f(n: usize) void -> g(n);"),
        Err(TypeError::ParamTypeMismatch(sp(53, 57)))
    );
    assert_eq!(
        check("fn f() void -> nothing();"),
        Err(TypeError::NotDeclared(sp(15, 24)))
    );
    assert_eq!(
        check("fn f(a: bool) void -> a();"),
        Err(TypeError::TypeMismatch(sp(22, 25)))
    );
}

#[test]
fn other_type_errors() {
    assert_eq!(
        check("fn f(a: bool) void -> let x: usize = a;"),
        Err(TypeError::DeclarationMismatch(sp(22, 25)))
    );
    assert_eq!(
        check("fn f(a: bool, n: usize) void -> { let x: usize = n; x = a; }"),
        Err(TypeError::AssignmentMismatch(sp(54, 55)))
    );
    assert_eq!(
        check("fn f(n: usize) void -> if (n) return;"),
        Err(TypeError::TypeMismatch(sp(23, 29)))
    );
    assert_eq!(
        check("fn f() void -> return y;"),
        Err(TypeError::NotDeclared(sp(22, 23)))
    );
}

#[test]
fn binary_operator_has_left_operand_type() {
    // the right operand is checked but not compared
    assert_eq!(check("fn f(a: bool, n: usize) bool -> return a + n;"), Ok(()));
    assert_eq!(
        check("fn f(a: bool) bool -> return a + zz;"),
        Err(TypeError::NotDeclared(sp(33, 35)))
    );
}

#[test]
fn call_expression_has_return_type() {
    assert_eq!(
        check("fn g(a: bool) bool -> return a; fn f(a: bool) bool -> return g(a);"),
        Ok(())
    );
    assert_eq!(
        check("fn g(n: usize) usize -> return n; fn f(n: usize) bool -> return g(n);"),
        Err(TypeError::BadReturnType(sp(57, 69)))
    );
}

#[test]
fn non_primitive_types_are_detected() {
    let ast = resolve("fn f(a: foo) void -> return;");
    assert!(!ast.uses_only_primitive_types());
    let ast = resolve("fn f() void -> { let x: thing = x; }");
    assert!(!ast.uses_only_primitive_types());
}

#[test]
fn primitive_names() {
    assert_eq!(Primitive::Void.name(), "void");
    assert_eq!(Primitive::Bool.name(), "bool");
    assert_eq!(Primitive::Usize.name(), "usize");
}

#[test]
fn primitive_pre_interning_matches_explicit_list() {
    let src = "fn h(a: usize) usize -> { let b: usize = a; return b; }";
    let text: Rc<str> = Rc::from(src);
    let mut lexer = Lexer::from_rc_str(text.clone());
    let mut tree = SpannedAstTree::from_rc_str(text.clone());
    tree.parse_all(&mut lexer).unwrap();
    let mut resolver = NameResolver::from_rc_str(text).pre_intern_primitives();
    let ast = resolver.resolve(tree);
    match &ast.body[0] {
        Chunk::Function { name, params, rtype, body, .. } => {
            assert_eq!(rtype.id, IdentifierId(2));
            assert_eq!(name.id, IdentifierId(3));
            assert_eq!(params[0].name.id, IdentifierId(4));
            assert_eq!(params[0].ptype.id, IdentifierId(2));
            match body {
                Statement::Scope { body, .. } => match &body[0] {
                    Statement::Declaration { name, rtype, .. } => {
                        assert_eq!(name.id, IdentifierId(5));
                        assert_eq!(rtype.id, IdentifierId(2));
                    }
                    other => panic!("unexpected {:?}", other),
                },
                other => panic!("unexpected {:?}", other),
            }
        }
        other => panic!("unexpected {:?}", other),
    }
    let mut checker = TypeChecker::new();
    assert_eq!(checker.check(&ast), Ok(()));
}

#[test]
fn pre_intern_skips_repeated_names() {
    let src = "fn b() a -> return;";
    let text: Rc<str> = Rc::from(src);
    let mut lexer = Lexer::from_rc_str(text.clone());
    let mut tree = SpannedAstTree::from_rc_str(text.clone());
    tree.parse_all(&mut lexer).unwrap();
    let mut resolver = NameResolver::from_rc_str(text).pre_intern(&["a", "a", "b"]);
    let ast = resolver.resolve(tree);
    match &ast.body[0] {
        Chunk::Function { name, rtype, .. } => {
            assert_eq!(name.id, IdentifierId(1));
            assert_eq!(rtype.id, IdentifierId(0));
        }
        other => panic!("unexpected {:?}", other),
    }
}

#[test]
fn primitive_c_names() {
    assert_eq!(Primitive::Void.c_name(), "void");
    assert_eq!(Primitive::Bool.c_name(), "bool");
    assert_eq!(Primitive::Usize.c_name(), "size_t");
}
