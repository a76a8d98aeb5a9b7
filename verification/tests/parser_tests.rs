use bcpl_front::ast::{ExprKind, Stmt, StmtKind};
use bcpl_front::error::ParseError;
use bcpl_front::parser::stmt::{StmtContext, StmtFrame};
use bcpl_front::parser::Parser;
use bcpl_front::source_file::{Location, SourceFile};
use bcpl_front::token::{Token, TokenKind};

fn demo_file() -> SourceFile {
    SourceFile::new(1, String::from("demo.b"), String::from("line one\nline two\nline three\n"))
}

fn at(file: &SourceFile, column: usize) -> Location {
    Location::new(file, 1, column, 1)
}

fn call_tok(file: &SourceFile, name: &str, column: usize) -> Vec<Token> {
    vec![
        Token::ident(String::from(name), at(file, column)),
        Token::new(TokenKind::LParen, at(file, column + 1)),
        Token::new(TokenKind::RParen, at(file, column + 2)),
    ]
}

fn parse_one(tokens: Vec<Token>) -> (Parser, Result<Stmt, bcpl_front::source_file::Located<ParseError>>) {
    let mut parser = Parser::new(tokens);
    let mut ctx = StmtContext::root();
    let r = parser.parse_stmt(&mut ctx);
    (parser, r)
}

#[test]
fn block_node_kind_and_span() {
    let f = demo_file();
    let mut tokens = vec![Token::new(TokenKind::LBrace, at(&f, 0))];
    tokens.extend(call_tok(&f, "x", 1));
    tokens.push(Token::new(TokenKind::Semicolon, at(&f, 4)));
    tokens.push(Token::new(TokenKind::RBrace, at(&f, 5)));
    tokens.push(Token::new(TokenKind::Eof, at(&f, 6)));
    let (_, r) = parse_one(tokens);
    let stmt = r.expect("block should parse");
    assert_eq!(stmt.loc, at(&f, 0));
    match stmt.kind {
        StmtKind::Block(inner) => {
            assert_eq!(inner.len(), 1);
            assert!(matches!(inner[0].kind, StmtKind::Expr(_)));
            assert_eq!(inner[0].loc, at(&f, 1));
        }
        _ => panic!("expected a block node"),
    }
}

#[test]
fn while_until_nodes() {
    let f = demo_file();
    let mut tokens = vec![Token::new(TokenKind::While, at(&f, 0)), Token::new(TokenKind::True, at(&f, 1)), Token::new(TokenKind::Do, at(&f, 2))];
    tokens.extend(call_tok(&f, "x", 3));
    tokens.push(Token::new(TokenKind::Eof, at(&f, 6)));
    let (_, r) = parse_one(tokens);
    let stmt = r.expect("while should parse");
    assert_eq!(stmt.loc, at(&f, 0));
    assert!(matches!(stmt.kind, StmtKind::While(_, _)));

    let mut tokens = vec![Token::new(TokenKind::Until, at(&f, 0)), Token::new(TokenKind::True, at(&f, 1))];
    tokens.extend(call_tok(&f, "x", 2));
    tokens.push(Token::new(TokenKind::Eof, at(&f, 5)));
    let (_, r) = parse_one(tokens);
    let stmt = r.expect("until should parse");
    assert!(matches!(stmt.kind, StmtKind::Until(_, _)));
}

#[test]
fn if_with_else_and_unless() {
    let f = demo_file();
    let mut tokens = vec![Token::new(TokenKind::If, at(&f, 0)), Token::new(TokenKind::True, at(&f, 1)), Token::new(TokenKind::Do, at(&f, 2))];
    tokens.extend(call_tok(&f, "x", 3));
    tokens.push(Token::new(TokenKind::Else, at(&f, 6)));
    tokens.extend(call_tok(&f, "y", 7));
    tokens.push(Token::new(TokenKind::Eof, at(&f, 10)));
    let (_, r) = parse_one(tokens);
    let stmt = r.expect("if should parse");
    assert_eq!(stmt.loc, at(&f, 0));
    match stmt.kind {
        StmtKind::If(cond, _, else_branch) => {
            assert!(else_branch.is_some());
            // `true` is already boolean: no implicit cast around the condition
            assert!(matches!(cond.kind, ExprKind::BoolLit(true)));
        }
        _ => panic!("expected an if node"),
    }

    let mut tokens = vec![Token::new(TokenKind::Unless, at(&f, 0)), Token::new(TokenKind::IntLit, at(&f, 1))];
    tokens[1] = Token::int_lit(4, at(&f, 1));
    tokens.extend(call_tok(&f, "x", 2));
    tokens.push(Token::new(TokenKind::Eof, at(&f, 5)));
    let (_, r) = parse_one(tokens);
    let stmt = r.expect("unless should parse");
    match stmt.kind {
        StmtKind::Unless(cond, _) => {
            // an integer condition is coerced to boolean by an implicit cast
            assert!(matches!(cond.kind, ExprKind::ImplicitCast(_)));
        }
        _ => panic!("expected an unless node"),
    }
}

#[test]
fn switchon_case_label_cast() {
    // switchon N into { case 'c': ; endcase; }  -- N typed by an int literal
    let f = demo_file();
    let tokens = vec![
        Token::new(TokenKind::SwitchOn, at(&f, 0)),
        Token::int_lit(9, at(&f, 1)),
        Token::new(TokenKind::Into, at(&f, 2)),
        Token::new(TokenKind::LBrace, at(&f, 3)),
        Token::new(TokenKind::Case, at(&f, 4)),
        Token::char_lit('c', at(&f, 5)),
        Token::new(TokenKind::Colon, at(&f, 6)),
        Token::new(TokenKind::EndCase, at(&f, 7)),
        Token::new(TokenKind::Semicolon, at(&f, 8)),
        Token::new(TokenKind::RBrace, at(&f, 9)),
        Token::new(TokenKind::Eof, at(&f, 10)),
    ];
    let (_, r) = parse_one(tokens);
    let stmt = r.expect("switchon should parse");
    assert_eq!(stmt.loc, at(&f, 0));
    match stmt.kind {
        StmtKind::SwitchOn(_, body) => match body.kind {
            StmtKind::Block(inner) => {
                assert_eq!(inner.len(), 2);
                match &inner[0].kind {
                    StmtKind::Case(label) => {
                        // the char label is coerced to the switch condition's int type
                        assert!(matches!(label.kind, ExprKind::ImplicitCast(_)));
                    }
                    _ => panic!("expected a case node"),
                }
                assert!(matches!(inner[1].kind, StmtKind::EndCase));
            }
            _ => panic!("expected a block body"),
        },
        _ => panic!("expected a switchon node"),
    }
}

#[test]
fn second_default_is_a_redefinition() {
    let f = demo_file();
    let tokens = vec![
        Token::new(TokenKind::SwitchOn, at(&f, 0)),
        Token::int_lit(1, at(&f, 1)),
        Token::new(TokenKind::Into, at(&f, 2)),
        Token::new(TokenKind::LBrace, at(&f, 3)),
        Token::new(TokenKind::Default, at(&f, 4)),
        Token::new(TokenKind::Colon, at(&f, 5)),
        Token::new(TokenKind::Default, at(&f, 6)),
        Token::new(TokenKind::Colon, at(&f, 7)),
        Token::new(TokenKind::RBrace, at(&f, 8)),
        Token::new(TokenKind::Eof, at(&f, 9)),
    ];
    let (_, r) = parse_one(tokens);
    let err = r.err().expect("second default must fail");
    assert_eq!(*err.location(), at(&f, 6));
    match err.get() {
        ParseError::Redefinition(prev, what) => {
            assert_eq!(*prev, at(&f, 4));
            assert_eq!(what.as_str(), "default case");
        }
        _ => panic!("expected a redefinition error"),
    }
    // and its diagnostic carries the first definition as a secondary note
    let diag = err.unwrap().to_compiler_error();
    assert_eq!(diag.additional.len(), 1);
    assert_eq!(*diag.additional[0].location(), at(&f, 4));
    assert_eq!(diag.additional[0].get().message.as_str(), "first defined here");
}

#[test]
fn resultis_type_is_fixed_by_first_occurrence() {
    // valof { resultis 1; resultis true; }  as an expression statement
    let f = demo_file();
    let tokens = vec![
        Token::new(TokenKind::ValOf, at(&f, 0)),
        Token::new(TokenKind::LBrace, at(&f, 1)),
        Token::new(TokenKind::ResultIs, at(&f, 2)),
        Token::int_lit(1, at(&f, 3)),
        Token::new(TokenKind::Semicolon, at(&f, 4)),
        Token::new(TokenKind::ResultIs, at(&f, 5)),
        Token::new(TokenKind::True, at(&f, 6)),
        Token::new(TokenKind::Semicolon, at(&f, 7)),
        Token::new(TokenKind::RBrace, at(&f, 8)),
        Token::new(TokenKind::Eof, at(&f, 9)),
    ];
    let (_, r) = parse_one(tokens);
    let stmt = r.expect("valof should parse");
    let body = match stmt.kind {
        StmtKind::Expr(e) => match e.kind {
            ExprKind::ValOf(body) => body,
            _ => panic!("expected a valof expression"),
        },
        _ => panic!("expected an expression statement"),
    };
    let stmts = match body.kind {
        StmtKind::Block(v) => v,
        _ => panic!("expected a block body"),
    };
    assert_eq!(stmts.len(), 2);
    let first_typ = match &stmts[0].kind {
        StmtKind::ResultIs(e) => {
            assert!(matches!(e.kind, ExprKind::IntLit(1)));
            e.typ
        }
        _ => panic!("expected a resultis node"),
    };
    assert!(first_typ.is_some());
    match &stmts[1].kind {
        StmtKind::ResultIs(e) => {
            // the second resultis carries the type the first one fixed,
            // wrapping its boolean in an implicit cast
            assert_eq!(e.typ, first_typ);
            match &e.kind {
                ExprKind::ImplicitCast(inner) => {
                    assert!(matches!(inner.kind, ExprKind::BoolLit(true)));
                    assert_ne!(inner.typ, first_typ);
                }
                _ => panic!("expected an implicit cast"),
            }
        }
        _ => panic!("expected a resultis node"),
    }
}

fn expect_invalid_stmt(tokens: Vec<Token>, kw: &str, construct: &str, err_col: usize) {
    let f = demo_file();
    let (_, r) = parse_one(tokens);
    let err = r.err().expect("statement must be invalid at top level");
    assert_eq!(*err.location(), at(&f, err_col));
    match err.get() {
        ParseError::InvalidStmt(k, c) => {
            assert_eq!(k.as_str(), kw);
            assert_eq!(c.as_str(), construct);
        }
        _ => panic!("expected an invalid-statement error"),
    }
}

#[test]
fn top_level_endcase_is_invalid() {
    let f = demo_file();
    expect_invalid_stmt(
        vec![
            Token::new(TokenKind::EndCase, at(&f, 0)),
            Token::new(TokenKind::Eof, at(&f, 1)),
        ],
        "endcase",
        "switchon",
        0,
    );
}

#[test]
fn top_level_case_is_invalid() {
    let f = demo_file();
    expect_invalid_stmt(
        vec![
            Token::new(TokenKind::Case, at(&f, 0)),
            Token::int_lit(1, at(&f, 1)),
            Token::new(TokenKind::Colon, at(&f, 2)),
            Token::new(TokenKind::Eof, at(&f, 3)),
        ],
        "case",
        "switchon",
        0,
    );
}

#[test]
fn top_level_default_is_invalid() {
    let f = demo_file();
    expect_invalid_stmt(
        vec![
            Token::new(TokenKind::Default, at(&f, 0)),
            Token::new(TokenKind::Colon, at(&f, 1)),
            Token::new(TokenKind::Eof, at(&f, 2)),
        ],
        "default",
        "switchon",
        0,
    );
}

#[test]
fn top_level_resultis_is_invalid() {
    let f = demo_file();
    expect_invalid_stmt(
        vec![
            Token::new(TokenKind::ResultIs, at(&f, 0)),
            Token::int_lit(1, at(&f, 1)),
            Token::new(TokenKind::Eof, at(&f, 2)),
        ],
        "resultis",
        "valof",
        0,
    );
}

#[test]
fn top_level_return_is_invalid() {
    let f = demo_file();
    expect_invalid_stmt(
        vec![
            Token::new(TokenKind::Return, at(&f, 0)),
            Token::int_lit(1, at(&f, 1)),
            Token::new(TokenKind::Eof, at(&f, 2)),
        ],
        "return",
        "function",
        0,
    );
}

#[test]
fn statements_in_a_block_need_terminators() {
    let f = demo_file();
    let mut tokens = vec![Token::new(TokenKind::LBrace, at(&f, 0))];
    tokens.extend(call_tok(&f, "x", 1));
    // no semicolon before the closing brace
    tokens.push(Token::new(TokenKind::RBrace, at(&f, 4)));
    tokens.push(Token::new(TokenKind::Eof, at(&f, 5)));
    let (_, r) = parse_one(tokens);
    let err = r.err().expect("unterminated statement in a block must fail");
    assert!(matches!(err.get(), ParseError::UnexpectedToken(TokenKind::RBrace)));
}

#[test]
fn compound_chain_needs_no_terminators() {
    let f = demo_file();
    let mut tokens = call_tok(&f, "x", 0);
    tokens.push(Token::new(TokenKind::Compound, at(&f, 3)));
    tokens.extend(call_tok(&f, "y", 4));
    tokens.push(Token::new(TokenKind::Eof, at(&f, 7)));
    let (_, r) = parse_one(tokens);
    let stmt = r.expect("a compound chain outside any block parses without terminators");
    // the chain is folded into one sequence node anchored at the separator
    assert_eq!(stmt.loc, at(&f, 3));
    match stmt.kind {
        StmtKind::Block(inner) => assert_eq!(inner.len(), 2),
        _ => panic!("expected a sequence node"),
    }
}

#[test]
fn for_with_same_types_inserts_no_casts() {
    let f = demo_file();
    let mut tokens = vec![
        Token::new(TokenKind::For, at(&f, 0)),
        Token::ident(String::from("I"), at(&f, 1)),
        Token::new(TokenKind::Eq, at(&f, 2)),
        Token::int_lit(1, at(&f, 3)),
        Token::new(TokenKind::To, at(&f, 4)),
        Token::int_lit(10, at(&f, 5)),
        Token::new(TokenKind::By, at(&f, 6)),
        Token::int_lit(2, at(&f, 7)),
        Token::new(TokenKind::Do, at(&f, 8)),
    ];
    tokens.extend(call_tok(&f, "x", 9));
    tokens.push(Token::new(TokenKind::Eof, at(&f, 12)));
    let (_, r) = parse_one(tokens);
    let stmt = r.expect("for should parse");
    match stmt.kind {
        StmtKind::For(decl, init, limit, step, _) => {
            assert_eq!(decl.name.as_str(), "I");
            assert_eq!(decl.typ, init.typ);
            assert!(matches!(init.kind, ExprKind::IntLit(1)));
            assert!(matches!(limit.expect("limit").kind, ExprKind::IntLit(10)));
            assert!(matches!(step.expect("step").kind, ExprKind::IntLit(2)));
        }
        _ => panic!("expected a for node"),
    }
}

#[test]
fn for_with_differing_bound_casts_only_the_bound() {
    let f = demo_file();
    let mut tokens = vec![
        Token::new(TokenKind::For, at(&f, 0)),
        Token::ident(String::from("I"), at(&f, 1)),
        Token::new(TokenKind::Eq, at(&f, 2)),
        Token::int_lit(1, at(&f, 3)),
        Token::new(TokenKind::To, at(&f, 4)),
        Token::char_lit('c', at(&f, 5)),
        Token::new(TokenKind::Do, at(&f, 6)),
    ];
    tokens.extend(call_tok(&f, "x", 7));
    tokens.push(Token::new(TokenKind::Eof, at(&f, 10)));
    let (_, r) = parse_one(tokens);
    let stmt = r.expect("for should parse");
    match stmt.kind {
        StmtKind::For(decl, init, limit, step, _) => {
            // the init keeps its own type, untouched
            assert!(matches!(init.kind, ExprKind::IntLit(1)));
            assert_eq!(decl.typ, init.typ);
            let limit = limit.expect("limit");
            // exactly one cast wraps the differing bound, to the init's type
            assert_eq!(limit.typ, init.typ);
            match limit.kind {
                ExprKind::ImplicitCast(inner) => {
                    assert!(matches!(inner.kind, ExprKind::CharLit('c')));
                    assert_ne!(inner.typ, init.typ);
                }
                _ => panic!("expected a cast around the bound"),
            }
            assert!(step.is_none());
        }
        _ => panic!("expected a for node"),
    }
}

#[test]
fn effect_free_expression_statement_warns_once() {
    let f = demo_file();
    let tokens = vec![
        Token::ident(String::from("x"), at(&f, 0)),
        Token::new(TokenKind::Eof, at(&f, 1)),
    ];
    let (parser, r) = parse_one(tokens);
    let stmt = r.expect("the statement still parses");
    assert!(matches!(stmt.kind, StmtKind::Expr(_)));
    let warnings = parser.warnings();
    assert_eq!(warnings.len(), 1);
    assert!(matches!(warnings[0].get(), ParseError::ExprWithoutSideEffect));
    assert_eq!(*warnings[0].location(), at(&f, 0));
}

#[test]
fn effectful_expression_statement_does_not_warn() {
    let f = demo_file();
    let mut tokens = call_tok(&f, "x", 0);
    tokens.push(Token::new(TokenKind::Eof, at(&f, 3)));
    let (parser, r) = parse_one(tokens);
    assert!(r.is_ok());
    assert_eq!(parser.warnings().len(), 0);
}

#[test]
fn assignment_counts_as_a_side_effect() {
    let f = demo_file();
    let tokens = vec![
        Token::ident(String::from("x"), at(&f, 0)),
        Token::new(TokenKind::Eq, at(&f, 1)),
        Token::int_lit(3, at(&f, 2)),
        Token::new(TokenKind::Eof, at(&f, 3)),
    ];
    let (parser, r) = parse_one(tokens);
    let stmt = r.expect("assignment should parse");
    match stmt.kind {
        StmtKind::Expr(e) => assert!(matches!(e.kind, ExprKind::Assign(_, _))),
        _ => panic!("expected an expression statement"),
    }
    assert_eq!(parser.warnings().len(), 0);
}

#[test]
fn parse_runs_to_the_end_of_the_stream() {
    let f = demo_file();
    let mut tokens = vec![Token::new(TokenKind::LBrace, at(&f, 0))];
    tokens.push(Token::new(TokenKind::RBrace, at(&f, 1)));
    tokens.push(Token::new(TokenKind::LBrace, at(&f, 2)));
    tokens.push(Token::new(TokenKind::RBrace, at(&f, 3)));
    tokens.push(Token::new(TokenKind::Eof, at(&f, 4)));
    let mut parser = Parser::new(tokens);
    let program = parser.parse().expect("two empty blocks parse");
    assert_eq!(program.len(), 2);
}

#[test]
fn expect_rejects_the_wrong_kind() {
    let f = demo_file();
    let tokens = vec![
        Token::new(TokenKind::Semicolon, at(&f, 0)),
        Token::new(TokenKind::Eof, at(&f, 1)),
    ];
    let mut parser = Parser::new(tokens);
    let r = parser.expect(&[TokenKind::LBrace, TokenKind::If]);
    let err = r.err().expect("expect must fail on the wrong kind");
    assert!(matches!(err.get(), ParseError::UnexpectedToken(TokenKind::Semicolon)));
    assert_eq!(*err.location(), at(&f, 0));
    // and advance_if leaves the stream alone on a mismatch
    let mut parser2 = Parser::new(vec![
        Token::new(TokenKind::Semicolon, at(&f, 0)),
        Token::new(TokenKind::Eof, at(&f, 1)),
    ]);
    assert!(parser2.advance_if(&[TokenKind::LBrace]).is_none());
    assert!(parser2.expect(&[TokenKind::Semicolon]).is_ok());
}

#[test]
fn return_type_is_fixed_by_first_occurrence() {
    let f = demo_file();
    let tokens = vec![
        Token::new(TokenKind::Return, at(&f, 0)),
        Token::int_lit(1, at(&f, 1)),
        Token::new(TokenKind::Return, at(&f, 2)),
        Token::new(TokenKind::True, at(&f, 3)),
        Token::new(TokenKind::Eof, at(&f, 4)),
    ];
    let mut parser = Parser::new(tokens);
    let mut ctx = StmtContext::root();
    ctx.enter(StmtFrame::Function { return_type: None });
    let first = parser.parse_stmt(&mut ctx).expect("first return parses");
    let second = parser.parse_stmt(&mut ctx).expect("second return parses");
    let first_typ = match first.kind {
        StmtKind::Return(e) => {
            assert!(matches!(e.kind, ExprKind::IntLit(1)));
            e.typ
        }
        _ => panic!("expected a return node"),
    };
    assert!(first_typ.is_some());
    match second.kind {
        StmtKind::Return(e) => {
            assert_eq!(e.typ, first_typ);
            match e.kind {
                ExprKind::ImplicitCast(inner) => {
                    assert!(matches!(inner.kind, ExprKind::BoolLit(true)));
                }
                _ => panic!("expected an implicit cast"),
            }
        }
        _ => panic!("expected a return node"),
    }
    // the function's return slot now holds the fixed type
    assert_eq!(ctx.cell(0), Some(first_typ));
}

#[test]
fn valof_expression_takes_the_fixed_type() {
    let f = demo_file();
    let tokens = vec![
        Token::new(TokenKind::ValOf, at(&f, 0)),
        Token::new(TokenKind::LBrace, at(&f, 1)),
        Token::new(TokenKind::ResultIs, at(&f, 2)),
        Token::char_lit('q', at(&f, 3)),
        Token::new(TokenKind::Semicolon, at(&f, 4)),
        Token::new(TokenKind::RBrace, at(&f, 5)),
        Token::new(TokenKind::Eof, at(&f, 6)),
    ];
    let (_, r) = parse_one(tokens);
    let stmt = r.expect("valof should parse");
    match stmt.kind {
        StmtKind::Expr(e) => {
            assert!(matches!(e.kind, ExprKind::ValOf(_)));
            let inner_typ = match e.kind {
                ExprKind::ValOf(body) => match body.kind {
                    StmtKind::Block(v) => match &v[0].kind {
                        StmtKind::ResultIs(res) => res.typ,
                        _ => panic!("expected a resultis node"),
                    },
                    _ => panic!("expected a block body"),
                },
                _ => unreachable!(),
            };
            assert!(inner_typ.is_some());
            assert_eq!(e.typ, inner_typ);
        }
        _ => panic!("expected an expression statement"),
    }
}

#[test]
fn switchon_with_empty_body_parses() {
    let f = demo_file();
    let tokens = vec![
        Token::new(TokenKind::SwitchOn, at(&f, 0)),
        Token::int_lit(2, at(&f, 1)),
        Token::new(TokenKind::Into, at(&f, 2)),
        Token::new(TokenKind::LBrace, at(&f, 3)),
        Token::new(TokenKind::RBrace, at(&f, 4)),
        Token::new(TokenKind::Eof, at(&f, 5)),
    ];
    let (_, r) = parse_one(tokens);
    let stmt = r.expect("switchon with an empty body parses");
    match stmt.kind {
        StmtKind::SwitchOn(cond, _) => {
            // the condition is handed through untouched, never cast
            assert!(matches!(cond.kind, ExprKind::IntLit(2)));
        }
        _ => panic!("expected a switchon node"),
    }
}

#[test]
fn empty_stream_parses_to_the_empty_program() {
    let f = demo_file();
    let mut parser = Parser::new(vec![Token::new(TokenKind::Eof, at(&f, 0))]);
    let program = parser.parse().expect("an empty stream parses");
    assert_eq!(program.len(), 0);
}
