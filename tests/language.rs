use exprlang::ast::Ast;
use exprlang::environment::Environment;
use exprlang::interpreter::{Interpreter, RuntimeError};
use exprlang::lexer::{LexError, Lexer};
use exprlang::parser::{ParseError, Parser, SyntaxError};
use exprlang::pipeline::{run, Error};
use exprlang::token::{Op, Token};

fn tokens(src: &str) -> Vec<Token> {
    let mut lexer = Lexer::new(src);
    let mut out = Vec::new();
    loop {
        let t = lexer.next_token().expect("lexes");
        if t == Token::EOF {
            return out;
        }
        out.push(t);
    }
}

fn parse(src: &str) -> Result<Ast, ParseError> {
    let mut parser = Parser::new(Lexer::new(src))?;
    parser.expr()
}

fn num(v: i64) -> Box<Ast> {
    Box::new(Ast::Num(v))
}

#[test]
fn integer_literals_lex_back_to_their_value() {
    for n in [0i64, 7, 42, 1000, 123456789, i64::MAX] {
        let text = n.to_string();
        let mut lexer = Lexer::new(&text);
        assert_eq!(lexer.next_token(), Ok(Token::Number(n)));
        assert_eq!(lexer.next_token(), Ok(Token::EOF));
    }
}

#[test]
fn literal_past_i64_is_a_lexical_fault() {
    let mut lexer = Lexer::new("9223372036854775808");
    assert_eq!(lexer.next_token(), Err(LexError::NumberTooLarge));
    assert_eq!(run("9223372036854775808"), Err(Error::Parse(ParseError::Lex(LexError::NumberTooLarge))));
}

#[test]
fn integer_reads_a_digit_run() {
    let mut lexer = Lexer::new("0042+1");
    assert_eq!(lexer.integer(), Ok(42));
    assert_eq!(lexer.next_token(), Ok(Token::Plus));
}

#[test]
fn symbols_keywords_and_identifiers() {
    assert_eq!(
        tokens("( ) + - * / > < ; { } ="),
        vec![
            Token::LParen, Token::RParen, Token::Plus, Token::Minus, Token::Asterisk,
            Token::Slash, Token::GreaterThan, Token::LessThan, Token::SemiColon,
            Token::LBrace, Token::RBrace, Token::Assign,
        ]
    );
    assert_eq!(
        tokens("if then else print while iffy"),
        vec![
            Token::If, Token::Then, Token::Else, Token::Print, Token::While,
            Token::Ident("iffy".to_string()),
        ]
    );
    assert_eq!(tokens("x1"), vec![Token::Ident("x".to_string()), Token::Number(1)]);
    assert_eq!(tokens("\tcafé "), vec![Token::Ident("café".to_string())]);
}

#[test]
fn newline_ends_the_line() {
    let mut lexer = Lexer::new("1 \n 2");
    assert_eq!(lexer.next_token(), Ok(Token::Number(1)));
    assert_eq!(lexer.next_token(), Ok(Token::EOF));
    assert_eq!(lexer.next_token(), Ok(Token::Number(2)));
    assert_eq!(lexer.next_token(), Ok(Token::EOF));
    assert_eq!(run("1 + 2\n * 5"), Ok((3, vec![])));
}

#[test]
fn invalid_character_is_a_lexical_fault() {
    let mut lexer = Lexer::new("  $");
    assert_eq!(lexer.next_token(), Err(LexError::InvalidCharacter('$')));
    assert_eq!(run("1 + #"), Err(Error::Parse(ParseError::Lex(LexError::InvalidCharacter('#')))));
}

#[test]
fn empty_source_is_eof() {
    let mut lexer = Lexer::new("");
    assert_eq!(lexer.next_token(), Ok(Token::EOF));
    assert_eq!(lexer.next_token(), Ok(Token::EOF));
    assert_eq!(run("   "), Err(Error::Parse(ParseError::Syntax(SyntaxError::UnexpectedToken))));
}

#[test]
fn multiplication_binds_tighter_than_addition() {
    assert_eq!(
        parse("2 + 2 * 2"),
        Ok(Ast::BinOp {
            op: Op::Add,
            left: num(2),
            right: Box::new(Ast::BinOp { op: Op::Mul, left: num(2), right: num(2) }),
        })
    );
    let ast = parse("2 + 2 * 2").unwrap();
    let mut interpreter = Interpreter::new();
    assert_eq!(interpreter.eval(&ast), Ok(6));
    assert_eq!(run("2 + 2 * 2"), Ok((6, vec![])));
}

#[test]
fn left_associative_subtraction_and_division() {
    assert_eq!(run("10 - 3 - 2"), Ok((5, vec![])));
    assert_eq!(run("100 / 10 / 5"), Ok((2, vec![])));
    assert_eq!(run("(1 + 2) * 3"), Ok((9, vec![])));
}

#[test]
fn if_then_else_takes_the_else_branch() {
    let mut parser = Parser::new(Lexer::new("if 3 < 2 then 1+2 else 1*4")).unwrap();
    let ast = parser.if_then_else().unwrap();
    let mut interpreter = Interpreter::new();
    assert_eq!(interpreter.eval(&ast), Ok(4));
}

#[test]
fn if_then_else_takes_the_then_branch() {
    let mut parser = Parser::new(Lexer::new("if 3 > 2 then 1+2 else 1*4")).unwrap();
    let ast = parser.if_then_else().unwrap();
    let mut interpreter = Interpreter::new();
    assert_eq!(interpreter.eval(&ast), Ok(3));
}

#[test]
fn comparisons_give_one_or_zero() {
    assert_eq!(run("3 < 2"), Ok((0, vec![])));
    assert_eq!(run("2 < 3"), Ok((1, vec![])));
    assert_eq!(run("3 > 3"), Ok((0, vec![])));
    assert_eq!(run("1 + 1 > 1"), Ok((1, vec![])));
}

#[test]
fn trailing_if_replaces_what_came_before() {
    assert_eq!(run("5 + 5 if 1 then 2 else 3"), Ok((2, vec![])));
    assert_eq!(run("5 if 0 then 2 else 3"), Ok((3, vec![])));
}

#[test]
fn if_entry_reports_missing_keywords() {
    let mut p = Parser::new(Lexer::new("if 1 2 else 3")).unwrap();
    assert_eq!(p.if_then_else(), Err(ParseError::Syntax(SyntaxError::MissingThen)));
    let mut p = Parser::new(Lexer::new("if 1 then 2 3")).unwrap();
    assert_eq!(p.if_then_else(), Err(ParseError::Syntax(SyntaxError::MissingElse)));
    let mut p = Parser::new(Lexer::new("1 then 2 else 3")).unwrap();
    assert_eq!(p.if_then_else(), Err(ParseError::Syntax(SyntaxError::UnexpectedToken)));
}

#[test]
fn print_emits_its_value_once() {
    let ast = parse("print 2+2*2").unwrap();
    let mut interpreter = Interpreter::new();
    assert_eq!(interpreter.eval(&ast), Ok(6));
    assert_eq!(interpreter.output(), &vec![6]);
    assert_eq!(run("print 2+2*2"), Ok((6, vec![6])));
}

#[test]
fn division_truncates_toward_zero() {
    assert_eq!(run("10 / 3"), Ok((3, vec![])));
    assert_eq!(run("(0 - 7) / 2"), Ok((-3, vec![])));
    assert_eq!(run("7 / (0 - 2)"), Ok((-3, vec![])));
}

#[test]
fn division_by_zero_is_a_runtime_fault() {
    assert_eq!(run("5 / 0"), Err(Error::Runtime(RuntimeError::DivisionByZero)));
}

#[test]
fn overflow_is_a_runtime_fault() {
    assert_eq!(run("9223372036854775807 + 1"), Err(Error::Runtime(RuntimeError::Overflow)));
    assert_eq!(run("0 - 9223372036854775807 - 2"), Err(Error::Runtime(RuntimeError::Overflow)));
    assert_eq!(run("4611686018427387904 * 2"), Err(Error::Runtime(RuntimeError::Overflow)));
    assert_eq!(run("(0 - 9223372036854775807 - 1) / (0 - 1)"), Err(Error::Runtime(RuntimeError::Overflow)));
}

#[test]
fn assignment_then_lookup() {
    let mut interpreter = Interpreter::new();
    let assign = Ast::Assignment { identifier: "x".to_string(), value: num(4) };
    assert_eq!(interpreter.eval(&assign), Ok(4));
    assert_eq!(interpreter.eval(&Ast::Identifier("x".to_string())), Ok(4));
    assert_eq!(interpreter.lookup(&"x".to_string()), Some(4));
    let again = Ast::Assignment { identifier: "x".to_string(), value: num(9) };
    assert_eq!(interpreter.eval(&again), Ok(9));
    assert_eq!(interpreter.eval(&Ast::Identifier("x".to_string())), Ok(9));
}

#[test]
fn unassigned_lookup_faults() {
    let mut interpreter = Interpreter::new();
    assert_eq!(
        interpreter.eval(&Ast::Identifier("y".to_string())),
        Err(RuntimeError::UndefinedVariable)
    );
    assert_eq!(run("y + 1"), Err(Error::Runtime(RuntimeError::UndefinedVariable)));
}

#[test]
fn assignment_parses_and_evaluates() {
    assert_eq!(
        parse("a = 4"),
        Ok(Ast::Assignment { identifier: "a".to_string(), value: num(4) })
    );
    assert_eq!(run("a = 2 * 3"), Ok((6, vec![])));
}

#[test]
fn assignment_to_non_identifier_is_a_syntax_fault() {
    assert_eq!(parse("2 = 3"), Err(ParseError::Syntax(SyntaxError::InvalidAssignment)));
}

#[test]
fn missing_paren_is_a_syntax_fault() {
    assert_eq!(parse("(1 + 2"), Err(ParseError::Syntax(SyntaxError::MissingRParen)));
    assert_eq!(parse(")"), Err(ParseError::Syntax(SyntaxError::UnexpectedToken)));
    assert_eq!(parse("if 1 then 2 else 3"), Err(ParseError::Syntax(SyntaxError::UnexpectedToken)));
}

#[test]
fn while_with_false_condition_skips_body() {
    let ast = Ast::WhileLoop {
        condition: num(0),
        body: Box::new(Ast::KeywordPrint(num(9))),
    };
    let mut interpreter = Interpreter::new();
    assert_eq!(interpreter.eval(&ast), Ok(1));
    assert!(interpreter.output().is_empty());
    assert_eq!(run("7 while 0 { print 9 }"), Ok((1, vec![])));
}

#[test]
fn while_parses_mid_expression() {
    assert_eq!(
        parse("2 * 3 while 0 { 5 }"),
        Ok(Ast::WhileLoop { condition: num(0), body: num(5) })
    );
    assert_eq!(parse("1 while 0 5 }"), Err(ParseError::Syntax(SyntaxError::MissingLBrace)));
    assert_eq!(parse("1 while 0 { 5"), Err(ParseError::Syntax(SyntaxError::MissingRBrace)));
}

#[test]
fn while_emits_each_body_value_and_stops() {
    // x = 3; while x > 0 { x = x - 1 }, written as trees.
    let mut interpreter = Interpreter::new();
    let init = Ast::Assignment { identifier: "x".to_string(), value: num(3) };
    assert_eq!(interpreter.eval(&init), Ok(3));
    let x = || Box::new(Ast::Identifier("x".to_string()));
    let lp = Ast::WhileLoop {
        condition: Box::new(Ast::BinOp { op: Op::Gt, left: x(), right: num(0) }),
        body: Box::new(Ast::Assignment {
            identifier: "x".to_string(),
            value: Box::new(Ast::BinOp { op: Op::Sub, left: x(), right: num(1) }),
        }),
    };
    assert_eq!(interpreter.eval(&lp), Ok(1));
    assert_eq!(interpreter.output(), &vec![2, 1, 0]);
    assert_eq!(interpreter.lookup(&"x".to_string()), Some(0));
}

#[test]
fn endless_loop_hits_the_iteration_limit() {
    let mut interpreter = Interpreter::with_iteration_limit(3);
    let lp = Ast::WhileLoop { condition: num(1), body: num(7) };
    assert_eq!(interpreter.eval(&lp), Err(RuntimeError::IterationLimit));
}

#[test]
fn reevaluation_without_assignment_is_repeatable() {
    let ast = parse("print (3 * 4) if 2 > 1 then print 5 else 6").unwrap();
    let mut first = Interpreter::new();
    let mut second = Interpreter::new();
    assert_eq!(first.eval(&ast), Ok(5));
    assert_eq!(second.eval(&ast), Ok(5));
    assert_eq!(first.eval(&ast), Ok(5));
    // The outer print wraps the conditional, whose branch prints too.
    assert_eq!(second.into_output(), vec![5, 5]);
    assert_eq!(first.into_output(), vec![5, 5, 5, 5]);
}

#[test]
fn into_op_maps_operators_only() {
    assert_eq!(Token::Plus.into_op(), Some(Op::Add));
    assert_eq!(Token::Minus.into_op(), Some(Op::Sub));
    assert_eq!(Token::Asterisk.into_op(), Some(Op::Mul));
    assert_eq!(Token::Slash.into_op(), Some(Op::Div));
    assert_eq!(Token::GreaterThan.into_op(), Some(Op::Gt));
    assert_eq!(Token::LessThan.into_op(), Some(Op::Lt));
    assert_eq!(Token::While.into_op(), None);
    assert_eq!(Token::Number(1).into_op(), None);
}

#[test]
fn same_as_compares_payloads() {
    assert!(Token::Number(1).same_as(&Token::Number(1)));
    assert!(!Token::Number(1).same_as(&Token::Number(2)));
    assert!(Token::Ident("a".to_string()).same_as(&Token::Ident("a".to_string())));
    assert!(!Token::Ident("a".to_string()).same_as(&Token::Ident("b".to_string())));
    assert!(!Token::Plus.same_as(&Token::Minus));
}

#[test]
fn eat_and_advance_move_the_lookahead() {
    let mut p = Parser::new(Lexer::new("{ }")).unwrap();
    assert_eq!(p.eat(Token::RBrace), Err(ParseError::Syntax(SyntaxError::MissingRBrace)));
    assert_eq!(p.eat(Token::LBrace), Ok(()));
    assert_eq!(p.advance(), Ok(()));
    assert_eq!(p.factor(), Err(ParseError::Syntax(SyntaxError::UnexpectedToken)));
}

#[test]
fn term_and_lowest_precedence_fold_left() {
    let mut p = Parser::new(Lexer::new("8 / 2 * 3")).unwrap();
    let t = p.term().unwrap();
    let mut i = Interpreter::new();
    assert_eq!(i.eval(&t), Ok(12));
    let mut p = Parser::new(Lexer::new("- 2 + 3")).unwrap();
    let l = p.lowest_precedence(Ast::Num(10)).unwrap();
    assert_eq!(i.eval(&l), Ok(11));
}

#[test]
fn skip_whitespace_and_advance() {
    let mut lexer = Lexer::new("  \t7");
    lexer.skip_whitespace();
    assert_eq!(lexer.integer(), Ok(7));
    let mut lexer = Lexer::new("ab");
    lexer.advance();
    assert_eq!(lexer.next_token(), Ok(Token::Ident("b".to_string())));
}

#[test]
fn while_expr_entry() {
    let mut p = Parser::new(Lexer::new("while 0 { 1 }")).unwrap();
    assert_eq!(p.while_expr(), Ok(Ast::WhileLoop { condition: num(0), body: num(1) }));
}

#[test]
fn environment_is_handed_in_and_back() {
    let mut env = Environment::new();
    assert_eq!(env.lookup(&"n".to_string()), None);
    env.assign(&"n".to_string(), 5);
    env.assign(&"m".to_string(), 1);
    env.assign(&"n".to_string(), 6);
    assert_eq!(env.lookup(&"n".to_string()), Some(6));
    let mut interpreter = Interpreter::with_environment(env, 10);
    let ast = parse("n * 7").unwrap();
    assert_eq!(interpreter.eval(&ast), Ok(42));
    let ast = parse("k = m + n").unwrap();
    assert_eq!(interpreter.eval(&ast), Ok(7));
    let env = interpreter.into_environment();
    assert_eq!(env.lookup(&"k".to_string()), Some(7));
    assert_eq!(env.lookup(&"m".to_string()), Some(1));
}
