// The lexer, the compiler and the virtual machine, stage by stage.
#![allow(clippy::approx_constant)]
use psi_lang::OpCode::{
    OpAdd, OpConstant, OpDiv, OpEqual, OpFalse, OpGreater, OpLess, OpMod, OpMul, OpNil, OpNot,
    OpPow, OpReturn, OpSub, OpTrue,
};
use psi_lang::render::underline;
use psi_lang::value::{number_equal, number_less, number_negate, values_equal};
use psi_lang::TokenKind as K;
use psi_lang::{
    get_rule, interpret, Chunk, Compiler, Error, Lexer, NumOp, OpCode, Precedence, Token,
    TokenKind, Value, VM,
};

/// Reads a numeral as a binary64 number, for the tests.
fn read(numeral: String) -> u64 {
    numeral.parse::<f64>().unwrap().to_bits()
}

/// Binary64 arithmetic on bit patterns, for the tests.
fn engine(op: NumOp, lhs: u64, rhs: u64) -> u64 {
    let (a, b) = (f64::from_bits(lhs), f64::from_bits(rhs));
    let r = match op {
        NumOp::Add => a + b,
        NumOp::Sub => a - b,
        NumOp::Mul => a * b,
        NumOp::Div => a / b,
        NumOp::Rem => a % b,
        NumOp::Pow => a.powf(b),
    };
    r.to_bits()
}

fn n(x: f64) -> TokenKind {
    TokenKind::Number(x.to_bits())
}

fn num(x: f64) -> Value {
    Value::Number(x.to_bits())
}

fn tok(kind: TokenKind, start: usize, len: usize, line: usize, col: usize) -> Token {
    Token { kind, start, len, line, col }
}

/// A number result as the driver shows it: rounded to five decimal places.
fn shown(v: &Option<Value>) -> Option<f64> {
    match v {
        Some(Value::Number(b)) => Some(round::round(f64::from_bits(*b), 5)),
        _ => None,
    }
}

#[test]
fn lexer() {
    // Test the Lexer at arithmetic
    let mut lexer = Lexer::new("1 + 1 - 45 / 21 * 534 ^ (3897 % 4)");
    assert!(lexer.run(&read).is_ok());
    assert_eq!(lexer.tokens, [
        tok(n(1.0), 0, 1, 1, 1),
        tok(K::Plus, 2, 1, 1, 3),
        tok(n(1.0), 4, 1, 1, 5),
        tok(K::Minus, 6, 1, 1, 7),
        tok(n(45.0), 8, 2, 1, 9),
        tok(K::Slash, 11, 1, 1, 12),
        tok(n(21.0), 13, 2, 1, 14),
        tok(K::Asterisk, 16, 1, 1, 17),
        tok(n(534.0), 18, 3, 1, 19),
        tok(K::Hat, 22, 1, 1, 23),
        tok(K::LeftParen, 24, 1, 1, 25),
        tok(n(3897.0), 25, 4, 1, 26),
        tok(K::Percent, 30, 1, 1, 31),
        tok(n(4.0), 32, 1, 1, 33),
        tok(K::RightParen, 33, 1, 1, 34),
        tok(K::EOI, 34, 0, 1, 35),
    ]);
    // Test the lexer at other operators & datastructures & comments
    let mut lexer = Lexer::new("true == \"Hello World\" != false // Hello\n");
    assert!(lexer.run(&read).is_ok());
    assert_eq!(lexer.tokens, [
        tok(K::True, 0, 4, 1, 1),
        tok(K::Equals, 5, 2, 1, 6),
        tok(K::String("Hello World".to_string()), 8, 13, 1, 9),
        tok(K::NotEquals, 22, 2, 1, 23),
        tok(K::False, 25, 5, 1, 26),
        tok(K::Comment, 31, 8, 1, 32),
        tok(K::EOI, 40, 0, 2, 2),
    ]);
    // Test the lexer at more operators & datastructures & comments
    let mut lexer = Lexer::new("4 > 3 < 2 >= 5 <= 3 == !true");
    assert!(lexer.run(&read).is_ok());
    assert_eq!(lexer.tokens, [
        tok(n(4.0), 0, 1, 1, 1),
        tok(K::Greater, 2, 1, 1, 3),
        tok(n(3.0), 4, 1, 1, 5),
        tok(K::Less, 6, 1, 1, 7),
        tok(n(2.0), 8, 1, 1, 9),
        tok(K::GreaterEq, 10, 2, 1, 11),
        tok(n(5.0), 13, 1, 1, 14),
        tok(K::LessEq, 15, 2, 1, 16),
        tok(n(3.0), 18, 1, 1, 19),
        tok(K::Equals, 20, 2, 1, 21),
        tok(K::Exclamation, 23, 1, 1, 24),
        tok(K::True, 24, 4, 1, 25),
        tok(K::EOI, 28, 0, 1, 29),
    ]);
    // Test the lexer at unicode & newlines & multiline comments
    let mut lexer = Lexer::new("\"H 你好 hi\"\n\n/* hello\nthere*/\t\n");
    assert!(lexer.run(&read).is_ok());
    assert_eq!(lexer.tokens, [
        tok(K::String("H 你好 hi".to_string()), 0, 9, 1, 1),
        tok(K::Comment, 11, 16, 3, 2),
        tok(K::EOI, 29, 0, 5, 2),
    ]);
    // Multiline strings & floats & unary operations (with nil)
    let mut lexer = Lexer::new("\"hello\nworld\" == 3.141 != not nil");
    assert!(lexer.run(&read).is_ok());
    assert_eq!(lexer.tokens, [
        tok(K::String("hello\nworld".to_string()), 0, 13, 1, 1),
        tok(K::Equals, 14, 2, 2, 9),
        tok(n(3.141), 17, 5, 2, 12),
        tok(K::NotEquals, 23, 2, 2, 18),
        tok(K::Not, 26, 3, 2, 21),
        tok(K::Nil, 30, 3, 2, 25),
        tok(K::EOI, 33, 0, 2, 28),
    ]);
    // Errors & formatting
    let mut lexer = Lexer::new("234786 你");
    assert_eq!(lexer.run(&read), Err(Error::UnexpectedCharacter('你', 1, 8, 1)));
    let mut lexer = Lexer::new("note");
    assert_eq!(lexer.run(&read), Err(Error::UnexpectedCharacter('n', 1, 1, 1)));
    // Tokens of a short expression
    let mut lexer = Lexer::new("2 + 3");
    assert!(lexer.run(&read).is_ok());
    assert_eq!(lexer.tokens.len(), 4);
}

fn compiled(src: &str) -> Compiler {
    let mut lexer = Lexer::new(src);
    assert!(lexer.run(&read).is_ok());
    Compiler::new(lexer.tokens)
}

#[test]
fn compiler() {
    // Test arithmetic precedence and operations
    let mut compiler = compiled("(1 + 2) / 3 - 4 * 5 % 6 ^ 7");
    assert!(compiler.compile().is_ok());
    assert_eq!(compiler.chunk, Chunk {
        code: vec![
            (2, 1, OpConstant(0)), (6, 1, OpConstant(1)), (4, 1, OpAdd),
            (11, 1, OpConstant(2)), (9, 1, OpDiv),
            (15, 1, OpConstant(3)), (19, 1, OpConstant(4)), (17, 1, OpMul),
            (23, 1, OpConstant(5)), (27, 1, OpConstant(6)), (25, 1, OpPow),
            (21, 1, OpMod), (13, 1, OpSub), (28, 0, OpReturn)
        ],
        constants: vec![
            num(1.0), num(2.0),
            num(3.0), num(4.0),
            num(5.0), num(6.0),
            num(7.0),
        ],
        line: 1,
    });
    // Test comparison
    let mut compiler = compiled("(4 + 23 > 324 == 32 <= 1) != (5 - 3 < 3 ^ 5 == 3 >= 4)");
    assert!(compiler.compile().is_ok());
    assert_eq!(compiler.chunk, Chunk {
        code: vec![
            (2, 1, OpConstant(0)), (6, 2, OpConstant(1)), (4, 1, OpAdd),
            (11, 3, OpConstant(2)), (9, 1, OpGreater),
            (18, 2, OpConstant(3)), (24, 1, OpConstant(4)), (21, 2, OpGreater),
            (21, 2, OpNot), (15, 2, OpEqual),
            (31, 1, OpConstant(5)), (35, 1, OpConstant(6)), (33, 1, OpSub),
            (39, 1, OpConstant(7)), (43, 1, OpConstant(8)), (41, 1, OpPow),
            (37, 1, OpLess),
            (48, 1, OpConstant(9)), (53, 1, OpConstant(10)), (50, 2, OpLess),
            (50, 2, OpNot), (45, 2, OpEqual), (27, 2, OpEqual), (27, 2, OpNot),
            (55, 0, OpReturn)
        ],
        constants: vec![
            num(4.0), num(23.0),
            num(324.0), num(32.0),
            num(1.0), num(5.0),
            num(3.0), num(3.0),
            num(5.0), num(3.0),
            num(4.0),
        ],
        line: 1,
    });
    // Test equality
    let mut compiler = compiled("(true == nil) != (\"Hello\" == 4 + 6 ^ 2)");
    assert!(compiler.compile().is_ok());
    assert_eq!(compiler.chunk, Chunk {
        code: vec![
            (2, 4, OpTrue), (10, 3, OpNil), (7, 2, OpEqual),
            (19, 7, OpConstant(0)), (30, 1, OpConstant(1)),
            (34, 1, OpConstant(2)), (38, 1, OpConstant(3)), (36, 1, OpPow),
            (32, 1, OpAdd), (27, 2, OpEqual), (15, 2, OpEqual), (15, 2, OpNot),
            (40, 0, OpReturn)
        ],
        constants: vec![
            Value::String("Hello".to_string()), num(4.0),
            num(6.0), num(2.0),
        ],
        line: 1,
    });
    // Test unary operations
    let mut compiler = compiled("!true == not true");
    assert!(compiler.compile().is_ok());
    assert_eq!(compiler.chunk, Chunk {
        code: vec![
            (2, 4, OpTrue), (1, 1, OpNot),
            (14, 4, OpTrue), (10, 3, OpNot),
            (7, 2, OpEqual), (18, 0, OpReturn)
        ],
        constants: vec![],
        line: 1,
    });
    // Test comment jumping
    let mut compiler = compiled("/* haha */ 1 + /* hello */ 2 / 37 // Lol");
    assert!(compiler.compile().is_ok());
    assert_eq!(compiler.chunk, Chunk {
        code: vec![
            (12, 1, OpConstant(0)), (28, 1, OpConstant(1)),
            (32, 2, OpConstant(2)), (30, 1, OpDiv),
            (14, 1, OpAdd), (42, 0, OpReturn)
        ],
        constants: vec![
            num(1.0), num(2.0),
            num(37.0),
        ],
        line: 1,
    });
    // Test empty comment lines
    let mut compiler = compiled("// Lol");
    assert!(compiler.compile().is_ok());
    assert_eq!(compiler.chunk, Chunk {
        code: vec![],
        constants: vec![],
        line: 1,
    });
    // A longer expression compiles
    let mut compiler = compiled("1 + 2 / 3 - 4 * 5 % 6 ^ 7");
    assert!(compiler.compile().is_ok());
    // Test errors
    let mut compiler = compiled("1 + +");
    assert_eq!(compiler.compile(), Err(Error::ExpectedExpression(1, 5, 1)));
    let mut compiler = compiled("(1 + 3");
    assert_eq!(compiler.compile(), Err(Error::ExpectedToken(TokenKind::RightParen, 1, 7, 0)));
}

fn chunk_of(src: &str) -> Chunk {
    let mut compiler = compiled(src);
    assert!(compiler.compile().is_ok());
    compiler.chunk
}

#[test]
fn virtual_machine() {
    // Test arithmetic & negation
    let mut vm = VM::new(true);
    assert!(vm.run(chunk_of("(1 + 2) / 3 - 4 * -5 % 6 ^ -7"), &engine).is_ok());
    assert_eq!(shown(&vm.result), Some(1.0));
    // Test string concatenation
    let mut vm = VM::new(true);
    assert!(vm.run(chunk_of("\"Hello\" + \" World!\""), &engine).is_ok());
    assert_eq!(vm.result, Some(Value::String("Hello World!".to_string())));
    // Test unary & equality
    let mut vm = VM::new(false);
    assert!(vm.run(chunk_of("not true == nil"), &engine).is_ok());
    assert_eq!(vm.result, Some(Value::Boolean(false)));
    let mut vm = VM::new(true);
    assert!(vm.run(chunk_of("(1 != 2) == !false"), &engine).is_ok());
    assert_eq!(vm.result, Some(Value::Boolean(true)));
    // Test comparison
    let mut vm = VM::new(false);
    assert!(vm.run(chunk_of("(2 < 5) == (4 > 6)"), &engine).is_ok());
    assert_eq!(vm.result, Some(Value::Boolean(false)));
    let mut vm = VM::new(true);
    assert!(vm.run(chunk_of("(2 <= 2) == (6 >= 4)"), &engine).is_ok());
    assert_eq!(vm.result, Some(Value::Boolean(true)));
    // Test errors
    let mut vm = VM::new(true);
    assert_eq!(
        vm.run(chunk_of("!3 - 3"), &engine),
        Err(Error::MismatchedTypes(1, 2, 1, "Operand must be a boolean".to_string()))
    );
    let mut vm = VM::new(true);
    assert_eq!(
        vm.run(chunk_of("3 - -true"), &engine),
        Err(Error::MismatchedTypes(1, 6, 4, "Operand must be a number".to_string()))
    );
    let mut vm = VM::new(true);
    assert_eq!(
        vm.run(chunk_of("nil + nil"), &engine),
        Err(Error::MismatchedTypes(1, 1, 3, "Operands must be either numbers or strings".to_string()))
    );
    let mut vm = VM::new(true);
    assert_eq!(
        vm.run(chunk_of("\"Impossible\" - \"Operation\""), &engine),
        Err(Error::ImpossibleOperation(1, 14, 1, "-".to_string()))
    );
    // Test VM resetting
    vm.reset();
    assert!(vm.stack.is_empty());
    assert!(vm.positions.is_empty());
}

#[test]
fn errors() {
    let string = "4 & 2";
    let character = Error::UnexpectedCharacter('&', 1, 3, 1);
    assert_eq!(character.location(), Some((3, 1)));
    assert_eq!(parts(&character, string), strings("4 ", "&", " 2"));
    let string = "\"hello";
    let eoi = Error::UnexpectedEOI("Unterminated string".to_string());
    assert_eq!(eoi.location(), None);
    assert_eq!(parts(&eoi, string), strings("\"hello", " ", ""));
    let string = "(4 + 2";
    let token = Error::ExpectedToken(TokenKind::RightParen, 1, 7, 0);
    assert_eq!(token.location(), Some((7, 0)));
    assert_eq!(parts(&token, string), strings("(4 + 2", " ", ""));
    let string = "4 +";
    let expression = Error::ExpectedExpression(1, 4, 0);
    assert_eq!(expression.location(), Some((4, 0)));
    assert_eq!(parts(&expression, string), strings("4 +", " ", ""));
    let string = "true + 3";
    let types = Error::MismatchedTypes(1, 1, 4, "Operands must be numbers".to_string());
    assert_eq!(types.location(), Some((1, 4)));
    assert_eq!(parts(&types, string), strings("", "true", " + 3"));
    let string = "\"a\" - \"b\"";
    let impossible = Error::ImpossibleOperation(1, 5, 1, "-".to_string());
    assert_eq!(impossible.location(), Some((5, 1)));
    assert_eq!(parts(&impossible, string), strings("\"a\" ", "-", " \"b\""));
}

fn run_source(src: &str, vm: &mut VM) -> Result<Option<Value>, Error> {
    let mut lexer = Lexer::new(src);
    lexer.run(&read)?;
    let mut compiler = Compiler::new(lexer.tokens);
    compiler.compile()?;
    assert!(compiler.chunk.can_run(0));
    vm.run(compiler.chunk, &engine)?;
    Ok(vm.result.clone())
}

fn eval(src: &str) -> Result<Option<Value>, Error> {
    run_source(src, &mut VM::new(false))
}

fn eval_number(src: &str) -> f64 {
    match eval(src) {
        Ok(Some(Value::Number(b))) => f64::from_bits(b),
        other => panic!("not a number: {:?}", other),
    }
}

fn ops(chunk: &Chunk) -> Vec<OpCode> {
    chunk.code.iter().map(|c| c.2).collect()
}

#[test]
fn multiplication_binds_tighter_than_addition() {
    assert_eq!(eval_number("1 + 2 * 3"), 7.0);
    let chunk = chunk_of("1 + 2 * 3");
    assert_eq!(
        ops(&chunk),
        vec![OpConstant(0), OpConstant(1), OpConstant(2), OpMul, OpAdd, OpReturn]
    );
    assert_eq!(chunk.constants, vec![num(1.0), num(2.0), num(3.0)]);
}

#[test]
fn grouping_and_negation() {
    assert_eq!(eval_number("-(3 + 4)"), -7.0);
    assert_eq!(eval_number("-3 + 4"), 1.0);
    assert_eq!(eval_number("(1 + 2) / 3"), 1.0);
    assert_ne!(eval_number("(1 + 2) / 3"), eval_number("1 + 2 / 3"));
    assert_eq!(eval_number("2 ^ 3 ^ 2"), 64.0);
    assert_eq!(eval_number("10 - 4 - 3"), 3.0);
}

#[test]
fn modulo_and_equality() {
    assert_eq!(eval("4 % 2 == 0"), Ok(Some(Value::Boolean(true))));
    assert_eq!(eval("5 % 2 == 0"), Ok(Some(Value::Boolean(false))));
}

#[test]
fn string_concatenation_and_its_failure() {
    assert_eq!(eval("\"Me\" + \"lon\""), Ok(Some(Value::String("Melon".to_string()))));
    assert_eq!(
        eval("\"a\" - \"b\""),
        Err(Error::ImpossibleOperation(1, 5, 1, "-".to_string()))
    );
    assert_eq!(
        eval("\"a\" < \"b\""),
        Err(Error::ImpossibleOperation(1, 5, 1, "<".to_string()))
    );
}

#[test]
fn equality_across_types_is_total() {
    assert_eq!(eval("true == 3"), Ok(Some(Value::Boolean(false))));
    assert_eq!(eval("nil == false"), Ok(Some(Value::Boolean(false))));
    assert_eq!(eval("\"3\" == 3"), Ok(Some(Value::Boolean(false))));
    assert_eq!(eval("3 == 3.0"), Ok(Some(Value::Boolean(true))));
    assert_eq!(eval("nil == nil"), Ok(Some(Value::Boolean(true))));
    assert_eq!(eval("0 == -0"), Ok(Some(Value::Boolean(true))));
    assert_eq!(eval("0 / 0 == 0 / 0"), Ok(Some(Value::Boolean(false))));
    assert_eq!(eval("\"ab\" != \"ab\""), Ok(Some(Value::Boolean(false))));
}

#[test]
fn type_errors_cite_the_offending_operand() {
    assert_eq!(
        eval("true + 3"),
        Err(Error::MismatchedTypes(1, 1, 4, "Operands must be either numbers or strings".to_string()))
    );
    assert_eq!(
        eval("3 + true"),
        Err(Error::MismatchedTypes(1, 5, 4, "Operands must be either numbers or strings".to_string()))
    );
    // The span of a computed operand covers its whole sub-expression.
    assert_eq!(
        eval("(1 + 2) - nil"),
        Err(Error::MismatchedTypes(1, 11, 3, "Operands must be either numbers or strings".to_string()))
    );
    // A negated comparison covers both of its operands.
    assert_eq!(
        eval("(1 != 2) * 3"),
        Err(Error::MismatchedTypes(1, 2, 6, "Operands must be either numbers or strings".to_string()))
    );
    assert_eq!(
        eval("(1 == 2) * 3"),
        Err(Error::MismatchedTypes(1, 2, 6, "Operands must be either numbers or strings".to_string()))
    );
}

#[test]
fn comments_leave_the_bytecode_alone() {
    let plain = chunk_of("1 + 2");
    let commented = chunk_of("1 /* x */ + 2");
    assert_eq!(ops(&plain), ops(&commented));
    assert_eq!(plain.constants, commented.constants);
    let trailing = chunk_of("// first\n1 + 2 // last");
    assert_eq!(ops(&plain), ops(&trailing));
}

#[test]
fn reruns_give_the_same_answers() {
    let mut vm = VM::new(false);
    let first = run_source("(1 + 2) * 3 == 9", &mut vm);
    vm.reset();
    let second = run_source("(1 + 2) * 3 == 9", &mut vm);
    assert_eq!(first, Ok(Some(Value::Boolean(true))));
    assert_eq!(first, second);
    assert_eq!(first, eval("(1 + 2) * 3 == 9"));
    let failed = run_source("1 - \"x\"", &mut vm);
    vm.reset();
    assert_eq!(failed, run_source("1 - \"x\"", &mut vm));
    assert_eq!(failed, eval("1 - \"x\""));
}

#[test]
fn unterminated_constructs_are_reported() {
    assert_eq!(eval("(1 + 2"), Err(Error::ExpectedToken(TokenKind::RightParen, 1, 7, 0)));
    assert_eq!(eval("\"abc"), Err(Error::UnexpectedEOI("Unterminated string".to_string())));
    assert_eq!(eval("1 + +"), Err(Error::ExpectedExpression(1, 5, 1)));
    assert_eq!(eval("/* open"), Err(Error::UnexpectedEOI("Unterminated comment".to_string())));
    // Past trailing comments, the error points at the last real token.
    assert_eq!(eval("(1 + 2 // c"), Err(Error::ExpectedToken(TokenKind::RightParen, 1, 6, 1)));
    assert_eq!(eval("1 2"), Err(Error::ExpectedToken(TokenKind::EOI, 1, 3, 1)));
}

#[test]
fn token_streams_end_with_one_end_of_input() {
    for src in ["", "1 + 2", "/* a\nb */ 2 // c", "\"x\ny\" == nil\n"] {
        let mut lexer = Lexer::new(src);
        assert!(lexer.run(&read).is_ok());
        let eois = lexer.tokens.iter().filter(|t| t.kind == K::EOI).count();
        assert_eq!(eois, 1);
        assert_eq!(lexer.tokens.last().map(|t| t.kind.clone()), Some(K::EOI));
        let chars: Vec<char> = src.chars().collect();
        for t in lexer.tokens.iter().filter(|t| t.kind == K::Comment) {
            let text: String = chars[t.start..t.start + t.len].iter().collect();
            assert!(text.starts_with("//") || (text.starts_with("/*") && text.ends_with("*/")));
        }
    }
    let mut lexer = Lexer::new("1 /* x */ + 2");
    assert!(lexer.run(&read).is_ok());
    assert_eq!(lexer.tokens[1], tok(K::Comment, 2, 7, 1, 3));
}

#[test]
fn empty_input_compiles_to_nothing() {
    let mut lexer = Lexer::new("");
    assert!(lexer.run(&read).is_ok());
    assert_eq!(lexer.tokens, vec![tok(K::EOI, 0, 0, 1, 1)]);
    let mut compiler = Compiler::new(lexer.tokens);
    assert!(compiler.compile().is_ok());
    assert!(compiler.chunk.code.is_empty());
    let mut vm = VM::new(false);
    assert!(vm.run(compiler.chunk, &engine).is_ok());
    assert_eq!(vm.result, None);
}

#[test]
fn lone_characters_are_refused() {
    assert_eq!(eval("1 = 2"), Err(Error::UnexpectedCharacter('=', 1, 3, 1)));
    assert_eq!(eval("4 & 2"), Err(Error::UnexpectedCharacter('&', 1, 3, 1)));
    assert_eq!(eval("1\n  x"), Err(Error::UnexpectedCharacter('x', 2, 4, 1)));
}

#[test]
fn numerals_and_escaped_quotes() {
    let mut lexer = Lexer::new("12.5 3. \"a\\\"b\"");
    assert!(lexer.run(&read).is_ok());
    assert_eq!(lexer.tokens, vec![
        tok(n(12.5), 0, 4, 1, 1),
        tok(n(3.0), 5, 2, 1, 6),
        tok(K::String("a\\\"b".to_string()), 8, 6, 1, 9),
        tok(K::EOI, 14, 0, 1, 15),
    ]);
}

#[test]
fn constant_pool_is_bounded() {
    let mut tokens = Vec::new();
    for i in 0..65537usize {
        if i > 0 {
            tokens.push(tok(K::Plus, 0, 1, 1, 1));
        }
        tokens.push(tok(n(1.0), 0, 1, 1, 7));
    }
    tokens.push(tok(K::EOI, 0, 0, 1, 9));
    let mut compiler = Compiler::new(tokens);
    assert_eq!(compiler.compile(), Err(Error::TooManyConstants(1, 7, 1)));
    assert_eq!(compiler.chunk.constants.len(), 65536);
}

#[test]
fn chunk_checks_and_bookkeeping() {
    let mut chunk = Chunk::new(3);
    assert_eq!(chunk.add_constant(num(2.0)), 0);
    assert_eq!(chunk.add_constant(num(2.0)), 1);
    chunk.write(OpConstant(1), 1, 1);
    chunk.write(OpNot, 1, 1);
    assert!(chunk.can_run(0));
    chunk.write(OpAdd, 1, 1);
    assert!(!chunk.can_run(0));
    assert!(chunk.can_run(1));
    let bad = Chunk { code: vec![(1, 1, OpConstant(5))], constants: vec![], line: 1 };
    assert!(!bad.can_run(0));
    assert_eq!(OpCode::OpEqual.mnemonic(), "OP_EQUAL");
    assert_eq!(chunk.line, 3);
}

#[test]
fn precedence_ladder() {
    assert_eq!(Precedence::Term.shift(), Precedence::Factor);
    assert_eq!(Precedence::Primary.shift(), Precedence::Lowest);
    assert!(Precedence::Factor.at_least(Precedence::Term));
    assert!(!Precedence::Equality.at_least(Precedence::Comparison));
    assert_eq!(get_rule(&K::Hat).prec, Precedence::Indices);
    assert!(get_rule(&K::Plus).prefix.is_none());
    assert!(get_rule(&K::Minus).prefix.is_some());
    assert!(get_rule(&K::RightParen).infix.is_none());
}

#[test]
fn vm_positions_track_values() {
    let mut vm = VM::new(true);
    assert!(vm.verbose());
    let chunk = Chunk {
        code: vec![(1, 1, OpConstant(0)), (5, 3, OpNil)],
        constants: vec![num(1.0)],
        line: 1,
    };
    assert!(vm.run(chunk, &engine).is_ok());
    assert_eq!(vm.stack, vec![num(1.0), Value::Nil]);
    assert_eq!(vm.get_col(0), (5, 3));
    assert_eq!(vm.get_col(1), (1, 1));
    vm.reset();
    assert!(vm.stack.is_empty() && vm.positions.is_empty());
}

#[test]
fn number_helpers() {
    let (one, two) = (1.0f64.to_bits(), 2.0f64.to_bits());
    assert!(number_less(one, two));
    assert!(!number_less(two, one));
    assert!(number_less((-3.0f64).to_bits(), (-2.0f64).to_bits()));
    assert!(!number_less(f64::NAN.to_bits(), one));
    assert!(number_equal(0.0f64.to_bits(), (-0.0f64).to_bits()));
    assert!(!number_equal(f64::NAN.to_bits(), f64::NAN.to_bits()));
    assert_eq!(f64::from_bits(number_negate(one)), -1.0);
    assert!(values_equal(&Value::String("a".into()), &Value::String("a".into())));
    assert!(!values_equal(&Value::Nil, &Value::Boolean(false)));
}

fn parts(error: &Error, source: &str) -> (String, String, String) {
    let u = underline(error, source);
    (u.before, u.under, u.after)
}

fn strings(a: &str, b: &str, c: &str) -> (String, String, String) {
    (a.to_string(), b.to_string(), c.to_string())
}

#[test]
fn underlines_cite_the_span() {
    let types = Error::MismatchedTypes(1, 1, 4, "Operands must be numbers".to_string());
    assert_eq!(parts(&types, "true + 3"), strings("", "true", " + 3"));
    let impossible = Error::ImpossibleOperation(1, 5, 1, "-".to_string());
    assert_eq!(parts(&impossible, "\"a\" - \"b\""), strings("\"a\" ", "-", " \"b\""));
    let token = Error::ExpectedToken(TokenKind::RightParen, 1, 7, 0);
    assert_eq!(parts(&token, "(4 + 2"), strings("(4 + 2", " ", ""));
    let expression = Error::ExpectedExpression(1, 4, 0);
    assert_eq!(parts(&expression, "4 +"), strings("4 +", " ", ""));
    // Later lines start at column 2.
    assert_eq!(eval("1 +\n  x"), Err(Error::UnexpectedCharacter('x', 2, 4, 1)));
    let character = Error::UnexpectedCharacter('x', 2, 4, 1);
    assert_eq!(parts(&character, "1 +\n  x"), strings("  ", "x", ""));
    // The end of input stands past the last line.
    let eoi = Error::UnexpectedEOI("Unterminated string".to_string());
    assert_eq!(parts(&eoi, "1\n\"hello"), strings("\"hello", " ", ""));
}

#[test]
fn underlines_count_grapheme_clusters() {
    // "e" and a combining accent make one cluster.
    let error = Error::MismatchedTypes(1, 2, 1, String::new());
    assert_eq!(parts(&error, "e\u{301}ab"), strings("e\u{301}", "a", "b"));
    // The end of input stands after the last cluster, zero-width ones included.
    let eoi = Error::UnexpectedEOI("Unterminated string".to_string());
    assert_eq!(
        parts(&eoi, "\"\u{200B}\u{200B}"),
        strings("\"\u{200B}\u{200B}", " ", "")
    );
}

#[test]
fn interpret_runs_the_whole_pipeline() {
    let mut vm = VM::new(false);
    assert!(interpret("(2 + 3) * 4 == 20", &mut vm, &read, &engine).is_ok());
    assert_eq!(vm.result, Some(Value::Boolean(true)));
    assert!(vm.stack.is_empty());
    assert_eq!(
        interpret("\"ab\" + 1", &mut vm, &read, &engine),
        Err(Error::MismatchedTypes(1, 1, 4, "Operands must be either numbers or strings".to_string()))
    );
    assert_eq!(interpret("1 +", &mut vm, &read, &engine), Err(Error::ExpectedExpression(1, 4, 0)));
    assert_eq!(interpret("#", &mut vm, &read, &engine), Err(Error::UnexpectedCharacter('#', 1, 1, 1)));
    assert!(interpret("2 ^ 10", &mut vm, &read, &engine).is_ok());
    assert_eq!(shown(&vm.result), Some(1024.0));
}

#[test]
fn reset_leaves_no_result_behind() {
    let mut vm = VM::new(false);
    assert!(vm.run(chunk_of("true"), &engine).is_ok());
    assert_eq!(vm.result, Some(Value::Boolean(true)));
    vm.reset();
    assert!(vm.run(chunk_of(""), &engine).is_ok());
    assert_eq!(vm.result, None);
    let mut fresh = VM::new(false);
    assert!(fresh.run(chunk_of(""), &engine).is_ok());
    assert_eq!(fresh.result, vm.result);
    assert_eq!(vm.result(), &None);
}

#[test]
fn stepping_runs_one_instruction_at_a_time() {
    let mut vm = VM::new(true);
    let chunk = chunk_of("1 + 2 * 3");
    let count = chunk.code.len();
    vm.load(chunk);
    let mut heights = Vec::new();
    let mut i = 0;
    while i < count {
        heights.push(vm.stack().len());
        assert!(vm.can_step(i));
        if vm.step(i, &engine).unwrap() {
            break;
        }
        i += 1;
    }
    assert_eq!(heights, vec![0, 1, 2, 3, 2, 1]);
    assert_eq!(vm.result, Some(num(7.0)));
    assert!(vm.positions().is_empty());
    assert!(!vm.can_step(count));
    vm.load(chunk_of("nil - 1"));
    assert!(vm.step(0, &engine).is_ok());
    assert!(vm.step(1, &engine).is_ok());
    assert_eq!(
        vm.step(2, &engine),
        Err(Error::MismatchedTypes(1, 1, 3, "Operands must be either numbers or strings".to_string()))
    );
    assert_eq!(vm.stack().len(), 2);
}
