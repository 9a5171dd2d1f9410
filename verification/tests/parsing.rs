use std::cell::RefCell;
use std::sync::Arc;

use heartfelt::create_runtime;
use heartfelt::parser::{Parser, ParserError};
use heartfelt::runtime::{Data, FunctionHandle, HostFunction, Instruction, InstructionMap,
    InstructionName};
use heartfelt::tokenizer::{build_lexer, DataToken, KeywordToken, Token};

struct Ignore;

impl HostFunction for Ignore {
    fn call(&self, _args: &Vec<Data>) -> Data {
        Data::Nil
    }
}

struct Recorder(RefCell<Vec<i64>>);

impl HostFunction for Recorder {
    fn call(&self, args: &Vec<Data>) -> Data {
        if let Some(Data::Integer(i)) = args.first() {
            self.0.borrow_mut().push(*i);
        }
        Data::Nil
    }
}

fn table_with(names: &[&str]) -> InstructionMap {
    let mut map = InstructionMap::new();
    for n in names {
        let h: Arc<dyn HostFunction> = Arc::new(Ignore);
        map.insert(
            InstructionName::new((*n).to_string()),
            Instruction::RustFunction(FunctionHandle::new(h)),
        );
    }
    map
}

fn parser_with(names: &[&str]) -> Parser {
    let mut p = Parser::new();
    p.set_instructions(table_with(names));
    p
}

#[test]
fn parse_call_with_three_integers() {
    let p = parser_with(&["foo", "other"]);
    let (prog, labels) = p.parse("foo 1 2 3\n").expect("parse");
    assert_eq!(prog.len(), 1);
    assert_eq!(prog[0].name.as_str(), "foo");
    assert_eq!(
        prog[0].args,
        vec![Data::Integer(1), Data::Integer(2), Data::Integer(3)]
    );
    assert_eq!(labels.len(), 0);
}

#[test]
fn parse_label_then_call() {
    let p = parser_with(&["foo"]);
    let (prog, labels) = p.parse("a:\nfoo\n").expect("parse");
    assert_eq!(prog.len(), 1);
    assert_eq!(prog[0].name.as_str(), "foo");
    assert_eq!(labels.get("a"), Some(0));
}

#[test]
fn parse_unknown_instruction_fails_with_text() {
    let p = parser_with(&["foo"]);
    match p.parse("bogus 1\n") {
        Err(ParserError::UnfoundInstruction(s)) => assert_eq!(s, "bogus"),
        other => panic!("expected UnfoundInstruction, got {:?}", other.map(|_| ())),
    }
}

#[test]
fn parse_literal_without_call_fails() {
    let p = parser_with(&["foo"]);
    match p.parse("1 2\n") {
        Err(ParserError::InvalidInstruction(Token::Data(DataToken::Integer(1)))) => {}
        other => panic!("expected InvalidInstruction, got {:?}", other.map(|_| ())),
    }
}

#[test]
fn parse_reserved_symbol_fails() {
    let p = parser_with(&["foo"]);
    match p.parse("foo (\n") {
        Err(ParserError::NotAllowed(_)) => {}
        other => panic!("expected NotAllowed, got {:?}", other.map(|_| ())),
    }
}

#[test]
fn parse_unmatched_character_is_a_lex_error() {
    let p = parser_with(&["foo"]);
    match p.parse("foo $\n") {
        Err(ParserError::Lex(e)) => assert_eq!(e.position, 4),
        other => panic!("expected Lex, got {:?}", other.map(|_| ())),
    }
}

#[test]
fn parse_oversized_integer_is_a_lex_error() {
    let p = parser_with(&["foo"]);
    assert!(matches!(
        p.parse("foo 99999999999999999999\n"),
        Err(ParserError::Lex(_))
    ));
}

#[test]
fn parse_all_literal_kinds() {
    let p = parser_with(&["foo"]);
    let (prog, _) = p
        .parse("foo -5 1.25 \"a\\nb\" 'x' true false none bare\n")
        .expect("parse");
    assert_eq!(
        prog[0].args,
        vec![
            Data::Integer(-5),
            Data::Float("1.25".to_string()),
            Data::HString("a\nb".to_string()),
            Data::Char('x'),
            Data::Bool(true),
            Data::Bool(false),
            Data::Nil,
            Data::Text("bare".to_string()),
        ]
    );
}

#[test]
fn parse_semicolon_separates_statements() {
    let p = parser_with(&["foo"]);
    let (prog, _) = p.parse("foo 1;foo 2\n").expect("parse");
    assert_eq!(prog.len(), 2);
    assert_eq!(prog[0].args, vec![Data::Integer(1)]);
    assert_eq!(prog[1].args, vec![Data::Integer(2)]);
}

#[test]
fn parse_comment_swallows_line_end() {
    let p = parser_with(&["foo"]);
    let (prog, _) = p.parse("foo 1 # trailing words\nfoo 2\n").expect("parse");
    // The comment consumes the newline, so the two calls join one statement.
    assert_eq!(prog.len(), 1);
    assert_eq!(prog[0].args.len(), 3);
}

#[test]
fn parse_exit_opens_a_call_and_nests_as_text() {
    let p = parser_with(&["foo"]);
    let (prog, _) = p.parse("exit 1\nfoo exit\n").expect("parse");
    assert_eq!(prog.len(), 2);
    assert!(matches!(prog[0].inst, Instruction::Exit));
    assert_eq!(prog[0].name.as_str(), "exit");
    assert_eq!(prog[0].args, vec![Data::Integer(1)]);
    assert_eq!(prog[1].args, vec![Data::Text("exit".to_string())]);
}

#[test]
fn parse_label_overwrites_earlier_entry() {
    let p = parser_with(&["foo"]);
    let (_, labels) = p.parse("a:\nfoo\na:\nfoo\n").expect("parse");
    assert_eq!(labels.get("a"), Some(1));
}

#[test]
fn lexer_keyword_priority_over_bare_words() {
    let lexer = build_lexer();
    let toks = lexer.tokens("true false none exit x_1 exits\n").expect("lex");
    assert_eq!(
        toks,
        vec![
            Token::Data(DataToken::Bool(true)),
            Token::Data(DataToken::Bool(false)),
            Token::Data(DataToken::Nil),
            Token::Keyword(KeywordToken::Exit),
            Token::Text("x_1".to_string()),
            Token::Text("exits".to_string()),
            Token::NewLine,
        ]
    );
}

#[test]
fn lexer_longest_match_prefers_float() {
    let lexer = build_lexer();
    let toks = lexer.tokens("12 12.5 -3.25\n").expect("lex");
    assert_eq!(
        toks,
        vec![
            Token::Data(DataToken::Integer(12)),
            Token::Data(DataToken::Float("12.5".to_string())),
            Token::Data(DataToken::Float("-3.25".to_string())),
            Token::NewLine,
        ]
    );
}

#[test]
fn lexer_label_only_at_line_start() {
    let lexer = build_lexer();
    let toks = lexer.tokens("a:\n").expect("lex");
    assert_eq!(toks, vec![Token::Label("a".to_string())]);
    // Mid-line, the same characters are a word and an unmatched colon.
    assert!(lexer.tokens("x a:\n").is_err());
}

#[test]
fn lexer_extreme_integers() {
    let lexer = build_lexer();
    let toks = lexer
        .tokens("-9223372036854775808 9223372036854775807\n")
        .expect("lex");
    assert_eq!(
        toks,
        vec![
            Token::Data(DataToken::Integer(i64::MIN)),
            Token::Data(DataToken::Integer(i64::MAX)),
            Token::NewLine,
        ]
    );
}

#[test]
fn create_runtime_registers_default_goto() {
    let mut rt = create_runtime("goto 2\nskip 1\nmark 1\n", {
        let rec = Arc::new(Recorder(RefCell::new(Vec::new())));
        let mut map = table_with(&["skip"]);
        let h: Arc<dyn HostFunction> = rec;
        map.insert(
            InstructionName::new("mark".to_string()),
            Instruction::RustFunction(FunctionHandle::new(h)),
        );
        map
    })
    .expect("create");
    assert_eq!(rt.run(100), Some(Data::Nil));
}
