use nova::parser::{Operator, ParseError, Parser, StructuralSymbol, Token};
use nova::ttype::TType;
use nova::typechecker::{self, Environment};

fn id(s: &str) -> Token {
    Token::Identifier(s.to_string())
}

fn sym(s: StructuralSymbol) -> Token {
    Token::StructuralSymbol(s)
}

fn op(o: Operator) -> Token {
    Token::Operator(o)
}

use StructuralSymbol::{Comma, DollarSign, LeftParen, LeftSquareBracket, RightParen, RightSquareBracket};

fn show(t: &TType) -> String {
    match t {
        TType::Nil => "None".to_string(),
        TType::Any => "Any".to_string(),
        TType::Int => "Int".to_string(),
        TType::Float => "Float".to_string(),
        TType::Bool => "Bool".to_string(),
        TType::String => "String".to_string(),
        TType::Char => "Char".to_string(),
        TType::Void => "Void".to_string(),
        TType::Auto => "Auto".to_string(),
        TType::Generic { name } => format!("${}", name),
        TType::Custom { name, type_params } => {
            format!("{}({})", name, type_params.iter().map(show).collect::<Vec<_>>().join(","))
        }
        TType::List { inner } => format!("[{}]", show(inner)),
        TType::Function { parameters, return_type } => format!(
            "fn({})->{}",
            parameters.iter().map(show).collect::<Vec<_>>().join(","),
            show(return_type)
        ),
        TType::Option { inner } => format!("?{}", show(inner)),
        TType::Tuple { elements } => format!("({})", elements.iter().map(show).collect::<Vec<_>>().join(",")),
        TType::Dyn { own, contract } => format!(
            "Dyn({}={})",
            own,
            contract.iter().map(|(n, t)| format!("{}:{}", n, show(t))).collect::<Vec<_>>().join(",")
        ),
    }
}

fn parser(tokens: Vec<Token>) -> Parser {
    let env = Environment {
        custom_types: vec![
            ("Point".to_string(), vec![("x".to_string(), TType::Int)]),
            ("Box".to_string(), vec![("v".to_string(), TType::Generic { name: "T".to_string() })]),
        ],
        generic_type_struct: vec![("Box".to_string(), vec!["T".to_string()])],
        live_generics: vec![vec![]],
        type_alias: vec![("Id".to_string(), TType::Int)],
    };
    Parser { input: tokens, index: 0, typechecker: typechecker::with_environment(env) }
}

fn parse(tokens: Vec<Token>) -> (Result<String, ParseError>, usize) {
    let mut p = parser(tokens);
    let r = p.ttype().map(|t| show(&t));
    (r, p.index)
}

fn expect(got: (Result<String, ParseError>, usize), want: &str, at: usize) {
    assert_eq!(got.0.unwrap(), want);
    assert_eq!(got.1, at);
}

#[test]
fn builtin_and_alias_types() {
    assert_eq!(parse(vec![id("Int")]).0.unwrap(), "Int");
    assert_eq!(parse(vec![id("None")]).0.unwrap(), "None");
    expect(parse(vec![id("Id"), sym(Comma)]), "Int", 1);
    assert!(matches!(parse(vec![id("Nope")]).0, Err(ParseError::UnknownType(n)) if n == "Nope"));
    assert!(matches!(parse(vec![sym(Comma)]).0, Err(ParseError::ExpectedType)));
    assert!(matches!(parse(vec![]).0, Err(ParseError::ExpectedType)));
}

#[test]
fn function_types() {
    // fn(Int, [String]) -> Option($T)
    let toks = vec![
        id("fn"), sym(LeftParen), id("Int"), sym(Comma), sym(LeftSquareBracket), id("String"),
        sym(RightSquareBracket), sym(RightParen), op(Operator::RightArrow), id("Option"), sym(LeftParen),
        sym(DollarSign), id("T"), sym(RightParen),
    ];
    expect(parse(toks), "fn(Int,[String])->?$T", 14);
    // fn() takes None and returns Void
    assert_eq!(parse(vec![id("fn"), sym(LeftParen), sym(RightParen)]).0.unwrap(), "fn(None)->Void");
}

#[test]
fn tuples_in_parentheses() {
    let pair = vec![sym(LeftParen), id("Int"), sym(Comma), id("Bool"), sym(RightParen)];
    assert_eq!(parse(pair).0.unwrap(), "(Int,Bool)");
    assert_eq!(parse(vec![sym(LeftParen), id("Int"), sym(RightParen)]).0.unwrap(), "Int");
    assert_eq!(parse(vec![sym(LeftParen), id("Int"), sym(Comma), sym(RightParen)]).0.unwrap(), "(Int)");
    assert!(matches!(parse(vec![sym(LeftParen), sym(RightParen)]).0, Err(ParseError::EmptyTuple)));
    assert!(matches!(
        parse(vec![sym(LeftParen), id("Int")]).0,
        Err(ParseError::ExpectedSymbol(StructuralSymbol::RightParen))
    ));
}

#[test]
fn named_tuple_list_and_option() {
    let t = vec![id("Tuple"), sym(LeftParen), id("Int"), sym(Comma), id("Char"), sym(RightParen)];
    assert_eq!(parse(t).0.unwrap(), "(Int,Char)");
    let short = vec![id("Tuple"), sym(LeftParen), id("Int"), sym(Comma), sym(RightParen)];
    assert!(matches!(parse(short).0, Err(ParseError::ShortTuple)));
    assert_eq!(parse(vec![sym(LeftSquareBracket), sym(RightSquareBracket)]).0.unwrap(), "[None]");
    assert_eq!(parse(vec![id("List"), sym(LeftParen), id("Float"), sym(RightParen)]).0.unwrap(), "[Float]");
    let nested = vec![
        id("Option"), sym(LeftParen), id("Option"), sym(LeftParen), id("Int"), sym(RightParen), sym(RightParen),
    ];
    assert!(matches!(parse(nested).0, Err(ParseError::NestedOption)));
}

#[test]
fn struct_types_and_their_arguments() {
    assert_eq!(parse(vec![id("Point")]).0.unwrap(), "Point()");
    let boxed = vec![id("Box"), sym(LeftParen), id("Int"), sym(RightParen)];
    expect(parse(boxed), "Box(Int)", 4);
    match parse(vec![id("Box")]).0 {
        Err(ParseError::TypeArgCount { name, expected, found }) => assert_eq!((name.as_str(), expected, found), ("Box", 1, 0)),
        other => panic!("expected a type argument count error, got {:?}", other),
    }
}

#[test]
fn dyn_contracts() {
    // Dyn(T = name: String + draw: fn($T))
    let toks = vec![
        id("Dyn"), sym(LeftParen), id("T"), op(Operator::Assignment), id("name"), op(Operator::Colon), id("String"),
        op(Operator::Addition), id("draw"), op(Operator::Colon), id("fn"), sym(LeftParen), sym(DollarSign), id("T"),
        sym(RightParen), sym(RightParen),
    ];
    assert_eq!(parse(toks).0.unwrap(), "Dyn(T=name:String,draw:fn($T)->Void)");
    let no_colon = vec![id("Dyn"), sym(LeftParen), id("T"), op(Operator::Assignment), id("name"), id("String")];
    assert!(matches!(parse(no_colon).0, Err(ParseError::ExpectedOperator(Operator::Colon))));
}

#[test]
fn a_failed_parse_keeps_the_position() {
    let mut p = parser(vec![sym(RightParen)]);
    assert!(p.ttype().is_err());
    assert_eq!(p.index, 0);
}

#[test]
fn type_alias_declarations() {
    // type Pair = (Int, Int)
    let mut p = parser(vec![
        id("type"), id("Pair"), op(Operator::Assignment), sym(LeftParen), id("Int"), sym(Comma), id("Int"), sym(RightParen),
    ]);
    assert!(p.type_alias().is_ok());
    assert_eq!(p.index, 8);
    let aliases = &p.typechecker.environment.type_alias;
    assert_eq!(aliases.len(), 2);
    assert_eq!(aliases[1].0, "Pair");
    assert_eq!(show(&aliases[1].1), "(Int,Int)");
    // redefining an alias replaces it
    let mut q = parser(vec![id("type"), id("Id"), op(Operator::Assignment), id("Char")]);
    assert!(q.type_alias().is_ok());
    assert_eq!(q.typechecker.environment.type_alias.len(), 1);
    assert_eq!(show(&q.typechecker.environment.type_alias[0].1), "Char");
    // a struct's name cannot be an alias
    let mut r = parser(vec![id("type"), id("Point"), op(Operator::Assignment), id("Int")]);
    assert!(matches!(r.type_alias(), Err(ParseError::AlreadyDefined(n)) if n == "Point"));
    assert_eq!(r.index, 0);
    let mut s = parser(vec![id("alias"), id("X")]);
    assert!(matches!(s.type_alias(), Err(ParseError::ExpectedTypeWord)));
}

#[test]
fn token_helpers_move_only_on_a_match() {
    let mut p = parser(vec![sym(LeftParen), op(Operator::Colon), id("x")]);
    assert!(matches!(p.current_token(), Some(Token::StructuralSymbol(LeftParen))));
    assert!(matches!(p.consume_symbol(RightParen), Err(ParseError::ExpectedSymbol(RightParen))));
    assert_eq!(p.index, 0);
    assert!(p.consume_symbol(LeftParen).is_ok());
    assert!(matches!(p.consume_operator(Operator::Assignment), Err(ParseError::ExpectedOperator(Operator::Assignment))));
    assert!(p.consume_operator(Operator::Colon).is_ok());
    assert_eq!(p.get_identifier().unwrap(), "x");
    assert!(p.current_token().is_none());
    assert!(matches!(p.get_identifier(), Err(ParseError::ExpectedIdentifier)));
    p.advance();
    assert_eq!(p.index, 4);
}

#[test]
fn name_lists() {
    let mut p = parser(vec![sym(LeftParen), id("T"), sym(Comma), id("U"), sym(Comma), sym(RightParen)]);
    assert_eq!(p.get_id_list().unwrap(), vec!["T".to_string(), "U".to_string()]);
    assert_eq!(p.index, 6);
    let mut q = parser(vec![sym(LeftParen), sym(RightParen)]);
    assert!(q.get_id_list().unwrap().is_empty());
    let mut r = parser(vec![sym(LeftParen), id("T"), id("U")]);
    assert!(matches!(r.get_id_list(), Err(ParseError::ExpectedSymbol(RightParen))));
}

#[test]
fn parameter_lists() {
    // x: Int, ys: [String] {
    let mut p = parser(vec![
        id("x"), op(Operator::Colon), id("Int"), sym(Comma), id("ys"), op(Operator::Colon), sym(LeftSquareBracket),
        id("String"), sym(RightSquareBracket), sym(StructuralSymbol::Other),
    ]);
    let ps = p.parameter_list().unwrap();
    let shown: Vec<(String, String)> = ps.iter().map(|(t, n)| (show(t), n.clone())).collect();
    assert_eq!(shown, vec![("Int".to_string(), "x".to_string()), ("[String]".to_string(), "ys".to_string())]);
    assert_eq!(p.index, 9);
    let mut q = parser(vec![id("x"), op(Operator::Colon), id("Int"), sym(Comma), id("x"), op(Operator::Colon), id("Int")]);
    assert!(matches!(q.parameter_list(), Err(ParseError::DuplicateParameter(n)) if n == "x"));
}
