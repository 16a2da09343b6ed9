use anym::input::Tokens;
use anym::emit::{
    emit_args, emit_block, emit_field_binds, emit_field_decls, emit_named, emit_params,
    emit_tuple, emit_unit, Arg,
};
use anym::error::{ErrorKind, ExpandError, Shape};
use anym::expand::{
    classify, parse_args, parse_c_struct, parse_struct_name, parse_tuple_struct,
    parse_unit_struct, Anym,
};
use anym::names::NameSupply;
use anym::tokens::{Delim, TokenKind};
use proc_macro2::TokenStream;

fn stream(src: &str) -> TokenStream {
    src.parse().unwrap()
}

fn supply() -> NameSupply {
    NameSupply::fixed("abcdEF12").unwrap()
}

/// The text of `src` as a token stream prints it.
fn printed(src: &str) -> String {
    stream(src).to_string()
}

fn expand(src: &str) -> Result<String, ErrorKind> {
    match Anym::parse(&stream(src), &supply()) {
        Ok(anym) => Ok(anym.0.to_string()),
        Err(e) => Err(e.kind),
    }
}

fn expanded(src: &str) -> String {
    expand(src).unwrap()
}

fn refused(src: &str) -> ErrorKind {
    expand(src).unwrap_err()
}

#[test]
fn unit_without_a_name() {
    assert_eq!(expanded(""), printed("{ struct __Anym_abcdEF12 ; __Anym_abcdEF12 }"));
}

#[test]
fn unit_with_a_name() {
    assert_eq!(expanded("Foo"), printed("{ struct Foo ; Foo }"));
}

#[test]
fn unit_expansion_is_exact_text() {
    assert_eq!(expanded("Foo"), "{ struct Foo ; Foo }");
}

#[test]
fn tuple_without_a_name() {
    assert_eq!(
        expanded("(1, 2)"),
        printed(
            "{ struct __Anym_abcdEF12 < T0 , T1 , > ( T0 , T1 , ) ; __Anym_abcdEF12 ( 1 , 2 , ) }"
        )
    );
}

#[test]
fn tuple_with_a_name() {
    assert_eq!(expanded("Foo(1)"), printed("{ struct Foo < T0 , > ( T0 , ) ; Foo ( 1 , ) }"));
}

#[test]
fn tuple_expansion_is_exact_text() {
    assert_eq!(
        expanded("Foo(1, 2)"),
        "{ struct Foo < T0 , T1 , > (T0 , T1 ,) ; Foo (1 , 2 ,) }"
    );
}

#[test]
fn tuple_keeps_the_expressions_as_written_and_in_order() {
    assert_eq!(
        expanded("(Plushie::Ferris, Bfg { deriv: \"9000\".to_string() })"),
        printed(
            "{ struct __Anym_abcdEF12 < T0 , T1 , > ( T0 , T1 , ) ; \
             __Anym_abcdEF12 ( Plushie::Ferris , Bfg { deriv: \"9000\".to_string() } , ) }"
        )
    );
    assert_eq!(
        expanded("Foo(1.168, Bfg { deriv: \"over 9000!\".to_string() })"),
        printed(
            "{ struct Foo < T0 , T1 , > ( T0 , T1 , ) ; \
             Foo ( 1.168 , Bfg { deriv: \"over 9000!\".to_string() } , ) }"
        )
    );
    assert_eq!(
        expanded("(c, b, a)"),
        printed(
            "{ struct __Anym_abcdEF12 < T0 , T1 , T2 , > ( T0 , T1 , T2 , ) ; \
             __Anym_abcdEF12 ( c , b , a , ) }"
        )
    );
}

#[test]
fn tuple_takes_a_comma_behind_the_last_expression() {
    assert_eq!(expanded("Foo(1, 2,)"), expanded("Foo(1, 2)"));
}

#[test]
fn tuple_tells_the_commas_inside_an_expression_from_those_between_two() {
    assert_eq!(
        expanded("P(foo::<A, B>(), |a, b| a + b)"),
        printed(
            "{ struct P < T0 , T1 , > ( T0 , T1 , ) ; P ( foo:: <A, B>() , |a, b| a + b , ) }"
        )
    );
}

#[test]
fn tuple_of_twelve_has_twelve_parameters() {
    let out = expanded("W(0, 1, 2, 3, 4, 5, 6, 7, 8, 9, 10, 11)");
    assert_eq!(
        out,
        printed(
            "{ struct W < T0 , T1 , T2 , T3 , T4 , T5 , T6 , T7 , T8 , T9 , T10 , T11 , > \
             ( T0 , T1 , T2 , T3 , T4 , T5 , T6 , T7 , T8 , T9 , T10 , T11 , ) ; \
             W ( 0 , 1 , 2 , 3 , 4 , 5 , 6 , 7 , 8 , 9 , 10 , 11 , ) }"
        )
    );
}

#[test]
fn named_without_a_name() {
    assert_eq!(
        expanded("{ tag: tag(), x, y }"),
        printed(
            "{ struct __Anym_abcdEF12 < T0 , T1 , T2 , > { tag : T0 , x : T1 , y : T2 , } \
             __Anym_abcdEF12 { tag : tag() , x , y , } }"
        )
    );
}

#[test]
fn named_with_a_name() {
    assert_eq!(
        expanded("Coor { x: 42, y: 4896, z: 666 }"),
        printed(
            "{ struct Coor < T0 , T1 , T2 , > { x : T0 , y : T1 , z : T2 , } \
             Coor { x : 42 , y : 4896 , z : 666 , } }"
        )
    );
}

#[test]
fn named_expansion_is_exact_text() {
    assert_eq!(
        expanded("Coor { x: 42, y }"),
        "{ struct Coor < T0 , T1 , > { x : T0 , y : T1 , } Coor { x : 42 , y , } }"
    );
}

#[test]
fn named_takes_a_comma_behind_the_last_field() {
    assert_eq!(expanded("{ a: 1, b, }"), expanded("{ a: 1, b }"));
    assert_eq!(expanded("{ a, }"), expanded("{ a }"));
}

#[test]
fn named_of_thirteen_mixes_shorthand_and_expressions() {
    let out = expanded(
        "{ epsilon: f64::EPSILON, n0: 42_usize, n1: 42_usize, n2: 42_usize, n3: 42_usize, \
         n4: 42_usize, n5: 42_usize, plush, n6: 42_usize, n7: 42_usize, n8: 42_usize, \
         n9: 42_usize, bfg, }",
    );
    assert_eq!(
        out,
        printed(
            "{ struct __Anym_abcdEF12 \
             < T0 , T1 , T2 , T3 , T4 , T5 , T6 , T7 , T8 , T9 , T10 , T11 , T12 , > \
             { epsilon : T0 , n0 : T1 , n1 : T2 , n2 : T3 , n3 : T4 , n4 : T5 , n5 : T6 , \
             plush : T7 , n6 : T8 , n7 : T9 , n8 : T10 , n9 : T11 , bfg : T12 , } \
             __Anym_abcdEF12 { epsilon : f64::EPSILON , n0 : 42_usize , n1 : 42_usize , \
             n2 : 42_usize , n3 : 42_usize , n4 : 42_usize , n5 : 42_usize , plush , \
             n6 : 42_usize , n7 : 42_usize , n8 : 42_usize , n9 : 42_usize , bfg , } }"
        )
    );
}

#[test]
fn named_tells_the_commas_inside_an_expression_from_those_between_two() {
    assert_eq!(
        expanded("{ a: foo::<A, B>(), b, c: |p, q| (p, q) }"),
        printed(
            "{ struct __Anym_abcdEF12 < T0 , T1 , T2 , > { a : T0 , b : T1 , c : T2 , } \
             __Anym_abcdEF12 { a : foo:: <A, B>() , b , c : |p, q| (p, q) , } }"
        )
    );
}

#[test]
fn named_does_not_refuse_a_name_that_comes_twice() {
    assert_eq!(
        expanded("{ a: 1, a: 2 }"),
        printed(
            "{ struct __Anym_abcdEF12 < T0 , T1 , > { a : T0 , a : T1 , } \
             __Anym_abcdEF12 { a : 1 , a : 2 , } }"
        )
    );
}

#[test]
fn shorthand_declares_the_type_of_the_written_out_field() {
    let short = expanded("{ x }");
    let long = expanded("{ x: x }");
    assert_eq!(
        short,
        printed("{ struct __Anym_abcdEF12 < T0 , > { x : T0 , } __Anym_abcdEF12 { x , } }")
    );
    assert_eq!(
        long,
        printed("{ struct __Anym_abcdEF12 < T0 , > { x : T0 , } __Anym_abcdEF12 { x : x , } }")
    );
    let declaration = printed("struct __Anym_abcdEF12 < T0 , > { x : T0 , }");
    assert!(short.contains(&declaration));
    assert!(long.contains(&declaration));
}

#[test]
fn explicit_names_declare_a_type_of_that_name() {
    assert!(expanded("Foo").starts_with("{ struct Foo ;"));
    assert!(expanded("Foo(1)").starts_with("{ struct Foo <"));
    assert!(expanded("Foo { a: 1 }").starts_with("{ struct Foo <"));
}

#[test]
fn explicit_names_leave_the_supply_alone() {
    let other = NameSupply::fixed("ZZZZZZZZ").unwrap();
    for src in ["Foo", "Foo(1)", "Foo { a }"] {
        let with_other = Anym::parse(&stream(src), &other).unwrap().0.to_string();
        assert_eq!(with_other, expanded(src));
        assert!(!with_other.contains("__Anym_"));
    }
}

#[test]
fn a_raw_identifier_names_the_type() {
    assert_eq!(expanded("r#struct"), printed("{ struct r#struct ; r#struct }"));
}

#[test]
fn structurally_equal_literals_get_two_types() {
    let random = NameSupply::random();
    let first = Anym::parse(&stream("(1, 2)"), &random).unwrap().0.to_string();
    let second = Anym::parse(&stream("(1, 2)"), &random).unwrap().0.to_string();
    assert_ne!(first, second);
    let first_unit = Anym::parse(&stream(""), &random).unwrap().0.to_string();
    let second_unit = Anym::parse(&stream(""), &random).unwrap().0.to_string();
    assert_ne!(first_unit, second_unit);
}

#[test]
fn random_names_have_the_prefix_and_eight_symbols() {
    let out = Anym::parse(&stream(""), &NameSupply::random()).unwrap().0.to_string();
    let words: Vec<&str> = out.split_whitespace().collect();
    assert_eq!(words.len(), 6);
    assert_eq!(words[0], "{");
    assert_eq!(words[1], "struct");
    assert_eq!(words[3], ";");
    assert_eq!(words[4], words[2]);
    assert_eq!(words[5], "}");
    assert_eq!(words[2].len(), 15);
    assert!(words[2].starts_with("__Anym_"));
    assert!(words[2][7..].chars().all(|c| c.is_ascii_alphanumeric()));
}

#[test]
fn mixed_types_get_a_parameter_each() {
    assert_eq!(
        expanded("{ a: 1_i32, b: \"x\" }"),
        printed(
            "{ struct __Anym_abcdEF12 < T0 , T1 , > { a : T0 , b : T1 , } \
             __Anym_abcdEF12 { a : 1_i32 , b : \"x\" , } }"
        )
    );
}

#[test]
fn empty_parentheses_are_refused() {
    assert_eq!(refused("()"), ErrorKind::EmptyArguments(Shape::Tuple));
    assert_eq!(refused("Foo()"), ErrorKind::EmptyArguments(Shape::Tuple));
}

#[test]
fn empty_braces_are_refused() {
    assert_eq!(refused("{}"), ErrorKind::EmptyArguments(Shape::Named));
    assert_eq!(refused("Foo {}"), ErrorKind::EmptyArguments(Shape::Named));
}

#[test]
fn empty_arguments_are_refused_before_what_follows_them() {
    assert_eq!(refused("() x"), ErrorKind::EmptyArguments(Shape::Tuple));
    assert_eq!(refused("{} x"), ErrorKind::EmptyArguments(Shape::Named));
}

#[test]
fn a_lone_comma_is_no_expression() {
    assert_eq!(refused("(,)"), ErrorKind::InvalidExpression);
    assert_eq!(refused("{,}"), ErrorKind::ExpectedIdentifier);
}

#[test]
fn tokens_behind_the_literal_are_refused() {
    assert_eq!(refused("Foo bar"), ErrorKind::UnexpectedToken);
    assert_eq!(refused("Foo(1) bar"), ErrorKind::UnexpectedToken);
    assert_eq!(refused("Foo { a } bar"), ErrorKind::UnexpectedToken);
    assert_eq!(refused("(1)(2)"), ErrorKind::UnexpectedToken);
    assert_eq!(refused("1"), ErrorKind::UnexpectedToken);
    assert_eq!(refused("[1]"), ErrorKind::UnexpectedToken);
}

#[test]
fn a_keyword_is_no_name() {
    assert_eq!(refused("struct"), ErrorKind::UnexpectedToken);
    assert_eq!(refused("self"), ErrorKind::UnexpectedToken);
    assert_eq!(refused("_"), ErrorKind::UnexpectedToken);
    assert_eq!(refused("{ fn: 1 }"), ErrorKind::ExpectedIdentifier);
    assert_eq!(refused("{ a, type }"), ErrorKind::ExpectedIdentifier);
}

#[test]
fn a_keyword_before_a_group_is_skipped_by_the_classifier() {
    assert_eq!(classify(&Tokens::new(&stream("struct (1)"))), Shape::Unit);
    assert_eq!(classify(&Tokens::new(&stream("Foo (1)"))), Shape::Tuple);
}

#[test]
fn a_field_begins_with_an_identifier() {
    assert_eq!(refused("{ 1 }"), ErrorKind::ExpectedIdentifier);
    assert_eq!(refused("{ a, 1 }"), ErrorKind::ExpectedIdentifier);
    assert_eq!(refused("{ : 1 }"), ErrorKind::ExpectedIdentifier);
    assert_eq!(refused("{ (a): 1 }"), ErrorKind::ExpectedIdentifier);
    assert_eq!(refused("{ a,, b }"), ErrorKind::ExpectedIdentifier);
}

#[test]
fn a_field_is_followed_by_a_comma() {
    assert_eq!(refused("{ a b }"), ErrorKind::ExpectedComma);
    assert_eq!(refused("{ a: 1 b }"), ErrorKind::ExpectedComma);
    assert_eq!(refused("{ a; b }"), ErrorKind::ExpectedComma);
    assert_eq!(refused("{ a = 1 }"), ErrorKind::ExpectedComma);
}

#[test]
fn a_colon_is_followed_by_an_expression() {
    assert_eq!(refused("{ a: }"), ErrorKind::InvalidExpression);
    assert_eq!(refused("{ a: , b }"), ErrorKind::InvalidExpression);
    assert_eq!(refused("{ a::b }"), ErrorKind::InvalidExpression);
    assert_eq!(refused("(1 2)"), ErrorKind::InvalidExpression);
    assert_eq!(refused("(1,, 2)"), ErrorKind::InvalidExpression);
}

#[test]
fn a_refused_expression_comes_with_the_parsers_words() {
    let e = Anym::parse(&stream("(1 2)"), &supply()).unwrap_err();
    assert_eq!(e.kind, ErrorKind::InvalidExpression);
    assert_eq!(e.source.unwrap().to_string(), "expected `,`");
    let e = Anym::parse(&stream("{ a: }"), &supply()).unwrap_err();
    assert_eq!(e.kind, ErrorKind::InvalidExpression);
    assert!(e.source.is_some());
}

#[test]
fn a_refusal_of_the_librarys_own_comes_without_a_source() {
    for src in ["()", "{}", "Foo bar", "{ 1 }", "{ a b }"] {
        assert!(Anym::parse(&stream(src), &supply()).unwrap_err().source.is_none());
    }
}

/// The token that the refusal of `src` is to be reported at.
fn reported_at(src: &str) -> String {
    Anym::parse(&stream(src), &supply()).unwrap_err().at.to_string()
}

#[test]
fn empty_parentheses_are_reported_where_they_stand() {
    assert_eq!(reported_at("()"), "()");
    assert_eq!(reported_at("Foo()"), "()");
    assert_eq!(reported_at("Foo() bar"), "()");
}

#[test]
fn empty_braces_are_reported_at_the_call_site() {
    assert_eq!(reported_at("{}"), "");
    assert_eq!(reported_at("Foo {}"), "");
    assert_eq!(reported_at("Foo {} bar"), "");
}

#[test]
fn a_token_out_of_place_is_reported_where_it_stands() {
    assert_eq!(reported_at("Foo bar baz"), "bar");
    assert_eq!(reported_at("struct Foo"), "struct");
    assert_eq!(reported_at("Foo(1) [2] 3"), printed("[2]"));
    assert_eq!(reported_at("{ a } + b"), "+");
    assert_eq!(reported_at("{ a, 1 + 2 }"), "1");
    assert_eq!(reported_at("{ (a): 1 }"), printed("(a)"));
    assert_eq!(reported_at("{ a b c }"), "b");
    assert_eq!(reported_at("{ a: 1 ; b }"), ";");
}

#[test]
fn a_refused_expression_is_reported_by_its_source() {
    assert_eq!(reported_at("(1 2)"), "");
    assert_eq!(reported_at("{ a: }"), "");
}

#[test]
fn a_missing_group_is_reported_at_what_stands_in_its_place() {
    let at = |r: Result<TokenStream, ExpandError>| r.unwrap_err().at.to_string();
    assert_eq!(at(parse_tuple_struct(&Tokens::new(&stream("Foo")), &supply())), "");
    assert_eq!(at(parse_tuple_struct(&Tokens::new(&stream("Foo {a}")), &supply())), printed("{a}"));
    assert_eq!(at(parse_c_struct(&Tokens::new(&stream("")), &supply())), "");
    assert_eq!(at(parse_c_struct(&Tokens::new(&stream("(1)")), &supply())), printed("(1)"));
    assert_eq!(at(parse_unit_struct(&Tokens::new(&stream("(1)")), &supply())), printed("(1)"));
}

#[test]
fn tokens_by_position_or_none() {
    let tokens = Tokens::new(&stream("a (b) c"));
    assert_eq!(tokens.first_from(0).to_string(), "a");
    assert_eq!(tokens.first_from(1).to_string(), printed("(b)"));
    assert_eq!(tokens.first_from(2).to_string(), "c");
    assert!(tokens.first_from(3).is_empty());
    assert!(tokens.first_from(usize::MAX).is_empty());
}

#[test]
fn messages() {
    assert_eq!(ErrorKind::EmptyArguments(Shape::Tuple).message(), "expect at least one argument");
    assert_eq!(ErrorKind::EmptyArguments(Shape::Named).message(), "expect at least one argument");
    assert_eq!(ErrorKind::EmptyArguments(Shape::Unit).message(), "expect at least one argument");
    assert_eq!(ErrorKind::ExpectedGroup(Delim::Paren).message(), "expected parentheses");
    assert_eq!(ErrorKind::ExpectedGroup(Delim::Brace).message(), "expected curly braces");
    assert_eq!(ErrorKind::ExpectedGroup(Delim::Bracket).message(), "expected square brackets");
    assert_eq!(ErrorKind::ExpectedGroup(Delim::Invisible).message(), "expected invisible group");
    assert_eq!(ErrorKind::ExpectedIdentifier.message(), "expected identifier");
    assert_eq!(ErrorKind::ExpectedComma.message(), "expected `,`");
    assert_eq!(ErrorKind::UnexpectedToken.message(), "unexpected token");
    assert_eq!(ErrorKind::InvalidExpression.message(), "expected an expression");
}

#[test]
fn error_constructors() {
    let e = ExpandError::new(ErrorKind::ExpectedComma, stream("x"));
    assert_eq!(e.kind, ErrorKind::ExpectedComma);
    assert_eq!(e.at.to_string(), "x");
    assert!(e.source.is_none());
    let cause = syn::parse2::<syn::Ident>(stream("+")).unwrap_err();
    let words = cause.to_string();
    let e = ExpandError::expression(cause);
    assert_eq!(e.kind, ErrorKind::InvalidExpression);
    assert!(e.at.is_empty());
    assert_eq!(e.source.unwrap().to_string(), words);
}

#[test]
fn classifier_decision_table() {
    let shape = |src: &str| classify(&Tokens::new(&stream(src)));
    assert_eq!(shape(""), Shape::Unit);
    assert_eq!(shape("Foo"), Shape::Unit);
    assert_eq!(shape("Foo bar"), Shape::Unit);
    assert_eq!(shape("Foo [1]"), Shape::Unit);
    assert_eq!(shape("[1]"), Shape::Unit);
    assert_eq!(shape("1"), Shape::Unit);
    assert_eq!(shape("(1)"), Shape::Tuple);
    assert_eq!(shape("()"), Shape::Tuple);
    assert_eq!(shape("Foo(1)"), Shape::Tuple);
    assert_eq!(shape("Foo() {}"), Shape::Tuple);
    assert_eq!(shape("{ a }"), Shape::Named);
    assert_eq!(shape("{}"), Shape::Named);
    assert_eq!(shape("Foo { a }"), Shape::Named);
    assert_eq!(shape("Foo {} ()"), Shape::Named);
    assert_eq!(shape("Foo Bar (1)"), Shape::Unit);
}

#[test]
fn token_positions() {
    let tokens = Tokens::new(&stream("Foo { a } , 1 struct"));
    assert_eq!(tokens.len(), 5);
    assert!(tokens.is_name_at(0));
    assert!(!tokens.is_name_at(1));
    assert!(!tokens.is_name_at(2));
    assert!(!tokens.is_name_at(3));
    assert!(!tokens.is_name_at(4));
    assert!(!tokens.is_name_at(5));
    assert!(tokens.is_kind_at(0, TokenKind::Ident));
    assert!(tokens.is_kind_at(1, TokenKind::Group(Delim::Brace)));
    assert!(!tokens.is_kind_at(1, TokenKind::Group(Delim::Paren)));
    assert!(tokens.is_kind_at(2, TokenKind::Punct(',')));
    assert!(!tokens.is_kind_at(2, TokenKind::Punct(':')));
    assert!(tokens.is_kind_at(3, TokenKind::Literal));
    assert!(tokens.is_kind_at(4, TokenKind::Ident));
    assert!(!tokens.is_kind_at(5, TokenKind::Ident));
    assert_eq!(Tokens::new(&stream("")).len(), 0);
    assert!(Tokens::new(&stream("[1]")).is_kind_at(0, TokenKind::Group(Delim::Bracket)));
}

#[test]
fn the_name_is_taken_or_made_up() {
    let (name, taken) = parse_struct_name(&Tokens::new(&stream("Foo(1)")), &supply());
    assert_eq!(name.to_string(), "Foo");
    assert_eq!(taken, 1);
    let (name, taken) = parse_struct_name(&Tokens::new(&stream("(1)")), &supply());
    assert_eq!(name.to_string(), "__Anym_abcdEF12");
    assert_eq!(taken, 0);
    let (name, taken) = parse_struct_name(&Tokens::new(&stream("")), &supply());
    assert_eq!(name.to_string(), "__Anym_abcdEF12");
    assert_eq!(taken, 0);
    let (name, taken) = parse_struct_name(&Tokens::new(&stream("struct")), &supply());
    assert_eq!(name.to_string(), "__Anym_abcdEF12");
    assert_eq!(taken, 0);
}

#[test]
fn expanders_refuse_a_literal_of_another_shape() {
    let kind = |r: Result<TokenStream, ExpandError>| r.unwrap_err().kind;
    let unit = Tokens::new(&stream("Foo"));
    let tuple = Tokens::new(&stream("Foo(1)"));
    let named = Tokens::new(&stream("Foo { a }"));
    assert_eq!(kind(parse_unit_struct(&tuple, &supply())), ErrorKind::UnexpectedToken);
    assert_eq!(kind(parse_unit_struct(&named, &supply())), ErrorKind::UnexpectedToken);
    assert_eq!(kind(parse_tuple_struct(&unit, &supply())), ErrorKind::ExpectedGroup(Delim::Paren));
    assert_eq!(kind(parse_tuple_struct(&named, &supply())), ErrorKind::ExpectedGroup(Delim::Paren));
    assert_eq!(kind(parse_c_struct(&unit, &supply())), ErrorKind::ExpectedGroup(Delim::Brace));
    assert_eq!(kind(parse_c_struct(&tuple, &supply())), ErrorKind::ExpectedGroup(Delim::Brace));
}

#[test]
fn expanders_expand_a_literal_of_their_shape() {
    let unit = Tokens::new(&stream("Foo"));
    let tuple = Tokens::new(&stream("Foo(1)"));
    let named = Tokens::new(&stream("Foo { a }"));
    assert_eq!(parse_unit_struct(&unit, &supply()).unwrap().to_string(), expanded("Foo"));
    assert_eq!(parse_tuple_struct(&tuple, &supply()).unwrap().to_string(), expanded("Foo(1)"));
    assert_eq!(parse_c_struct(&named, &supply()).unwrap().to_string(), expanded("Foo { a }"));
}

#[test]
fn fields_are_read_in_order() {
    let args = parse_args(&stream("a: 1 + 2, b, c: f(x, y),")).unwrap();
    assert_eq!(args.len(), 3);
    assert_eq!(args[0].ident.to_string(), "a");
    assert_eq!(args[0].expr.as_ref().unwrap().to_string(), printed("1 + 2"));
    assert_eq!(args[1].ident.to_string(), "b");
    assert!(args[1].expr.is_none());
    assert_eq!(args[2].ident.to_string(), "c");
    assert_eq!(args[2].expr.as_ref().unwrap().to_string(), printed("f(x, y)"));
}

#[test]
fn no_tokens_are_no_fields() {
    assert_eq!(parse_args(&stream("")).unwrap().len(), 0);
}

#[test]
fn fields_are_refused_with_their_reason() {
    let kind = |src: &str| parse_args(&stream(src)).unwrap_err().kind;
    assert_eq!(kind("1"), ErrorKind::ExpectedIdentifier);
    assert_eq!(kind("a b"), ErrorKind::ExpectedComma);
    assert_eq!(kind("a:"), ErrorKind::InvalidExpression);
    assert_eq!(kind("a: 1, b: +"), ErrorKind::InvalidExpression);
}

#[test]
fn emitters_emit_their_piece() {
    assert_eq!(emit_params(0).to_string(), "");
    assert_eq!(emit_params(1).to_string(), printed("T0 ,"));
    assert_eq!(emit_params(3).to_string(), printed("T0 , T1 , T2 ,"));
    assert_eq!(emit_args(&vec![]).to_string(), "");
    assert_eq!(
        emit_args(&vec![stream("a + 1"), stream("f(b)")]).to_string(),
        printed("a + 1 , f(b) ,")
    );
    let args = vec![
        Arg { ident: stream("x"), expr: Some(stream("1 + 1")) },
        Arg { ident: stream("y"), expr: None },
    ];
    assert_eq!(emit_field_decls(&args).to_string(), printed("x : T0 , y : T1 ,"));
    assert_eq!(emit_field_binds(&args).to_string(), printed("x : 1 + 1 , y ,"));
    assert_eq!(emit_block(&stream("a"), &stream("b c")).to_string(), printed("{ a b c }"));
    assert_eq!(emit_unit(&stream("N")).to_string(), printed("{ struct N ; N }"));
    assert_eq!(
        emit_tuple(&stream("N"), &vec![stream("1")]).to_string(),
        printed("{ struct N < T0 , > ( T0 , ) ; N ( 1 , ) }")
    );
    assert_eq!(
        emit_named(&stream("N"), &args).to_string(),
        printed("{ struct N < T0 , T1 , > { x : T0 , y : T1 , } N { x : 1 + 1 , y , } }")
    );
}

fn invisible(src: &str) -> TokenStream {
    let group = proc_macro2::Group::new(proc_macro2::Delimiter::None, stream(src));
    TokenStream::from(proc_macro2::TokenTree::Group(group))
}

#[test]
fn an_invisible_group_is_a_token_of_its_own() {
    let tokens = Tokens::new(&invisible("Foo"));
    assert_eq!(tokens.len(), 1);
    assert!(tokens.is_kind_at(0, TokenKind::Group(Delim::Invisible)));
    assert!(!tokens.is_name_at(0));
    assert_eq!(classify(&tokens), Shape::Unit);
    let refusal = Anym::parse(&invisible("Foo"), &supply()).unwrap_err();
    assert_eq!(refusal.kind, ErrorKind::UnexpectedToken);
}

#[test]
fn an_invisible_group_can_be_an_expression() {
    let mut content = invisible("1 + 2");
    content.extend(stream(", 3"));
    let group = proc_macro2::Group::new(proc_macro2::Delimiter::Parenthesis, content);
    let input = TokenStream::from(proc_macro2::TokenTree::Group(group));
    let out = Anym::parse(&input, &supply()).unwrap().0;
    let words: Vec<String> = out.to_string().split_whitespace().map(String::from).collect();
    assert_eq!(words[..9].join(" "), "{ struct __Anym_abcdEF12 < T0 , T1 , >");
    assert!(out.to_string().contains("1 + 2"));
}
