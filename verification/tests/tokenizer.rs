use ebdb::error::EbdbError;
use ebdb::tokenizer::Token;
use ebdb::tokenizer::Tokenizer;

fn written(tokens: &Vec<Token>) -> String {
    format!("{:?}", tokens)
}

fn tokens_of(text: &str) -> String {
    written(&Tokenizer::new(text).parse().unwrap())
}

#[test]
fn test_parse() {
    let tokenizer = Tokenizer::new("hello world(23) ").parse().unwrap();
}

#[test]
fn words_and_a_container() {
    assert_eq!(
        tokens_of("hello world(23) "),
        "[Identifier(\"hello\"), Identifier(\"world\"), Parenthesis([Identifier(\"23\")])]"
    );
}

#[test]
fn empty_text_has_no_tokens() {
    assert_eq!(tokens_of(""), "[]");
    assert_eq!(tokens_of(" \t\r\n"), "[]");
}

#[test]
fn blanks_separate_and_are_dropped() {
    assert_eq!(
        tokens_of("a\tb\nc\rd e"),
        "[Identifier(\"a\"), Identifier(\"b\"), Identifier(\"c\"), Identifier(\"d\"), Identifier(\"e\")]"
    );
}

#[test]
fn marks_are_tokens_of_their_own() {
    assert_eq!(
        tokens_of("a,b!c?"),
        "[Identifier(\"a\"), Commas, Identifier(\"b\"), ExclamationMark, Identifier(\"c\"), QuestionMark]"
    );
    assert_eq!(tokens_of(",!?"), "[Commas, ExclamationMark, QuestionMark]");
}

#[test]
fn each_bracket_has_its_token() {
    assert_eq!(tokens_of("()"), "[Parenthesis([])]");
    assert_eq!(tokens_of("{}"), "[Curly([])]");
    assert_eq!(tokens_of("[]"), "[Square([])]");
}

#[test]
fn containers_nest() {
    assert_eq!(
        tokens_of("a{b(c[d]e)f}g"),
        "[Identifier(\"a\"), Curly([Identifier(\"b\"), Parenthesis([Identifier(\"c\"), Square([Identifier(\"d\")]), Identifier(\"e\")]), Identifier(\"f\")]), Identifier(\"g\")]"
    );
}

#[test]
fn a_bracket_ends_the_word_before_it() {
    assert_eq!(
        tokens_of("int(64)"),
        "[Identifier(\"int\"), Parenthesis([Identifier(\"64\")])]"
    );
    assert_eq!(tokens_of("char[]"), "[Identifier(\"char\"), Square([])]");
}

#[test]
fn quoted_span_keeps_what_stands_inside() {
    assert_eq!(tokens_of("\"box\""), "[Quoted(\"box\")]");
    assert_eq!(tokens_of("\"\""), "[Quoted(\"\")]");
    assert_eq!(
        tokens_of("a \"b c, (d] }\" e"),
        "[Identifier(\"a\"), Quoted(\"b c, (d] }\"), Identifier(\"e\")]"
    );
}

#[test]
fn quote_ends_the_word_before_it() {
    assert_eq!(tokens_of("ab\"cd\"ef"), "[Identifier(\"ab\"), Quoted(\"cd\"), Identifier(\"ef\")]");
}

#[test]
fn words_keep_characters_beyond_ascii() {
    assert_eq!(
        tokens_of("größe(ß) \"é,è\""),
        "[Identifier(\"größe\"), Parenthesis([Identifier(\"ß\")]), Quoted(\"é,è\")]"
    );
}

#[test]
fn sample_schema_tokens() {
    assert_eq!(
        tokens_of("table {\n\tid int(64),\n\tname char[]? \"ds\",\n\tprice uint? null,\n\tis_table bool[6]\n}"),
        "[Identifier(\"table\"), Curly([Identifier(\"id\"), Identifier(\"int\"), Parenthesis([Identifier(\"64\")]), Commas, Identifier(\"name\"), Identifier(\"char\"), Square([]), QuestionMark, Quoted(\"ds\"), Commas, Identifier(\"price\"), Identifier(\"uint\"), QuestionMark, Identifier(\"null\"), Commas, Identifier(\"is_table\"), Identifier(\"bool\"), Square([Identifier(\"6\")])])]"
    );
}

#[test]
fn unclosed_container_is_an_error() {
    assert!(matches!(Tokenizer::new("a {").parse(), Err(EbdbError::MissingCharacter('}'))));
    assert!(matches!(Tokenizer::new("a (b").parse(), Err(EbdbError::MissingCharacter(')'))));
    assert!(matches!(Tokenizer::new("[").parse(), Err(EbdbError::MissingCharacter(']'))));
    assert!(matches!(Tokenizer::new("a { b ( c ").parse(), Err(EbdbError::MissingCharacter(')'))));
    assert!(matches!(Tokenizer::new("a { b ( c ) ").parse(), Err(EbdbError::MissingCharacter('}'))));
}

#[test]
fn unclosed_quote_is_an_error() {
    assert!(matches!(Tokenizer::new("a \"bc").parse(), Err(EbdbError::MissingCharacter('"'))));
    assert!(matches!(Tokenizer::new("\"").parse(), Err(EbdbError::MissingCharacter('"'))));
}

#[test]
fn stray_closer_is_an_error() {
    assert!(matches!(
        Tokenizer::new("}").parse(),
        Err(EbdbError::ClosingNonExistingContainer('}'))
    ));
    assert!(matches!(
        Tokenizer::new("a b ) c").parse(),
        Err(EbdbError::ClosingNonExistingContainer(')'))
    ));
    assert!(matches!(
        Tokenizer::new("a [b] ]").parse(),
        Err(EbdbError::ClosingNonExistingContainer(']'))
    ));
}

#[test]
fn wrong_closer_is_an_error() {
    assert!(matches!(
        Tokenizer::new("a { b )").parse(),
        Err(EbdbError::WrongClosingContainer('}', ')'))
    ));
    assert!(matches!(
        Tokenizer::new("(]").parse(),
        Err(EbdbError::WrongClosingContainer(')', ']'))
    ));
    assert!(matches!(
        Tokenizer::new("[a}").parse(),
        Err(EbdbError::WrongClosingContainer(']', '}'))
    ));
}

#[test]
fn the_first_error_is_returned() {
    assert!(matches!(
        Tokenizer::new("a ) (").parse(),
        Err(EbdbError::ClosingNonExistingContainer(')'))
    ));
    assert!(matches!(
        Tokenizer::new("( ] \"").parse(),
        Err(EbdbError::WrongClosingContainer(')', ']'))
    ));
}

#[test]
fn top_level_reads_the_whole_text() {
    let (tokens, used) = Tokenizer::new("hello world(23) ").internal_parse().unwrap();
    assert_eq!(tokens.len(), 3);
    assert_eq!(used, 16);
    let (tokens, used) = Tokenizer::new("").internal_parse().unwrap();
    assert_eq!(tokens.len(), 0);
    assert_eq!(used, 0);
}

#[test]
fn inner_level_stops_at_its_exit() {
    let (tokens, used) = Tokenizer::from_slice("23) rest", ')').internal_parse().unwrap();
    assert_eq!(written(&tokens), "[Identifier(\"23\")]");
    assert_eq!(used, 2);
    let (tokens, used) = Tokenizer::from_slice("a (b) c } d }", '}').internal_parse().unwrap();
    assert_eq!(
        written(&tokens),
        "[Identifier(\"a\"), Parenthesis([Identifier(\"b\")]), Identifier(\"c\")]"
    );
    assert_eq!(used, 8);
}

#[test]
fn inner_level_counts_characters() {
    let (tokens, used) = Tokenizer::from_slice("é ü]", ']').internal_parse().unwrap();
    assert_eq!(written(&tokens), "[Identifier(\"é\"), Identifier(\"ü\")]");
    assert_eq!(used, 3);
}

#[test]
fn inner_level_needs_its_exit() {
    assert!(matches!(
        Tokenizer::from_slice("a b", ')').parse(),
        Err(EbdbError::MissingCharacter(')'))
    ));
    assert!(matches!(
        Tokenizer::from_slice("a } b )", ')').parse(),
        Err(EbdbError::WrongClosingContainer(')', '}'))
    ));
}

#[test]
fn any_character_can_be_the_exit() {
    let (tokens, used) = Tokenizer::from_slice("abc;def", ';').internal_parse().unwrap();
    assert_eq!(written(&tokens), "[Identifier(\"abc\")]");
    assert_eq!(used, 3);
}

#[test]
fn deep_nesting_is_read() {
    let depth = 2000;
    let mut text = String::new();
    for _ in 0..depth {
        text.push('(');
    }
    text.push('x');
    for _ in 0..depth {
        text.push(')');
    }
    let tokens = Tokenizer::new(&text).parse().unwrap();
    assert_eq!(tokens.len(), 1);
    let mut level = &tokens[0];
    let mut seen = 0;
    while let Token::Parenthesis(inner) = level {
        assert_eq!(inner.len(), 1);
        level = &inner[0];
        seen += 1;
    }
    assert_eq!(seen, depth);
    assert!(matches!(level, Token::Identifier(name) if name == "x"));
}

#[test]
fn clone_keeps_the_tokens() {
    let tokens = Tokenizer::new("a { b int(64)?, c char[] \"x\" }").parse().unwrap();
    let copy: Vec<Token> = tokens.iter().map(|token| token.clone()).collect();
    assert_eq!(written(&copy), written(&tokens));
}
