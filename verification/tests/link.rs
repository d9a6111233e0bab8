use ebdb::error::EbdbError;
use ebdb::model::Defaults;
use ebdb::model::Type;
use ebdb::name_map::NameMap;
use ebdb::partials::link;
use ebdb::partials::parse;
use ebdb::linker::parse_type_info;
use ebdb::partials::PartialStructure;
use ebdb::partials::PartialType;
use ebdb::tokenizer::Tokenizer;

fn declared(text: &str) -> NameMap<PartialStructure> {
    parse(Tokenizer::new(text).parse().unwrap()).unwrap()
}

fn partial(types: &str) -> PartialType {
    PartialType {
        types: types.to_string(),
        size: None,
        default: None,
        amount: 1,
        nullable: false,
    }
}

fn with_default(types: &str, text: &str) -> PartialType {
    PartialType { default: Some(Some(text.to_string())), ..partial(types) }
}

fn with_null(types: &str) -> PartialType {
    PartialType { default: Some(None), ..partial(types) }
}

fn with_size(types: &str, size: usize) -> PartialType {
    PartialType { size: Some(size), ..partial(types) }
}

fn resolve(partial: &PartialType) -> String {
    let none: NameMap<PartialStructure> = NameMap::new();
    format!("{:?}", parse_type_info(&none, &"f".to_string(), partial).unwrap())
}

fn refuse(partial: &PartialType) -> String {
    let none: NameMap<PartialStructure> = NameMap::new();
    match parse_type_info(&none, &"f".to_string(), partial) {
        Err(EbdbError::Custom(message)) => message,
        other => panic!("no error in words: {:?}", other),
    }
}

fn link_error(text: &str) -> String {
    match link(declared(text)) {
        Err(EbdbError::Custom(message)) => message,
        Err(other) => panic!("no error in words: {:?}", other),
        Ok(_) => panic!("no error"),
    }
}

#[test]
fn type_without_default_is_required() {
    assert_eq!(
        resolve(&partial("int")),
        "Integer { amount: 1, size: 0, default: Required, nullable: false }"
    );
    assert_eq!(
        resolve(&partial("uint")),
        "UnsignedInteger { amount: 1, size: 0, default: Required, nullable: false }"
    );
    assert_eq!(
        resolve(&partial("float")),
        "Float { amount: 1, size: 0, default: Required, nullable: false }"
    );
    assert_eq!(resolve(&partial("char")), "Text { amount: 1, default: Required, nullable: false }");
    assert_eq!(
        resolve(&partial("bool")),
        "Boolean { amount: 1, default: Required, nullable: false }"
    );
}

#[test]
fn null_default_is_null() {
    assert_eq!(
        resolve(&with_null("int")),
        "Integer { amount: 1, size: 0, default: Null, nullable: false }"
    );
    assert_eq!(
        resolve(&with_null("uint")),
        "UnsignedInteger { amount: 1, size: 0, default: Null, nullable: false }"
    );
    assert_eq!(
        resolve(&with_null("float")),
        "Float { amount: 1, size: 0, default: Null, nullable: false }"
    );
    assert_eq!(resolve(&with_null("char")), "Text { amount: 1, default: Null, nullable: false }");
    assert_eq!(
        resolve(&with_null("bool")),
        "Boolean { amount: 1, default: Null, nullable: false }"
    );
}

#[test]
fn written_default_is_converted() {
    assert_eq!(
        resolve(&with_default("int", "-42")),
        "Integer { amount: 1, size: 0, default: Value(-42), nullable: false }"
    );
    assert_eq!(
        resolve(&with_default("uint", "42")),
        "UnsignedInteger { amount: 1, size: 0, default: Value(42), nullable: false }"
    );
    assert_eq!(
        resolve(&with_default("char", "box")),
        "Text { amount: 1, default: Value(\"box\"), nullable: false }"
    );
    assert_eq!(
        resolve(&with_default("bool", "true")),
        "Boolean { amount: 1, default: Value(true), nullable: false }"
    );
    assert_eq!(
        resolve(&with_default("bool", "false")),
        "Boolean { amount: 1, default: Value(false), nullable: false }"
    );
}

#[test]
fn float_default_is_kept_as_written() {
    let none: NameMap<PartialStructure> = NameMap::new();
    let resolved = parse_type_info(&none, &"f".to_string(), &with_default("float", "2.5e3"))
        .unwrap();
    match resolved {
        Type::Float { amount, size, default: Defaults::Value(literal), nullable } => {
            assert_eq!(amount, 1);
            assert_eq!(size, 0);
            assert!(!nullable);
            assert_eq!(literal.as_str(), "2.5e3");
            assert_eq!(literal.as_str().parse::<f64>().unwrap(), 2500.0);
        },
        other => panic!("not a float with a value: {:?}", other),
    }
}

#[test]
fn widest_integers_are_converted() {
    assert_eq!(
        resolve(&with_default("int", "-170141183460469231731687303715884105728")),
        "Integer { amount: 1, size: 0, default: Value(-170141183460469231731687303715884105728), nullable: false }"
    );
    assert_eq!(
        resolve(&with_default("uint", "340282366920938463463374607431768211455")),
        "UnsignedInteger { amount: 1, size: 0, default: Value(340282366920938463463374607431768211455), nullable: false }"
    );
}

#[test]
fn default_that_does_not_convert_is_an_error() {
    assert_eq!(refuse(&with_default("int", "abc")), "Cannot read the default of f as int: abc");
    assert_eq!(refuse(&with_default("int", "")), "Cannot read the default of f as int: ");
    assert_eq!(refuse(&with_default("int", "1.5")), "Cannot read the default of f as int: 1.5");
    assert_eq!(
        refuse(&with_default("int", "170141183460469231731687303715884105728")),
        "Cannot read the default of f as int: 170141183460469231731687303715884105728"
    );
    assert_eq!(refuse(&with_default("uint", "-1")), "Cannot read the default of f as uint: -1");
    assert_eq!(
        refuse(&with_default("uint", "340282366920938463463374607431768211456")),
        "Cannot read the default of f as uint: 340282366920938463463374607431768211456"
    );
    assert_eq!(
        refuse(&with_default("float", "1.5.2")),
        "Cannot read the default of f as float: 1.5.2"
    );
    assert_eq!(refuse(&with_default("float", "")), "Cannot read the default of f as float: ");
    assert_eq!(refuse(&with_default("bool", "yes")), "Cannot read the default of f as bool: yes");
    assert_eq!(refuse(&with_default("bool", "True")), "Cannot read the default of f as bool: True");
}

#[test]
fn numeric_size_passes_through() {
    assert_eq!(
        resolve(&with_size("int", 64)),
        "Integer { amount: 1, size: 64, default: Required, nullable: false }"
    );
    assert_eq!(
        resolve(&with_size("uint", 0)),
        "UnsignedInteger { amount: 1, size: 0, default: Required, nullable: false }"
    );
    assert_eq!(
        resolve(&with_size("float", 32)),
        "Float { amount: 1, size: 32, default: Required, nullable: false }"
    );
}

#[test]
fn text_and_truth_value_take_no_size() {
    assert_eq!(refuse(&with_size("char", 8)), "String uses square braquets for they size: f");
    assert_eq!(refuse(&with_size("char", 0)), "String uses square braquets for they size: f");
    assert_eq!(refuse(&with_size("bool", 1)), "String uses square braquets for they size: f");
    assert_eq!(refuse(&with_size("bool", 0)), "String uses square braquets for they size: f");
}

#[test]
fn size_is_refused_before_the_default_is_read() {
    let both = PartialType { size: Some(1), ..with_default("bool", "yes") };
    assert_eq!(refuse(&both), "String uses square braquets for they size: f");
}

#[test]
fn amount_and_nullable_pass_through() {
    let written = PartialType { amount: 6, nullable: true, ..partial("bool") };
    assert_eq!(resolve(&written), "Boolean { amount: 6, default: Required, nullable: true }");
    let written = PartialType { amount: 0, nullable: true, ..with_default("char", "ds") };
    assert_eq!(resolve(&written), "Text { amount: 0, default: Value(\"ds\"), nullable: true }");
}

#[test]
fn type_names_are_exact() {
    assert_eq!(refuse(&partial("Int")), "Type 'Int' has no been defined");
    assert_eq!(refuse(&partial("INT")), "Type 'INT' has no been defined");
    assert_eq!(refuse(&partial("integer")), "Type 'integer' has no been defined");
    assert_eq!(refuse(&partial("")), "Type '' has no been defined");
}

#[test]
fn declared_structure_is_a_type() {
    let known = declared("point { x int } box { }");
    let written = PartialType { amount: 3, nullable: true, ..partial("point") };
    assert_eq!(
        format!("{:?}", parse_type_info(&known, &"f".to_string(), &written).unwrap()),
        "Datatype { amount: 3, types: \"point\", nullable: true }"
    );
    assert_eq!(
        format!("{:?}", parse_type_info(&known, &"f".to_string(), &partial("box")).unwrap()),
        "Datatype { amount: 1, types: \"box\", nullable: false }"
    );
    assert!(matches!(
        parse_type_info(&known, &"f".to_string(), &partial("circle")),
        Err(EbdbError::Custom(message)) if message == "Type 'circle' has no been defined"
    ));
}

#[test]
fn structure_type_drops_size_and_default() {
    let known = declared("point { }");
    let written = PartialType { size: Some(8), ..with_default("point", "x") };
    assert_eq!(
        format!("{:?}", parse_type_info(&known, &"f".to_string(), &written).unwrap()),
        "Datatype { amount: 1, types: \"point\", nullable: false }"
    );
}

#[test]
fn link_keeps_structures_and_fields_in_their_order() {
    let linked = link(declared("b { y int, x char } a { } c { z bool }")).unwrap();
    assert_eq!(linked.len(), 3);
    assert_eq!(linked[0].get_name(), "b");
    assert_eq!(linked[1].get_name(), "a");
    assert_eq!(linked[2].get_name(), "c");
    assert_eq!(linked[0].get_fields().len(), 2);
    assert_eq!(linked[0].get_fields().name_at(0), "y");
    assert_eq!(linked[0].get_fields().name_at(1), "x");
    assert_eq!(linked[1].get_fields().len(), 0);
    assert_eq!(linked[2].get_fields().len(), 1);
}

#[test]
fn link_of_nothing_is_nothing() {
    assert_eq!(link(NameMap::new()).unwrap().len(), 0);
}

#[test]
fn reference_resolves_whatever_the_order() {
    let linked = link(declared("box { origin point } point { x int }")).unwrap();
    assert_eq!(
        format!("{:?}", linked[0].get_field("origin").unwrap()),
        "Datatype { amount: 1, types: \"point\", nullable: false }"
    );
    let linked = link(declared("point { x int } box { origin point }")).unwrap();
    assert_eq!(
        format!("{:?}", linked[1].get_field("origin").unwrap()),
        "Datatype { amount: 1, types: \"point\", nullable: false }"
    );
}

#[test]
fn structure_may_refer_to_itself() {
    let linked = link(declared("node { next node?, value int }")).unwrap();
    assert_eq!(
        format!("{:?}", linked[0].get_field("next").unwrap()),
        "Datatype { amount: 1, types: \"node\", nullable: true }"
    );
}

#[test]
fn undeclared_type_fails_linking() {
    assert_eq!(link_error("bad { a weirdtype }"), "Type 'weirdtype' has no been defined");
    assert_eq!(
        link_error("a { x int } b { y a, z c } d { }"),
        "Type 'c' has no been defined"
    );
}

#[test]
fn first_field_without_type_fails_linking() {
    assert_eq!(
        link_error("a { x int, y char(8), z nothing } b { w nothing }"),
        "String uses square braquets for they size: y"
    );
    assert_eq!(
        link_error("a { x int \"one\" } b { y char(8) }"),
        "Cannot read the default of x as int: one"
    );
}
