use mako::parser::parse;
use mako::printer::print_module;

#[test]
fn print_escapes_quotes() {
    let m = parse("log(\"a\\\"b\")").unwrap();
    assert_eq!(print_module(&m), "log(\"a\\\"b\");\n");
}

#[test]
fn parse_rejects_incomplete_declaration() {
    assert!(parse("let = ;").is_err());
}

#[test]
fn parse_rejects_statement_as_expression() {
    assert!(parse("log(for)").is_err());
}

#[test]
fn print_if_block_with_body() {
    let m = parse("if (x) { log(1); }").unwrap();
    assert_eq!(print_module(&m), "if (x) {\n    log(1);\n}\n");
}

#[test]
fn print_import_forms_round_trip() {
    let m = parse("import a from \"m\";import * as b from \"n\";import { c as d } from \"o\";")
        .unwrap();
    assert_eq!(
        print_module(&m),
        "import a from \"m\";\nimport * as b from \"n\";\nimport { c as d } from \"o\";\n"
    );
}

#[test]
fn print_empty_statement() {
    let m = parse("log(1);;").unwrap();
    assert_eq!(print_module(&m), "log(1);\n;\n");
}
