use mako::config::{build_env_map, define_value_expr, ConfigValue};
use mako::env_replacer::EnvReplacer;
use mako::parser::parse;
use mako::printer::print_module;
use mako::resolver::resolve;
use std::collections::HashMap;

fn run(js_code: &str, envs: Vec<(String, ConfigValue)>) -> String {
    let parsed = parse(js_code).unwrap();
    let resolved = resolve(&parsed);
    let envs = build_env_map(envs).unwrap();
    let replacer = EnvReplacer::new(envs);
    let rewritten = replacer.replace_module(&resolved);
    print_module(&rewritten).trim().to_string()
}

#[test]
#[should_panic = "define value 'for(;;)console.log()' is not an Expression"]
fn transform_env_replacer_test_wrong_define_value() {
    let map = vec![(
        "wrong".to_string(),
        ConfigValue::Str("for(;;)console.log()".to_string()),
    )];
    match build_env_map(map) {
        Ok(_) => {}
        Err(e) => panic!("{}", e.message()),
    }
}

#[test]
#[should_panic = "define value 'for(;;)console.log()' is not an Expression"]
fn transform_env_replacer_test_nested_wrong_define_value() {
    let map = vec![(
        "parent".to_string(),
        ConfigValue::Obj(vec![(
            "wrong".to_string(),
            ConfigValue::Str("for(;;)console.log()".to_string()),
        )]),
    )];
    match build_env_map(map) {
        Ok(_) => {}
        Err(e) => panic!("{}", e.message()),
    }
}

#[test]
#[should_panic = "define value 'for(;;)console.log()' is not an Expression"]
fn env_replacer_test_wrong_define_value() {
    let map = vec![(
        "wrong".to_string(),
        ConfigValue::Str("for(;;)console.log()".to_string()),
    )];
    match build_env_map(map) {
        Ok(_) => {}
        Err(e) => panic!("{}", e.message()),
    }
}

#[test]
#[should_panic = "define value 'for(;;)console.log()' is not an Expression"]
fn env_replacer_test_nested_wrong_define_value() {
    let map = vec![(
        "parent".to_string(),
        ConfigValue::Obj(vec![(
            "wrong".to_string(),
            ConfigValue::Str("for(;;)console.log()".to_string()),
        )]),
    )];
    match build_env_map(map) {
        Ok(_) => {}
        Err(e) => panic!("{}", e.message()),
    }
}

#[test]
fn test_boolean() {
    assert_eq!(
        run(
            r#"log(A)"#,
            vec![("A".to_string(), ConfigValue::Bool(true))]
        ),
        r#"log(true);"#
    );
}

#[test]
fn test_number() {
    assert_eq!(
        run(
            r#"log(A)"#,
            vec![("A".to_string(), ConfigValue::Num("1".to_string()))]
        ),
        r#"log(1);"#
    );
}

#[test]
fn test_string() {
    assert_eq!(
        run(
            r#"log(A)"#,
            vec![("A".to_string(), ConfigValue::Str("\"foo\"".to_string()))]
        ),
        r#"log("foo");"#
    );
}

#[test]
fn test_array() {
    assert_eq!(
        run(
            r#"log(A)"#,
            vec![(
                "A".to_string(),
                ConfigValue::Arr(vec![
                    ConfigValue::Num("1".to_string()),
                    ConfigValue::Bool(true),
                    ConfigValue::Str("\"foo\"".to_string()),
                ])
            )]
        ),
        r#"
log([
    1,
    true,
    "foo"
]);
            "#
        .trim()
    );
}

#[test]
fn test_undefined_env() {
    assert_eq!(
        run(r#"if (process.env.UNDEFINED_ENV === "true") {}"#, Vec::new()),
        r#"if (undefined === "true") {}"#
    );
}

#[test]
fn test_bracket_access() {
    assert_eq!(
        run(
            r#"log(process.env["A"])"#,
            vec![("A".to_string(), ConfigValue::Bool(true))]
        ),
        r#"log(true);"#
    );
}

#[test]
fn test_shadowed_name_untouched() {
    assert_eq!(
        run(
            r#"let A = 1;log(A)"#,
            vec![("A".to_string(), ConfigValue::Bool(true))]
        ),
        "let A = 1;\nlog(A);"
    );
}

#[test]
fn test_meta_env_missing_key() {
    assert_eq!(
        run(r#"log(import.meta.env.MISSING)"#, Vec::new()),
        r#"log(undefined);"#
    );
}

#[test]
fn test_meta_env_mode_reads_node_env() {
    let envs = vec![(
        "NODE_ENV".to_string(),
        ConfigValue::Str("\"production\"".to_string()),
    )];
    assert_eq!(run(r#"log(import.meta.env.MODE)"#, envs), r#"log("production");"#);
}

#[test]
fn test_meta_env_node_env_is_renamed_away() {
    let envs = vec![(
        "NODE_ENV".to_string(),
        ConfigValue::Str("\"production\"".to_string()),
    )];
    assert_eq!(run(r#"log(import.meta.env.NODE_ENV)"#, envs), r#"log(undefined);"#);
}

#[test]
fn test_bare_meta_env_object() {
    let envs = vec![("A".to_string(), ConfigValue::Bool(true))];
    assert_eq!(
        run(r#"log(import.meta.env)"#, envs),
        "log({\n    A: true\n});"
    );
}

#[test]
fn test_error_message_names_value() {
    let map = vec![(
        "wrong".to_string(),
        ConfigValue::Str("".to_string()),
    )];
    match build_env_map(map) {
        Ok(_) => panic!("an empty define value is not an expression"),
        Err(e) => assert_eq!(e.message(), "define value '' is not an Expression"),
    }
}

#[test]
fn test_key_order_is_kept() {
    // The meta object enumerates entries in the map's order; a HashMap in
    // the configuration layer would have to fix an order before this call.
    let mut raw = HashMap::new();
    raw.insert("B".to_string(), ConfigValue::Bool(false));
    let mut pairs: Vec<(String, ConfigValue)> = raw.into_iter().collect();
    pairs.insert(0, ("A".to_string(), ConfigValue::Bool(true)));
    assert_eq!(
        run(r#"log(import.meta.env)"#, pairs),
        "log({\n    A: true,\n    B: false\n});"
    );
}

#[test]
fn test_define_value_expr_decides_from_parse() {
    let ok = define_value_expr(&"1".to_string(), parse("1"));
    assert!(ok.is_ok());
    let not_expr = define_value_expr(
        &"for(;;)console.log()".to_string(),
        parse("for(;;)console.log()"),
    );
    match not_expr {
        Ok(_) => panic!("a statement is no define expression"),
        Err(e) => assert_eq!(
            e.message(),
            "define value 'for(;;)console.log()' is not an Expression"
        ),
    }
    let empty = define_value_expr(&"".to_string(), parse(""));
    assert!(empty.is_err());
}
