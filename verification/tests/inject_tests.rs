use mako::inject::{Inject, MyInjector};
use mako::parser::parse;
use mako::printer::print_module;
use mako::resolver::resolve;

fn apply_inject_to_code(injects: Vec<(String, Inject)>, code: &str) -> String {
    let parsed = match parse(code) {
        Ok(m) => m,
        Err(e) => panic!("parse failed at {}", e.pos),
    };
    let resolved = resolve(&parsed);
    let injector = MyInjector::new(injects);
    let rewritten = match injector.apply(&resolved) {
        Ok(m) => m,
        Err(e) => panic!("{}", e.message()),
    };
    print_module(&rewritten)
}

fn simple_inject(named: Option<&str>, namespace: Option<bool>, prefer_require: bool) -> Inject {
    Inject {
        name: "my".to_string(),
        named: named.map(|s| s.to_string()),
        from: "mock-lib".to_string(),
        namespace,
        exclude: None,
        prefer_require,
    }
}

#[test]
fn no_inject() {
    let i = simple_inject(None, None, false);
    let code = apply_inject_to_code(
        vec![("my".to_string(), i)],
        r#"let my = 1;my.call("toast");"#,
    );
    assert_eq!(
        code,
        r#"let my = 1;
my.call("toast");
"#
    );
}

#[test]
fn inject_from_default() {
    let i = simple_inject(None, None, false);
    let code = apply_inject_to_code(
        vec![("my".to_string(), i)],
        r#"my.call("toast");export { }"#,
    );
    assert_eq!(
        code,
        r#"import my from "mock-lib";
my.call("toast");
export { };
"#
    );
}

#[test]
fn inject_in_cjs_from_default() {
    let i = simple_inject(None, None, false);
    let code = apply_inject_to_code(vec![("my".to_string(), i)], r#"my.call("toast");"#);
    assert_eq!(
        code,
        r#"var my = require("mock-lib").default;
my.call("toast");
"#
    );
}

#[test]
fn inject_from_named() {
    let i = simple_inject(Some("her"), None, false);
    let code = apply_inject_to_code(
        vec![("my".to_string(), i)],
        r#"my.call("toast");export { }"#,
    );
    assert_eq!(
        code,
        r#"import { her as my } from "mock-lib";
my.call("toast");
export { };
"#
    );
}

#[test]
fn inject_in_cjs_from_named() {
    let i = simple_inject(Some("her"), None, false);
    let code = apply_inject_to_code(vec![("my".to_string(), i)], r#"my.call("toast")"#);
    assert_eq!(
        code,
        r#"var my = require("mock-lib").her;
my.call("toast");
"#
    );
}

#[test]
fn inject_from_named_same_name() {
    let i = simple_inject(Some("my"), None, false);
    let code = apply_inject_to_code(
        vec![("my".to_string(), i)],
        r#"my.call("toast");export { }"#,
    );
    assert_eq!(
        code,
        r#"import { my } from "mock-lib";
my.call("toast");
export { };
"#
    );
}

#[test]
fn inject_in_cjs_from_named_same_name() {
    let i = simple_inject(Some("my"), None, false);
    let code = apply_inject_to_code(vec![("my".to_string(), i)], r#"my.call("toast");"#);
    assert_eq!(
        code,
        r#"var my = require("mock-lib").my;
my.call("toast");
"#
    );
}

#[test]
fn inject_from_namespace() {
    let i = simple_inject(None, Some(true), false);
    let code = apply_inject_to_code(
        vec![("my".to_string(), i)],
        r#"my.call("toast");export { }"#,
    );
    assert_eq!(
        code,
        r#"import * as my from "mock-lib";
my.call("toast");
export { };
"#
    );
}

#[test]
fn inject_in_cjs_from_namespace() {
    let i = simple_inject(None, Some(true), false);
    let code = apply_inject_to_code(vec![("my".to_string(), i)], r#"my.call("toast");"#);
    assert_eq!(
        code,
        r#"var my = require("mock-lib");
my.call("toast");
"#
    );
}

#[test]
fn injected_require_treat_as_dep() {
    let i = simple_inject(None, Some(true), false);
    let code = apply_inject_to_code(vec![("my".to_string(), i)], r#"my.call("toast");"#);
    // The synthesized require call is an ordinary dependency for later
    // analysis: exactly one require of the injected source appears.
    let deps = code.matches("require(\"mock-lib\")").count();
    assert_eq!(deps, 1);
}

#[test]
fn inject_prefer_require() {
    let i = simple_inject(None, None, true);
    let code = apply_inject_to_code(
        vec![("my".to_string(), i)],
        r#"my.call("toast");export { }"#,
    );
    assert_eq!(
        code,
        r#"var my = require("mock-lib").default;
my.call("toast");
export { };
"#
    );
}

#[test]
fn dont_inject_named_exported() {
    let i = simple_inject(None, None, true);
    let code = apply_inject_to_code(
        vec![("my".to_string(), i)],
        r#"let foo=1;export {foo as my}"#,
    );
    assert_eq!(
        code,
        r#"let foo = 1;
export { foo as my };
"#
    );
}

#[test]
fn inject_invalid_spec_fails_fast() {
    let i = Inject {
        name: "my".to_string(),
        named: Some("her".to_string()),
        from: "mock-lib".to_string(),
        namespace: Some(true),
        exclude: None,
        prefer_require: false,
    };
    let parsed = parse(r#"my.call("toast");"#).unwrap();
    let resolved = resolve(&parsed);
    let injector = MyInjector::new(vec![("my".to_string(), i)]);
    match injector.apply(&resolved) {
        Ok(_) => panic!("an invalid rule must fail fast"),
        Err(e) => {
            assert_eq!(
                e.message(),
                "inject 'my' cannot use both `named` and `namespaced`"
            );
        }
    }
}

#[test]
fn inject_only_once_for_many_uses() {
    let i = simple_inject(None, Some(true), false);
    let code = apply_inject_to_code(
        vec![("my".to_string(), i)],
        r#"my.call("a");my.call("b");my.call("c");"#,
    );
    assert_eq!(
        code,
        r#"var my = require("mock-lib");
my.call("a");
my.call("b");
my.call("c");
"#
    );
}
