use vstd::prelude::*;
use vstd::string::StringExecFns;

use crate::ast::{clone_expr, Expr, Lit, ModuleItem, ObjProp, SpecExpr, SpecLit, SpecModuleItem,
    SpecObjProp, SpecStmt, Stmt};
use crate::parser::{parse, ParseError};
use crate::ast::JsModule;

verus! {

broadcast use vstd::std_specs::vec::group_vec_axioms;

/// Mathematical model of a configuration error.
#[verifier::ext_equal]
pub enum SpecConfigError {
    /// A define value whose text is not a single expression statement.
    InvalidDefineValue(Seq<char>),
    /// An inject rule asking for both a named and a namespace selector.
    InvalidInjectSpec(Seq<char>),
}

/// A fatal configuration error: the build aborts rather than guessing
/// intent.
#[derive(Debug)]
pub enum ConfigError {
    /// A define value whose text is not a single expression statement; holds
    /// the offending source text.
    InvalidDefineValue(String),
    /// An inject rule asking for both a named and a namespace selector;
    /// holds the watched name.
    InvalidInjectSpec(String),
}

impl View for ConfigError {
    type V = SpecConfigError;

    open spec fn view(&self) -> SpecConfigError {
        match self {
            ConfigError::InvalidDefineValue(s) => SpecConfigError::InvalidDefineValue(s@),
            ConfigError::InvalidInjectSpec(s) => SpecConfigError::InvalidInjectSpec(s@),
        }
    }
}

pub open spec fn spec_error_message(e: SpecConfigError) -> Seq<char> {
    match e {
        SpecConfigError::InvalidDefineValue(s) => "define value '"@ + s
            + "' is not an Expression"@,
        SpecConfigError::InvalidInjectSpec(s) => "inject '"@ + s
            + "' cannot use both `named` and `namespaced`"@,
    }
}

impl ConfigError {
    /// A diagnostic line identifying the offending configuration value.
    pub fn message(&self) -> (r: String)
        ensures
            r@ == spec_error_message(self@),
    {
        match self {
            ConfigError::InvalidDefineValue(s) => {
                let mut m = "define value '".to_owned();
                m.append(s.as_str());
                m.append("' is not an Expression");
                m
            },
            ConfigError::InvalidInjectSpec(s) => {
                let mut m = "inject '".to_owned();
                m.append(s.as_str());
                m.append("' cannot use both `named` and `namespaced`");
                m
            },
        }
    }
}

// ---------------------------------------------------------------------------
// The environment map is built once from configuration. A boolean, number,
// null, array or object value maps structurally to a literal expression
// tree; a string value is parsed as a standalone expression, and one whose
// text is not a single expression statement is an invalid define value.
// ---------------------------------------------------------------------------

/// A configuration value, as a build configuration file would give it.
pub enum ConfigValue {
    /// Source text to parse as one expression.
    Str(String),
    /// A numeric value, kept as its source text.
    Num(String),
    Bool(bool),
    Null,
    Arr(Vec<ConfigValue>),
    Obj(Vec<(String, ConfigValue)>),
}

#[verifier::ext_equal]
pub enum SpecConfigValue {
    Str(Seq<char>),
    Num(Seq<char>),
    Bool(bool),
    Null,
    Arr(Seq<SpecConfigValue>),
    Obj(Seq<(Seq<char>, SpecConfigValue)>),
}

pub open spec fn view_config(v: ConfigValue) -> SpecConfigValue
    decreases v,
{
    match v {
        ConfigValue::Str(s) => SpecConfigValue::Str(s@),
        ConfigValue::Num(s) => SpecConfigValue::Num(s@),
        ConfigValue::Bool(b) => SpecConfigValue::Bool(b),
        ConfigValue::Null => SpecConfigValue::Null,
        ConfigValue::Arr(items) => {
            proof {
                assert(decreases_to!(items => items@));
            }
            SpecConfigValue::Arr(view_configs(items@))
        },
        ConfigValue::Obj(pairs) => {
            proof {
                assert(decreases_to!(pairs => pairs@));
            }
            SpecConfigValue::Obj(view_config_pairs(pairs@))
        },
    }
}

pub open spec fn view_configs(items: Seq<ConfigValue>) -> Seq<SpecConfigValue>
    decreases items,
{
    if items.len() == 0 {
        Seq::empty()
    } else {
        view_configs(items.drop_last()).push(view_config(items.last()))
    }
}

pub open spec fn view_config_pairs(pairs: Seq<(String, ConfigValue)>) -> Seq<
    (Seq<char>, SpecConfigValue),
>
    decreases pairs,
{
    if pairs.len() == 0 {
        Seq::empty()
    } else {
        view_config_pairs(pairs.drop_last()).push(
            (pairs.last().0@, view_config(pairs.last().1)),
        )
    }
}

impl View for ConfigValue {
    type V = SpecConfigValue;

    open spec fn view(&self) -> SpecConfigValue {
        view_config(*self)
    }
}

pub broadcast proof fn lemma_view_configs(items: Seq<ConfigValue>)
    ensures
        (#[trigger] view_configs(items)).len() == items.len(),
        forall|i: int| 0 <= i < items.len() ==> view_configs(items)[i] == view_config(items[i]),
    decreases items.len(),
{
    if items.len() > 0 {
        lemma_view_configs(items.drop_last());
    }
}

pub broadcast proof fn lemma_view_config_pairs(pairs: Seq<(String, ConfigValue)>)
    ensures
        (#[trigger] view_config_pairs(pairs)).len() == pairs.len(),
        forall|i: int|
            0 <= i < pairs.len() ==> view_config_pairs(pairs)[i] == (
            pairs[i].0@,
            view_config(pairs[i].1),
            ),
    decreases pairs.len(),
{
    if pairs.len() > 0 {
        lemma_view_config_pairs(pairs.drop_last());
    }
}

/// Does the value hold no string anywhere? For such values the resulting
/// expression is a pure function of the value.
pub open spec fn config_plain(v: SpecConfigValue) -> bool
    decreases v,
{
    match v {
        SpecConfigValue::Str(_) => false,
        SpecConfigValue::Num(_) => true,
        SpecConfigValue::Bool(_) => true,
        SpecConfigValue::Null => true,
        SpecConfigValue::Arr(items) => forall|i: int|
            0 <= i < items.len() ==> config_plain(#[trigger] items[i]),
        SpecConfigValue::Obj(pairs) => forall|i: int|
            0 <= i < pairs.len() ==> config_plain(#[trigger] pairs[i].1),
    }
}

/// Does the text `s` occur as a string value anywhere inside `v`?
pub open spec fn has_nested_str(v: SpecConfigValue, s: Seq<char>) -> bool
    decreases v,
{
    match v {
        SpecConfigValue::Str(t) => t == s,
        SpecConfigValue::Num(_) => false,
        SpecConfigValue::Bool(_) => false,
        SpecConfigValue::Null => false,
        SpecConfigValue::Arr(items) => exists|i: int|
            0 <= i < items.len() && has_nested_str(#[trigger] items[i], s),
        SpecConfigValue::Obj(pairs) => exists|i: int|
            0 <= i < pairs.len() && has_nested_str(#[trigger] pairs[i].1, s),
    }
}

/// The literal expression a string-free configuration value maps to.
pub open spec fn config_expr(v: SpecConfigValue) -> SpecExpr
    decreases v,
{
    match v {
        SpecConfigValue::Str(_) => SpecExpr::Lit(SpecLit::Null),
        SpecConfigValue::Num(n) => SpecExpr::Lit(SpecLit::Num(n)),
        SpecConfigValue::Bool(b) => SpecExpr::Lit(SpecLit::Bool(b)),
        SpecConfigValue::Null => SpecExpr::Lit(SpecLit::Null),
        SpecConfigValue::Arr(items) => SpecExpr::Array { elems: config_exprs(items) },
        SpecConfigValue::Obj(pairs) => SpecExpr::Object { props: config_props(pairs) },
    }
}

pub open spec fn config_exprs(items: Seq<SpecConfigValue>) -> Seq<SpecExpr>
    decreases items,
{
    if items.len() == 0 {
        Seq::empty()
    } else {
        config_exprs(items.drop_last()).push(config_expr(items.last()))
    }
}

pub open spec fn config_props(pairs: Seq<(Seq<char>, SpecConfigValue)>) -> Seq<SpecObjProp>
    decreases pairs,
{
    if pairs.len() == 0 {
        Seq::empty()
    } else {
        config_props(pairs.drop_last()).push(
            SpecObjProp { key: pairs.last().0, value: config_expr(pairs.last().1) },
        )
    }
}

pub broadcast proof fn lemma_config_exprs(items: Seq<SpecConfigValue>)
    ensures
        (#[trigger] config_exprs(items)).len() == items.len(),
        forall|i: int| 0 <= i < items.len() ==> config_exprs(items)[i] == config_expr(items[i]),
    decreases items.len(),
{
    if items.len() > 0 {
        lemma_config_exprs(items.drop_last());
    }
}

pub broadcast proof fn lemma_config_props(pairs: Seq<(Seq<char>, SpecConfigValue)>)
    ensures
        (#[trigger] config_props(pairs)).len() == pairs.len(),
        forall|i: int|
            0 <= i < pairs.len() ==> config_props(pairs)[i] == (SpecObjProp {
                key: pairs[i].0,
                value: config_expr(pairs[i].1),
            }),
    decreases pairs.len(),
{
    if pairs.len() > 0 {
        lemma_config_props(pairs.drop_last());
    }
}

/// Decides one string define value from what the parser returned: success is
/// owed exactly when the parsed module's first item is an expression
/// statement, and that expression becomes the literal; anything else is an
/// invalid define value naming the offending text.
pub fn define_value_expr(s: &String, parsed: Result<JsModule, ParseError>) -> (r: Result<
    Expr,
    ConfigError,
>)
    ensures
        r is Ok <==> (parsed matches Ok(m) && m@.body.len() >= 1 && m@.body[0] matches
            SpecModuleItem::Stmt(SpecStmt::Expr { .. })),
        r matches Ok(e) ==> (parsed matches Ok(m) && e@ == m@.body[0]->Stmt_0->Expr_expr),
        r matches Err(er) ==> er@ == SpecConfigError::InvalidDefineValue(s@),
{
    match parsed {
        Ok(m) => {
            if m.body.len() >= 1 {
                match &m.body[0] {
                    ModuleItem::Stmt(Stmt::Expr { expr }) => {
                        proof {
                            assert(m@.body[0] == crate::ast::view_item(m.body@[0]));
                        }
                        Ok(clone_expr(expr))
                    },
                    _ => {
                        proof {
                            assert(m@.body[0] == crate::ast::view_item(m.body@[0]));
                        }
                        Err(ConfigError::InvalidDefineValue(s.clone()))
                    },
                }
            } else {
                Err(ConfigError::InvalidDefineValue(s.clone()))
            }
        },
        Err(_) => Err(ConfigError::InvalidDefineValue(s.clone())),
    }
}

/// Turns one configuration value into a literal expression tree. A string
/// value is decided by the parser through `define_value_expr`; any failure
/// anywhere inside the value is an invalid define value naming the
/// offending text.
#[verifier::loop_isolation(false)]
pub fn get_env_expr(v: &ConfigValue) -> (r: Result<Expr, ConfigError>)
    ensures
        config_plain(v@) ==> (r matches Ok(e) && e@ == config_expr(v@)),
        r matches Err(e) ==> (e@ matches SpecConfigError::InvalidDefineValue(_) && has_nested_str(
            v@,
            e@->InvalidDefineValue_0,
        )),
    decreases *v,
{
    match v {
        ConfigValue::Str(s) => {
            let parsed = parse(s.as_str());
            let r = define_value_expr(s, parsed);
            proof {
                assert(*v == ConfigValue::Str(*s));
                assert(v@ == SpecConfigValue::Str(s@));
            }
            r
        },
        ConfigValue::Num(n) => Ok(Expr::Lit(Lit::Num(n.clone()))),
        ConfigValue::Bool(b) => Ok(Expr::Lit(Lit::Bool(*b))),
        ConfigValue::Null => Ok(Expr::Lit(Lit::Null)),
        ConfigValue::Arr(items) => {
            proof {
                assert(decreases_to!(*v => v->Arr_0));
                assert(decreases_to!(*items => items@));
            }
            let mut elems: Vec<Expr> = Vec::new();
            let mut i: usize = 0;
            while i < items.len()
                invariant
                    i <= items@.len(),
                    elems@.len() == i,
                    forall|j: int|
                        0 <= j < i ==> config_plain(view_config(items@[j]))
                            ==> elems@[j]@ == config_expr(view_config(items@[j])),
                decreases items@.len() - i,
            {
                proof {
                    assert(decreases_to!(items@ => items@[i as int]));
                    broadcast use lemma_view_configs;

                    assert(*v == ConfigValue::Arr(*items));
                    assert(v@ == SpecConfigValue::Arr(view_configs(items@)));
                    assert(v@->Arr_0[i as int] == view_config(items@[i as int]));
                }
                let e = match get_env_expr(&items[i]) {
                    Ok(e) => e,
                    Err(er) => {
                        proof {
                            assert(!config_plain(view_config(items@[i as int])));
                            let sp = er@->InvalidDefineValue_0;
                            assert(has_nested_str(view_config(items@[i as int]), sp));
                            assert(has_nested_str(v@, sp));
                        }
                        return Err(er);
                    },
                };
                elems.push(e);
                i = i + 1;
            }
            let r = Expr::Array { elems };
            proof {
                broadcast use crate::ast::lemma_view_exprs, lemma_view_configs,
                    lemma_config_exprs;

                assert(*v == ConfigValue::Arr(*items));
                assert(v@ == SpecConfigValue::Arr(view_configs(items@)));
                if config_plain(v@) {
                    assert forall|j: int| 0 <= j < items@.len() implies config_plain(
                        view_config(items@[j]),
                    ) by {
                        assert(v@->Arr_0[j] == view_config(items@[j]));
                    }
                    match r {
                        Expr::Array { elems: ref e2 } => {
                            assert(e2@ == elems@);
                            assert forall|j: int| 0 <= j < items@.len() implies crate::ast::view_exprs(
                                e2@,
                            )[j] == config_exprs(view_configs(items@))[j] by {
                                assert(config_exprs(view_configs(items@))[j] == config_expr(
                                    view_configs(items@)[j],
                                ));
                                assert(view_configs(items@)[j] == view_config(items@[j]));
                                assert(config_plain(view_config(items@[j])));
                                assert(e2@[j]@ == config_expr(view_config(items@[j])));
                                assert(crate::ast::view_exprs(e2@)[j] == e2@[j]@);
                            }
                            assert(crate::ast::view_exprs(e2@) =~= config_expr(
                                v@,
                            )->Array_elems);
                        },
                        _ => {},
                    }
                }
            }
            Ok(r)
        },
        ConfigValue::Obj(pairs) => {
            proof {
                assert(decreases_to!(*v => v->Obj_0));
                assert(decreases_to!(*pairs => pairs@));
            }
            let mut props: Vec<ObjProp> = Vec::new();
            let mut i: usize = 0;
            while i < pairs.len()
                invariant
                    i <= pairs@.len(),
                    props@.len() == i,
                    forall|j: int|
                        0 <= j < i ==> props@[j].key@ == pairs@[j].0@ && (config_plain(
                            view_config(pairs@[j].1),
                        ) ==> props@[j].value@ == config_expr(view_config(pairs@[j].1))),
                decreases pairs@.len() - i,
            {
                proof {
                    assert(decreases_to!(pairs@ => pairs@[i as int]));
                    assert(decreases_to!(pairs@[i as int] => pairs@[i as int].1));
                    broadcast use lemma_view_config_pairs;

                    assert(*v == ConfigValue::Obj(*pairs));
                    assert(v@ == SpecConfigValue::Obj(view_config_pairs(pairs@)));
                    assert(v@->Obj_0[i as int].1 == view_config(pairs@[i as int].1));
                }
                let p = &pairs[i];
                let e = match get_env_expr(&p.1) {
                    Ok(e) => e,
                    Err(er) => {
                        proof {
                            assert(!config_plain(view_config(pairs@[i as int].1)));
                            let sp = er@->InvalidDefineValue_0;
                            assert(has_nested_str(view_config(pairs@[i as int].1), sp));
                            assert(has_nested_str(v@, sp));
                        }
                        return Err(er);
                    },
                };
                props.push(ObjProp { key: p.0.clone(), value: e });
                i = i + 1;
            }
            let r = Expr::Object { props };
            proof {
                broadcast use crate::ast::lemma_view_props, lemma_view_config_pairs,
                    lemma_config_props;

                assert(*v == ConfigValue::Obj(*pairs));
                assert(v@ == SpecConfigValue::Obj(view_config_pairs(pairs@)));
                if config_plain(v@) {
                    assert forall|j: int| 0 <= j < pairs@.len() implies config_plain(
                        view_config(pairs@[j].1),
                    ) by {
                        assert(v@->Obj_0[j].1 == view_config(pairs@[j].1));
                    }
                    match r {
                        Expr::Object { props: ref p2 } => {
                            assert(p2@ == props@);
                            assert forall|j: int| 0 <= j < pairs@.len() implies crate::ast::view_props(
                                p2@,
                            )[j] == config_props(view_config_pairs(pairs@))[j] by {
                                assert(config_props(view_config_pairs(pairs@))[j]
                                    == (SpecObjProp {
                                    key: view_config_pairs(pairs@)[j].0,
                                    value: config_expr(view_config_pairs(pairs@)[j].1),
                                }));
                                assert(view_config_pairs(pairs@)[j] == (
                                pairs@[j].0@,
                                view_config(pairs@[j].1),
                                ));
                                assert(config_plain(view_config(pairs@[j].1)));
                                assert(p2@[j].value@ == config_expr(view_config(pairs@[j].1)));
                                assert(crate::ast::view_props(p2@)[j] == (SpecObjProp {
                                    key: p2@[j].key@,
                                    value: p2@[j].value@,
                                }));
                            }
                            assert(crate::ast::view_props(p2@) =~= config_props(
                                view_config_pairs(pairs@),
                            ));
                            assert(config_expr(v@)->Object_props == config_props(
                                view_config_pairs(pairs@),
                            ));
                        },
                        _ => {},
                    }
                }
            }
            Ok(r)
        },
    }
}

/// Builds the environment map from configuration: every value becomes a
/// literal expression under its name, keys and order kept. The first
/// invalid define value aborts the build.
#[verifier::loop_isolation(false)]
pub fn build_env_map(env_map: Vec<(String, ConfigValue)>) -> (r: Result<
    Vec<(String, Expr)>,
    ConfigError,
>)
    ensures
        r matches Ok(envs) ==> {
            &&& envs@.len() == env_map@.len()
            &&& forall|i: int| 0 <= i < envs@.len() ==> envs@[i].0@ == env_map@[i].0@
            &&& forall|i: int|
                0 <= i < envs@.len() ==> config_plain(env_map@[i].1@) ==> envs@[i].1@
                    == config_expr(env_map@[i].1@)
        },
        (forall|i: int| 0 <= i < env_map@.len() ==> config_plain(#[trigger] env_map@[i].1@))
            ==> r is Ok,
        r matches Err(e) ==> (e@ matches SpecConfigError::InvalidDefineValue(_) && exists|i: int|
            0 <= i < env_map@.len() && has_nested_str(
                #[trigger] env_map@[i].1@,
                e@->InvalidDefineValue_0,
            )),
{
    let mut envs: Vec<(String, Expr)> = Vec::new();
    let mut i: usize = 0;
    while i < env_map.len()
        invariant
            i <= env_map@.len(),
            envs@.len() == i,
            forall|j: int| 0 <= j < i ==> envs@[j].0@ == env_map@[j].0@,
            forall|j: int|
                0 <= j < i ==> config_plain(env_map@[j].1@) ==> envs@[j].1@ == config_expr(
                    env_map@[j].1@,
                ),
        decreases env_map@.len() - i,
    {
        let p = &env_map[i];
        let e = match get_env_expr(&p.1) {
            Ok(e) => e,
            Err(er) => {
                proof {
                    assert(!config_plain(env_map@[i as int].1@));
                    assert(has_nested_str(
                        env_map@[i as int].1@,
                        er@->InvalidDefineValue_0,
                    ));
                }
                return Err(er);
            },
        };
        envs.push((p.0.clone(), e));
        i = i + 1;
    }
    Ok(envs)
}

} // verus!
