use vstd::prelude::*;

use crate::ast::{
    clone_expr, clone_ident, clone_item, clone_lit, clone_var_kind, lemma_view_exprs,
    lemma_view_props, lemma_view_stmts, view_expr, view_exprs, view_ident, view_item, view_items,
    view_lit, view_member_prop, view_opt_expr, view_opt_str, view_props, view_stmt, view_stmts,
    BinOp, Expr, Ident, JsModule, Lit, MemberProp, ModuleItem, ObjProp, SpecExpr, SpecIdent,
    SpecJsModule, SpecLit, SpecMemberProp, SpecModuleItem, SpecObjProp, SpecStmt, Stmt, VarKind,
};
use crate::FREE_TAG;

verus! {

broadcast use vstd::std_specs::vec::group_vec_axioms;

// ---------------------------------------------------------------------------
// The environment substitution pass rewrites, inside one module's tree:
//   - every free identifier whose name is a key of the environment map into
//     that key's literal expression;
//   - `process.env.K` and `process.env["K"]` (with `process` free) into the
//     key's literal, or `undefined` when the key is unset;
//   - `import.meta.env.K` (and the bracket form) likewise, but against the
//     meta map, which holds the same entries with the key `NODE_ENV` renamed
//     to `MODE`;
//   - the bare `import.meta.env` into an object literal of the whole meta
//     map, in the meta map's entry order.
// Identifiers bound by an enclosing declaration are never touched, and a
// replaced node is not visited again.
// ---------------------------------------------------------------------------

/// An environment map: names paired with literal expressions, looked up
/// front to back.
pub type SpecEnv = Seq<(Seq<char>, SpecExpr)>;

pub open spec fn env_of(v: Seq<(String, Expr)>) -> SpecEnv {
    v.map_values(|p: (String, Expr)| (p.0@, view_expr(p.1)))
}

pub open spec fn env_lookup(env: SpecEnv, k: Seq<char>) -> Option<SpecExpr>
    decreases env.len(),
{
    if env.len() == 0 {
        None
    } else if env[0].0 == k {
        Some(env[0].1)
    } else {
        env_lookup(env.drop_first(), k)
    }
}

/// The meta map derived from an environment map: the same entries in the
/// same order, with the key `NODE_ENV` renamed to `MODE`.
pub open spec fn meta_of(env: SpecEnv) -> SpecEnv {
    env.map_values(
        |p: (Seq<char>, SpecExpr)|
            if p.0 == "NODE_ENV"@ {
                ("MODE"@, p.1)
            } else {
                p
            },
    )
}

/// The replacement for an access to an unset environment key.
pub open spec fn undefined_ident() -> SpecExpr {
    SpecExpr::Ident(SpecIdent { sym: "undefined"@, tag: FREE_TAG })
}

/// Classifies the object of a member access: `Some(true)` for
/// `process.env` with `process` free, `Some(false)` for `import.meta.env`,
/// `None` for anything else.
pub open spec fn env_base(obj: SpecExpr) -> Option<bool> {
    match obj {
        SpecExpr::Member { obj: inner, prop: SpecMemberProp::Ident(p) } => {
            if p == "env"@ {
                match *inner {
                    SpecExpr::Ident(id) => {
                        if id.sym == "process"@ && id.tag == FREE_TAG {
                            Some(true)
                        } else {
                            None
                        }
                    },
                    SpecExpr::ImportMeta => Some(false),
                    _ => None,
                }
            } else {
                None
            }
        },
        _ => None,
    }
}

/// The key named by the property of an `env` member access: the property
/// name itself, or the text of a computed string-literal property.
pub open spec fn prop_key(prop: SpecMemberProp) -> Option<Seq<char>> {
    match prop {
        SpecMemberProp::Ident(s) => Some(s),
        SpecMemberProp::Computed(e) => match *e {
            SpecExpr::Lit(SpecLit::Str(s)) => Some(s),
            _ => None,
        },
    }
}

/// Is `e` the bare expression `import.meta.env`?
pub open spec fn is_bare_meta_env(e: SpecExpr) -> bool {
    match e {
        SpecExpr::Member { obj, prop: SpecMemberProp::Ident(p) } => *obj
            == SpecExpr::ImportMeta && p == "env"@,
        _ => false,
    }
}

/// The object literal that replaces a bare `import.meta.env`.
pub open spec fn meta_object(meta: SpecEnv) -> SpecExpr {
    SpecExpr::Object {
        props: meta.map_values(
            |p: (Seq<char>, SpecExpr)| SpecObjProp { key: p.0, value: p.1 },
        ),
    }
}

pub open spec fn subst_expr(e: SpecExpr, env: SpecEnv, meta: SpecEnv) -> SpecExpr
    decreases e,
{
    match e {
        SpecExpr::Ident(id) => {
            if id.tag == FREE_TAG {
                match env_lookup(env, id.sym) {
                    Some(v) => v,
                    None => e,
                }
            } else {
                e
            }
        },
        SpecExpr::Member { obj, prop } => {
            match env_base(*obj) {
                Some(is_node) => {
                    match prop_key(prop) {
                        Some(k) => {
                            match env_lookup(if is_node { env } else { meta }, k) {
                                Some(v) => v,
                                None => undefined_ident(),
                            }
                        },
                        None => SpecExpr::Member {
                            obj: Box::new(subst_expr(*obj, env, meta)),
                            prop: subst_member_prop(prop, env, meta),
                        },
                    }
                },
                None => {
                    if is_bare_meta_env(e) {
                        meta_object(meta)
                    } else {
                        SpecExpr::Member {
                            obj: Box::new(subst_expr(*obj, env, meta)),
                            prop: subst_member_prop(prop, env, meta),
                        }
                    }
                },
            }
        },
        SpecExpr::Lit(_) => e,
        SpecExpr::ImportMeta => e,
        SpecExpr::Call { callee, args } => SpecExpr::Call {
            callee: Box::new(subst_expr(*callee, env, meta)),
            args: subst_exprs(args, env, meta),
        },
        SpecExpr::Bin { op, left, right } => SpecExpr::Bin {
            op,
            left: Box::new(subst_expr(*left, env, meta)),
            right: Box::new(subst_expr(*right, env, meta)),
        },
        SpecExpr::Array { elems } => SpecExpr::Array { elems: subst_exprs(elems, env, meta) },
        SpecExpr::Object { props } => SpecExpr::Object { props: subst_props(props, env, meta) },
    }
}

pub open spec fn subst_member_prop(p: SpecMemberProp, env: SpecEnv, meta: SpecEnv) -> SpecMemberProp
    decreases p,
{
    match p {
        SpecMemberProp::Ident(_) => p,
        SpecMemberProp::Computed(e) => SpecMemberProp::Computed(
            Box::new(subst_expr(*e, env, meta)),
        ),
    }
}

pub open spec fn subst_exprs(es: Seq<SpecExpr>, env: SpecEnv, meta: SpecEnv) -> Seq<SpecExpr>
    decreases es,
{
    if es.len() == 0 {
        Seq::empty()
    } else {
        subst_exprs(es.drop_last(), env, meta).push(subst_expr(es.last(), env, meta))
    }
}

pub open spec fn subst_props(ps: Seq<SpecObjProp>, env: SpecEnv, meta: SpecEnv) -> Seq<SpecObjProp>
    decreases ps,
{
    if ps.len() == 0 {
        Seq::empty()
    } else {
        subst_props(ps.drop_last(), env, meta).push(
            SpecObjProp {
                key: ps.last().key,
                value: subst_expr(ps.last().value, env, meta),
            },
        )
    }
}

pub broadcast proof fn lemma_subst_exprs(es: Seq<SpecExpr>, env: SpecEnv, meta: SpecEnv)
    ensures
        (#[trigger] subst_exprs(es, env, meta)).len() == es.len(),
        forall|i: int|
            0 <= i < es.len() ==> subst_exprs(es, env, meta)[i] == subst_expr(es[i], env, meta),
    decreases es.len(),
{
    if es.len() > 0 {
        lemma_subst_exprs(es.drop_last(), env, meta);
    }
}

pub broadcast proof fn lemma_subst_props(ps: Seq<SpecObjProp>, env: SpecEnv, meta: SpecEnv)
    ensures
        (#[trigger] subst_props(ps, env, meta)).len() == ps.len(),
        forall|i: int|
            0 <= i < ps.len() ==> subst_props(ps, env, meta)[i] == (SpecObjProp {
                key: ps[i].key,
                value: subst_expr(ps[i].value, env, meta),
            }),
    decreases ps.len(),
{
    if ps.len() > 0 {
        lemma_subst_props(ps.drop_last(), env, meta);
    }
}

/// Statement positions are rewritten in their expressions; declaration names
/// are binding patterns, not expressions, and stay as they are.
pub open spec fn subst_stmt(s: SpecStmt, env: SpecEnv, meta: SpecEnv) -> SpecStmt
    decreases s,
{
    match s {
        SpecStmt::Decl { kind, name, init } => SpecStmt::Decl {
            kind,
            name,
            init: match init {
                Some(e) => Some(subst_expr(e, env, meta)),
                None => None,
            },
        },
        SpecStmt::Expr { expr } => SpecStmt::Expr { expr: subst_expr(expr, env, meta) },
        SpecStmt::If { cond, cons } => SpecStmt::If {
            cond: subst_expr(cond, env, meta),
            cons: subst_stmts(cons, env, meta),
        },
        SpecStmt::Empty => s,
    }
}

pub open spec fn subst_stmts(ss: Seq<SpecStmt>, env: SpecEnv, meta: SpecEnv) -> Seq<SpecStmt>
    decreases ss,
{
    if ss.len() == 0 {
        Seq::empty()
    } else {
        subst_stmts(ss.drop_last(), env, meta).push(subst_stmt(ss.last(), env, meta))
    }
}

pub broadcast proof fn lemma_subst_stmts(ss: Seq<SpecStmt>, env: SpecEnv, meta: SpecEnv)
    ensures
        (#[trigger] subst_stmts(ss, env, meta)).len() == ss.len(),
        forall|i: int|
            0 <= i < ss.len() ==> subst_stmts(ss, env, meta)[i] == subst_stmt(ss[i], env, meta),
    decreases ss.len(),
{
    if ss.len() > 0 {
        lemma_subst_stmts(ss.drop_last(), env, meta);
    }
}

/// Import and export declarations hold no expression positions the pass
/// rewrites.
pub open spec fn subst_item(it: SpecModuleItem, env: SpecEnv, meta: SpecEnv) -> SpecModuleItem {
    match it {
        SpecModuleItem::Stmt(s) => SpecModuleItem::Stmt(subst_stmt(s, env, meta)),
        _ => it,
    }
}

pub open spec fn subst_module(m: SpecJsModule, env: SpecEnv, meta: SpecEnv) -> SpecJsModule {
    SpecJsModule { body: m.body.map_values(|it: SpecModuleItem| subst_item(it, env, meta)) }
}

// ---------------------------------------------------------------------------
// Laws of the substitution.
// ---------------------------------------------------------------------------

/// The expression `process.env`, with `process` free.
pub open spec fn process_env_obj() -> SpecExpr {
    SpecExpr::Member {
        obj: Box::new(SpecExpr::Ident(SpecIdent { sym: "process"@, tag: FREE_TAG })),
        prop: SpecMemberProp::Ident("env"@),
    }
}

/// The expression `process.env.k`.
pub open spec fn process_env_dot(k: Seq<char>) -> SpecExpr {
    SpecExpr::Member { obj: Box::new(process_env_obj()), prop: SpecMemberProp::Ident(k) }
}

/// The expression `process.env["k"]`.
pub open spec fn process_env_bracket(k: Seq<char>) -> SpecExpr {
    SpecExpr::Member {
        obj: Box::new(process_env_obj()),
        prop: SpecMemberProp::Computed(Box::new(SpecExpr::Lit(SpecLit::Str(k)))),
    }
}

/// The bare expression `import.meta.env`.
pub open spec fn import_meta_env() -> SpecExpr {
    SpecExpr::Member { obj: Box::new(SpecExpr::ImportMeta), prop: SpecMemberProp::Ident("env"@) }
}

/// The expression `import.meta.env.k`.
pub open spec fn import_meta_env_dot(k: Seq<char>) -> SpecExpr {
    SpecExpr::Member { obj: Box::new(import_meta_env()), prop: SpecMemberProp::Ident(k) }
}

/// Law: when the environment map holds `k -> lit`, a free identifier named
/// `k`, `process.env.k` and `process.env["k"]` all rewrite to `lit`, while
/// an identifier named `k` that is bound by an enclosing declaration is left
/// unchanged.
pub proof fn lemma_env_entry_substituted(
    env: SpecEnv,
    meta: SpecEnv,
    k: Seq<char>,
    lit: SpecExpr,
    tag: u32,
)
    requires
        env_lookup(env, k) == Some(lit),
        tag != FREE_TAG,
    ensures
        subst_expr(SpecExpr::Ident(SpecIdent { sym: k, tag: FREE_TAG }), env, meta) == lit,
        subst_expr(SpecExpr::Ident(SpecIdent { sym: k, tag }), env, meta) == SpecExpr::Ident(
            SpecIdent { sym: k, tag },
        ),
        subst_expr(process_env_dot(k), env, meta) == lit,
        subst_expr(process_env_bracket(k), env, meta) == lit,
{
}

/// Law: a member access on `process.env` whose `process` is bound by an
/// enclosing declaration is left unchanged.
pub proof fn lemma_shadowed_process_untouched(env: SpecEnv, meta: SpecEnv, k: Seq<char>, tag: u32)
    requires
        tag != FREE_TAG,
    ensures
        ({
            let e = SpecExpr::Member {
                obj: Box::new(
                    SpecExpr::Member {
                        obj: Box::new(SpecExpr::Ident(SpecIdent { sym: "process"@, tag })),
                        prop: SpecMemberProp::Ident("env"@),
                    },
                ),
                prop: SpecMemberProp::Ident(k),
            };
            subst_expr(e, env, meta) == e
        }),
{
    reveal_with_fuel(subst_expr, 3);
}

/// Law: an access to a key that is unset in the chosen map rewrites to the
/// identifier `undefined`, for `process.env.k` against the environment map
/// and for `import.meta.env.k` against the meta map.
pub proof fn lemma_unset_key_undefined(env: SpecEnv, meta: SpecEnv, k: Seq<char>)
    ensures
        env_lookup(env, k) is None ==> subst_expr(process_env_dot(k), env, meta)
            == undefined_ident(),
        env_lookup(meta, k) is None ==> subst_expr(import_meta_env_dot(k), env, meta)
            == undefined_ident(),
{
}

proof fn lemma_meta_lookup_mode(env: SpecEnv)
    requires
        forall|i: int| 0 <= i < env.len() ==> env[i].0 != "MODE"@,
    ensures
        env_lookup(meta_of(env), "MODE"@) == env_lookup(env, "NODE_ENV"@),
    decreases env.len(),
{
    reveal_strlit("MODE");
    reveal_strlit("NODE_ENV");
    if env.len() > 0 {
        assert(meta_of(env)[0] == (
            if env[0].0 == "NODE_ENV"@ {
                ("MODE"@, env[0].1)
            } else {
                env[0]
            }
        ));
        if env[0].0 == "NODE_ENV"@ {
        } else {
            assert(meta_of(env).drop_first() =~= meta_of(env.drop_first()));
            lemma_meta_lookup_mode(env.drop_first());
        }
    }
}

/// Law: when the environment map holds `NODE_ENV` and no key of its own
/// named `MODE`, `import.meta.env.MODE` rewrites to the same literal as
/// `process.env.NODE_ENV`. (The key `NODE_ENV` itself is renamed away in
/// the meta map, so `import.meta.env.NODE_ENV` reads as unset.)
pub proof fn lemma_meta_mode_matches_node_env(env: SpecEnv, lit: SpecExpr)
    requires
        env_lookup(env, "NODE_ENV"@) == Some(lit),
        forall|i: int| 0 <= i < env.len() ==> env[i].0 != "MODE"@,
    ensures
        subst_expr(import_meta_env_dot("MODE"@), env, meta_of(env)) == lit,
        subst_expr(process_env_dot("NODE_ENV"@), env, meta_of(env)) == lit,
{
    lemma_meta_lookup_mode(env);
}

/// Law: the bare `import.meta.env` rewrites to an object literal whose
/// properties are exactly the meta map's entries, in the meta map's order.
pub proof fn lemma_bare_meta_env_object(env: SpecEnv, meta: SpecEnv)
    ensures
        subst_expr(import_meta_env(), env, meta) is Object,
        subst_expr(import_meta_env(), env, meta)->Object_props.len() == meta.len(),
        forall|i: int|
            0 <= i < meta.len() ==> subst_expr(import_meta_env(), env, meta)->Object_props[i]
                == (SpecObjProp { key: meta[i].0, value: meta[i].1 }),
{
}

// ---------------------------------------------------------------------------
// Executable pass.
// ---------------------------------------------------------------------------

/// Compares two string slices by contents.
pub fn str_eq(a: &str, b: &str) -> (r: bool)
    ensures
        r == (a@ == b@),
{
    let sa = a.to_owned();
    let sb = b.to_owned();
    sa == sb
}

proof fn lemma_lookup_miss(env: SpecEnv, k: Seq<char>, i: int)
    requires
        0 <= i < env.len(),
        env[i].0 != k,
    ensures
        env_lookup(env.skip(i), k) == env_lookup(env.skip(i + 1), k),
{
    assert(env.skip(i)[0] == env[i]);
    assert(env.skip(i).drop_first() =~= env.skip(i + 1));
}

proof fn lemma_lookup_hit(env: SpecEnv, k: Seq<char>, i: int)
    requires
        0 <= i < env.len(),
        env[i].0 == k,
    ensures
        env_lookup(env.skip(i), k) == Some(env[i].1),
{
    assert(env.skip(i)[0] == env[i]);
}

/// Looks a name up in an environment map, front to back, cloning the entry.
fn lookup_env(envs: &Vec<(String, Expr)>, k: &String) -> (r: Option<Expr>)
    ensures
        view_opt_expr(r) == env_lookup(env_of(envs@), k@),
{
    proof {
        assert(env_of(envs@).skip(0) =~= env_of(envs@));
    }
    let ghost env = env_of(envs@);
    let mut i: usize = 0;
    while i < envs.len()
        invariant
            i <= envs.len(),
            env == env_of(envs@),
            env.len() == envs@.len(),
            env_lookup(env, k@) == env_lookup(env.skip(i as int), k@),
        decreases envs.len() - i,
    {
        proof {
            assert(env[i as int] == (envs@[i as int].0@, view_expr(envs@[i as int].1)));
        }
        if envs[i].0.eq(k) {
            proof {
                lemma_lookup_hit(env, k@, i as int);
            }
            return Some(clone_expr(&envs[i].1));
        }
        proof {
            lemma_lookup_miss(env, k@, i as int);
        }
        i = i + 1;
    }
    proof {
        assert(env.skip(envs@.len() as int).len() == 0);
    }
    None
}

fn undefined_expr() -> (r: Expr)
    ensures
        r@ == undefined_ident(),
{
    Expr::Ident(Ident { sym: "undefined".to_owned(), tag: FREE_TAG })
}

pub struct EnvReplacer {
    envs: Vec<(String, Expr)>,
    meta_envs: Vec<(String, Expr)>,
}

impl EnvReplacer {
    /// The environment map this pass substitutes from.
    pub closed spec fn env(self) -> SpecEnv {
        env_of(self.envs@)
    }

    /// The derived meta map, served to the `import.meta.env` access forms.
    pub closed spec fn meta(self) -> SpecEnv {
        env_of(self.meta_envs@)
    }

    pub fn new(envs: Vec<(String, Expr)>) -> (r: Self)
        ensures
            r.env() == env_of(envs@),
            r.meta() == meta_of(env_of(envs@)),
    {
        let mut meta_envs: Vec<(String, Expr)> = Vec::new();
        let mut i: usize = 0;
        while i < envs.len()
            invariant
                i <= envs.len(),
                meta_envs@.len() == i,
                env_of(meta_envs@) =~= meta_of(env_of(envs@)).take(i as int),
            decreases envs.len() - i,
        {
            let k = &envs[i].0;
            let key: String = if str_eq(k.as_str(), "NODE_ENV") {
                "MODE".to_owned()
            } else {
                k.clone()
            };
            let v = clone_expr(&envs[i].1);
            proof {
                let goal = meta_of(env_of(envs@));
                assert(v@ == view_expr(envs@[i as int].1));
                assert(env_of(envs@)[i as int] == (envs@[i as int].0@, view_expr(
                    envs@[i as int].1,
                )));
                assert(goal[i as int] == (
                    if envs@[i as int].0@ == "NODE_ENV"@ {
                        ("MODE"@, view_expr(envs@[i as int].1))
                    } else {
                        (envs@[i as int].0@, view_expr(envs@[i as int].1))
                    }
                ));
                assert(key@ == goal[i as int].0);
                assert(v@ == goal[i as int].1);
            }
            let ghost old_meta = meta_envs@;
            meta_envs.push((key, v));
            proof {
                let goal = meta_of(env_of(envs@));
                assert(old_meta.len() == i);
                assert(meta_envs@ == old_meta.push(meta_envs@[i as int]));
                assert(meta_envs@[i as int].0@ == goal[i as int].0);
                assert(meta_envs@[i as int].1@ == goal[i as int].1);
                assert(env_of(meta_envs@)[i as int] == goal[i as int]);
                assert forall|j: int| 0 <= j < i + 1 implies env_of(meta_envs@)[j] == goal.take(
                    i as int + 1,
                )[j] by {
                    if j < i {
                        assert(env_of(meta_envs@)[j] == goal.take(i as int)[j]);
                    }
                }
                assert(env_of(meta_envs@) =~= goal.take(i as int + 1));
            }
            i = i + 1;
        }
        proof {
            assert(meta_of(env_of(envs@)).take(envs@.len() as int) =~= meta_of(env_of(envs@)));
        }
        EnvReplacer { envs, meta_envs }
    }

    /// Classifies the object of a member access, as `env_base` does.
    fn env_base_of(&self, obj: &Expr) -> (r: Option<bool>)
        ensures
            r == env_base(obj@),
    {
        proof {
            reveal_with_fuel(view_expr, 3);
        }
        match obj {
            Expr::Member { obj: inner, prop: MemberProp::Ident(p) } => {
                if str_eq(p.as_str(), "env") {
                    match &**inner {
                        Expr::Ident(id) => {
                            if str_eq(id.sym.as_str(), "process") && id.tag == FREE_TAG {
                                Some(true)
                            } else {
                                None
                            }
                        },
                        Expr::ImportMeta => Some(false),
                        _ => None,
                    }
                } else {
                    None
                }
            },
            _ => None,
        }
    }

    fn prop_key_of(&self, prop: &MemberProp) -> (r: Option<String>)
        ensures
            view_opt_str(r) == prop_key(view_member_prop(*prop)),
    {
        match prop {
            MemberProp::Ident(s) => Some(s.clone()),
            MemberProp::Computed(e) => match &**e {
                Expr::Lit(Lit::Str(s)) => Some(s.clone()),
                _ => None,
            },
        }
    }

    /// Builds the object literal that replaces a bare `import.meta.env`.
    fn meta_object_expr(&self) -> (r: Expr)
        ensures
            r@ == meta_object(self.meta()),
    {
        let mut props: Vec<ObjProp> = Vec::new();
        let mut i: usize = 0;
        while i < self.meta_envs.len()
            invariant
                i <= self.meta_envs.len(),
                props@.len() == i,
                forall|j: int|
                    0 <= j < i ==> props@[j].key@ == self.meta_envs@[j].0@ && props@[j].value@
                        == self.meta_envs@[j].1@,
            decreases self.meta_envs.len() - i,
        {
            let p = &self.meta_envs[i];
            props.push(ObjProp { key: p.0.clone(), value: clone_expr(&p.1) });
            i = i + 1;
        }
        let r = Expr::Object { props };
        proof {
            broadcast use lemma_view_props;

            match r {
                Expr::Object { props: ref p2 } => {
                    assert(view_props(p2@) =~= self.meta().map_values(
                        |p: (Seq<char>, SpecExpr)| SpecObjProp { key: p.0, value: p.1 },
                    ));
                },
                _ => {},
            }
        }
        r
    }

    #[verifier::loop_isolation(false)]
    fn replace_expr(&self, e: &Expr) -> (r: Expr)
        ensures
            r@ == subst_expr(e@, self.env(), self.meta()),
        decreases *e,
    {
        match e {
            Expr::Ident(id) => {
                if id.tag == FREE_TAG {
                    match lookup_env(&self.envs, &id.sym) {
                        Some(v) => v,
                        None => Expr::Ident(clone_ident(id)),
                    }
                } else {
                    Expr::Ident(clone_ident(id))
                }
            },
            Expr::Member { obj, prop } => {
                match self.env_base_of(obj) {
                    Some(is_node) => {
                        match self.prop_key_of(prop) {
                            Some(k) => {
                                let hit = if is_node {
                                    lookup_env(&self.envs, &k)
                                } else {
                                    lookup_env(&self.meta_envs, &k)
                                };
                                match hit {
                                    Some(v) => v,
                                    None => undefined_expr(),
                                }
                            },
                            None => Expr::Member {
                                obj: Box::new(self.replace_expr(obj)),
                                prop: self.replace_member_prop(prop),
                            },
                        }
                    },
                    None => {
                        let bare = match prop {
                            MemberProp::Ident(p) => {
                                let is_meta = match &**obj {
                                    Expr::ImportMeta => true,
                                    _ => false,
                                };
                                is_meta && str_eq(p.as_str(), "env")
                            },
                            _ => false,
                        };
                        if bare {
                            self.meta_object_expr()
                        } else {
                            Expr::Member {
                                obj: Box::new(self.replace_expr(obj)),
                                prop: self.replace_member_prop(prop),
                            }
                        }
                    },
                }
            },
            Expr::Lit(l) => Expr::Lit(clone_lit(l)),
            Expr::ImportMeta => Expr::ImportMeta,
            Expr::Call { callee, args } => {
                proof {
                    assert(decreases_to!(*e => e->Call_args));
                    assert(decreases_to!(*args => args@));
                }
                let r = Expr::Call {
                    callee: Box::new(self.replace_expr(callee)),
                    args: self.replace_exprs(args),
                };
                proof {
                    broadcast use lemma_view_exprs, lemma_subst_exprs;

                    match r {
                        Expr::Call { callee: _, args: ref a2 } => {
                            assert(view_exprs(a2@) =~= subst_exprs(
                                view_exprs(args@),
                                self.env(),
                                self.meta(),
                            ));
                        },
                        _ => {},
                    }
                }
                r
            },
            Expr::Bin { op, left, right } => Expr::Bin {
                op: match op {
                    BinOp::StrictEq => BinOp::StrictEq,
                },
                left: Box::new(self.replace_expr(left)),
                right: Box::new(self.replace_expr(right)),
            },
            Expr::Array { elems } => {
                proof {
                    assert(decreases_to!(*e => e->Array_elems));
                    assert(decreases_to!(*elems => elems@));
                }
                let r = Expr::Array { elems: self.replace_exprs(elems) };
                proof {
                    broadcast use lemma_view_exprs, lemma_subst_exprs;

                    match r {
                        Expr::Array { elems: ref e2 } => {
                            assert(view_exprs(e2@) =~= subst_exprs(
                                view_exprs(elems@),
                                self.env(),
                                self.meta(),
                            ));
                        },
                        _ => {},
                    }
                }
                r
            },
            Expr::Object { props } => {
                proof {
                    assert(decreases_to!(*e => e->Object_props));
                    assert(decreases_to!(*props => props@));
                }
                let r = Expr::Object { props: self.replace_props(props) };
                proof {
                    broadcast use lemma_view_props, lemma_subst_props;

                    match r {
                        Expr::Object { props: ref p2 } => {
                            assert(view_props(p2@) =~= subst_props(
                                view_props(props@),
                                self.env(),
                                self.meta(),
                            ));
                        },
                        _ => {},
                    }
                }
                r
            },
        }
    }

    fn replace_member_prop(&self, p: &MemberProp) -> (r: MemberProp)
        ensures
            view_member_prop(r) == subst_member_prop(
                view_member_prop(*p),
                self.env(),
                self.meta(),
            ),
        decreases *p,
    {
        match p {
            MemberProp::Ident(s) => MemberProp::Ident(s.clone()),
            MemberProp::Computed(e) => MemberProp::Computed(Box::new(self.replace_expr(e))),
        }
    }

    #[verifier::loop_isolation(false)]
    fn replace_exprs(&self, es: &Vec<Expr>) -> (r: Vec<Expr>)
        ensures
            r@.len() == es@.len(),
            forall|i: int|
                0 <= i < es@.len() ==> r@[i]@ == subst_expr(es@[i]@, self.env(), self.meta()),
        decreases es@,
    {
        let mut r: Vec<Expr> = Vec::new();
        let mut i: usize = 0;
        while i < es.len()
            invariant
                i <= es.len(),
                r@.len() == i,
                forall|j: int|
                    0 <= j < i ==> r@[j]@ == subst_expr(es@[j]@, self.env(), self.meta()),
            decreases es.len() - i,
        {
            proof {
                assert(decreases_to!(es@ => es@[i as int]));
            }
            r.push(self.replace_expr(&es[i]));
            i = i + 1;
        }
        r
    }

    #[verifier::loop_isolation(false)]
    fn replace_props(&self, ps: &Vec<ObjProp>) -> (r: Vec<ObjProp>)
        ensures
            r@.len() == ps@.len(),
            forall|i: int|
                0 <= i < ps@.len() ==> r@[i].key@ == ps@[i].key@ && r@[i].value@ == subst_expr(
                    ps@[i].value@,
                    self.env(),
                    self.meta(),
                ),
        decreases ps@,
    {
        let mut r: Vec<ObjProp> = Vec::new();
        let mut i: usize = 0;
        while i < ps.len()
            invariant
                i <= ps.len(),
                r@.len() == i,
                forall|j: int|
                    0 <= j < i ==> r@[j].key@ == ps@[j].key@ && r@[j].value@ == subst_expr(
                        ps@[j].value@,
                        self.env(),
                        self.meta(),
                    ),
            decreases ps.len() - i,
        {
            proof {
                assert(decreases_to!(ps@ => ps@[i as int]));
                assert(decreases_to!(ps@[i as int] => ps@[i as int].value));
            }
            let p = &ps[i];
            r.push(ObjProp { key: p.key.clone(), value: self.replace_expr(&p.value) });
            i = i + 1;
        }
        r
    }

    fn replace_stmt(&self, s: &Stmt) -> (r: Stmt)
        ensures
            r@ == subst_stmt(s@, self.env(), self.meta()),
        decreases *s,
    {
        match s {
            Stmt::Decl { kind, name, init } => Stmt::Decl {
                kind: clone_var_kind(kind),
                name: clone_ident(name),
                init: match init {
                    Some(e) => Some(self.replace_expr(e)),
                    None => None,
                },
            },
            Stmt::Expr { expr } => Stmt::Expr { expr: self.replace_expr(expr) },
            Stmt::If { cond, cons } => {
                proof {
                    assert(decreases_to!(*s => s->If_cons));
                    assert(decreases_to!(*cons => cons@));
                }
                let r = Stmt::If { cond: self.replace_expr(cond), cons: self.replace_stmts(cons) };
                proof {
                    broadcast use lemma_view_stmts, lemma_subst_stmts;

                    match r {
                        Stmt::If { cond: _, cons: ref c2 } => {
                            assert(view_stmts(c2@) =~= subst_stmts(
                                view_stmts(cons@),
                                self.env(),
                                self.meta(),
                            ));
                        },
                        _ => {},
                    }
                }
                r
            },
            Stmt::Empty => Stmt::Empty,
        }
    }

    #[verifier::loop_isolation(false)]
    fn replace_stmts(&self, ss: &Vec<Stmt>) -> (r: Vec<Stmt>)
        ensures
            r@.len() == ss@.len(),
            forall|i: int|
                0 <= i < ss@.len() ==> r@[i]@ == subst_stmt(ss@[i]@, self.env(), self.meta()),
        decreases ss@,
    {
        let mut r: Vec<Stmt> = Vec::new();
        let mut i: usize = 0;
        while i < ss.len()
            invariant
                i <= ss.len(),
                r@.len() == i,
                forall|j: int|
                    0 <= j < i ==> r@[j]@ == subst_stmt(ss@[j]@, self.env(), self.meta()),
            decreases ss.len() - i,
        {
            proof {
                assert(decreases_to!(ss@ => ss@[i as int]));
            }
            r.push(self.replace_stmt(&ss[i]));
            i = i + 1;
        }
        r
    }

    fn replace_item(&self, it: &ModuleItem) -> (r: ModuleItem)
        ensures
            r@ == subst_item(it@, self.env(), self.meta()),
    {
        match it {
            ModuleItem::Stmt(s) => ModuleItem::Stmt(self.replace_stmt(s)),
            _ => clone_item(it),
        }
    }

    /// Rewrites one module, leaving the input untouched.
    #[verifier::loop_isolation(false)]
    pub fn replace_module(&self, m: &JsModule) -> (r: JsModule)
        ensures
            r@ == subst_module(m@, self.env(), self.meta()),
    {
        let mut body: Vec<ModuleItem> = Vec::new();
        let mut i: usize = 0;
        while i < m.body.len()
            invariant
                i <= m.body.len(),
                body@.len() == i,
                forall|j: int|
                    0 <= j < i ==> body@[j]@ == subst_item(m.body@[j]@, self.env(), self.meta()),
            decreases m.body.len() - i,
        {
            body.push(self.replace_item(&m.body[i]));
            i = i + 1;
        }
        let r = JsModule { body };
        proof {
            assert(view_items(r.body@) =~= subst_module(m@, self.env(), self.meta()).body);
        }
        r
    }
}

} // verus!
