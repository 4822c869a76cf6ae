use vstd::prelude::*;

use crate::ast::{
    clone_item, clone_opt_str, lemma_view_exprs, view_expr, view_exprs, view_ident, view_items,
    view_opt_str, Expr, Ident, ImportSpec, JsModule, Lit, MemberProp, ModuleItem, ObjProp,
    SpecExpr, SpecIdent, SpecImportSpec, SpecJsModule, SpecLit, SpecMemberProp, SpecModuleItem,
    SpecStmt, Stmt, VarKind,
};
use crate::config::{ConfigError, SpecConfigError};
use crate::env_replacer::str_eq;
use crate::FREE_TAG;

verus! {

broadcast use vstd::std_specs::vec::group_vec_axioms;

// ---------------------------------------------------------------------------
// The dependency injection pass scans a module for free references to a
// configured set of watched names and, for each watched name actually used,
// prepends one synthetic import or require statement. Each watched name is
// consumed on its first free use, so it triggers at most one injection; the
// exported alias of `export { orig as alias }` is never checked. The
// statement form follows the module's format: a module without any
// import/export declaration is CJS and gets a `require`-based variable
// declaration, an ESM module gets an import declaration, and a rule asking
// `prefer_require` always gets the `require` form.
// ---------------------------------------------------------------------------

/// One auto-provided global: the watched local name, where to pull it from,
/// and which export to select (a named export, the namespace, or, with
/// neither, the default export).
pub struct Inject {
    pub from: String,
    pub name: String,
    pub named: Option<String>,
    pub namespace: Option<bool>,
    pub exclude: Option<String>,
    pub prefer_require: bool,
}

#[verifier::ext_equal]
pub struct SpecInject {
    pub from: Seq<char>,
    pub name: Seq<char>,
    pub named: Option<Seq<char>>,
    pub namespace: Option<bool>,
    pub exclude: Option<Seq<char>>,
    pub prefer_require: bool,
}

pub open spec fn view_inject(i: Inject) -> SpecInject {
    SpecInject {
        from: i.from@,
        name: i.name@,
        named: view_opt_str(i.named),
        namespace: i.namespace,
        exclude: view_opt_str(i.exclude),
        prefer_require: i.prefer_require,
    }
}

impl View for Inject {
    type V = SpecInject;

    open spec fn view(&self) -> SpecInject {
        view_inject(*self)
    }
}

pub fn clone_inject(i: &Inject) -> (r: Inject)
    ensures
        r@ == i@,
{
    Inject {
        from: i.from.clone(),
        name: i.name.clone(),
        named: clone_opt_str(&i.named),
        namespace: match i.namespace {
            Some(b) => Some(b),
            None => None,
        },
        exclude: clone_opt_str(&i.exclude),
        prefer_require: i.prefer_require,
    }
}

/// A rule may select a named export or the namespace, never both.
pub open spec fn inject_valid(sp: SpecInject) -> bool {
    !(sp.named is Some && sp.namespace == Some(true))
}

/// The watch map: watched names paired with their rules, looked up front to
/// back.
pub type SpecWatch = Seq<(Seq<char>, SpecInject)>;

/// The ordered set of injections collected from a walk: for each consumed
/// watched name, the name, its rule, and the scope tag of the triggering
/// use.
pub type SpecPending = Seq<(Seq<char>, SpecInject, u32)>;

pub open spec fn watch_of(v: Seq<(String, Inject)>) -> SpecWatch {
    v.map_values(|p: (String, Inject)| (p.0@, view_inject(p.1)))
}

pub open spec fn pend_of(v: Seq<(String, Inject, u32)>) -> SpecPending {
    v.map_values(|p: (String, Inject, u32)| (p.0@, view_inject(p.1), p.2))
}

pub open spec fn watch_lookup(w: SpecWatch, name: Seq<char>) -> Option<SpecInject>
    decreases w.len(),
{
    if w.len() == 0 {
        None
    } else if w[0].0 == name {
        Some(w[0].1)
    } else {
        watch_lookup(w.drop_first(), name)
    }
}

pub open spec fn all_valid(w: SpecWatch) -> bool {
    forall|i: int| 0 <= i < w.len() ==> inject_valid(w[i].1)
}

/// Has this watched name already been consumed?
pub open spec fn pending_has(p: SpecPending, name: Seq<char>) -> bool {
    exists|i: int| 0 <= i < p.len() && p[i].0 == name
}

/// One identifier occurrence: a free use of a still-pending watched name
/// consumes the name and records the injection; anything else changes
/// nothing.
pub open spec fn collect_ident(id: SpecIdent, w: SpecWatch, p: SpecPending) -> SpecPending {
    if id.tag == FREE_TAG && !pending_has(p, id.sym) {
        match watch_lookup(w, id.sym) {
            Some(sp) => p.push((id.sym, sp, id.tag)),
            None => p,
        }
    } else {
        p
    }
}

pub open spec fn collect_expr(e: SpecExpr, w: SpecWatch, p: SpecPending) -> SpecPending
    decreases e,
{
    match e {
        SpecExpr::Ident(id) => collect_ident(id, w, p),
        SpecExpr::Lit(_) => p,
        SpecExpr::ImportMeta => p,
        SpecExpr::Member { obj, prop } => collect_member_prop(
            prop,
            w,
            collect_expr(*obj, w, p),
        ),
        SpecExpr::Call { callee, args } => collect_exprs(args, w, collect_expr(*callee, w, p)),
        SpecExpr::Bin { op: _, left, right } => collect_expr(
            *right,
            w,
            collect_expr(*left, w, p),
        ),
        SpecExpr::Array { elems } => collect_exprs(elems, w, p),
        SpecExpr::Object { props } => collect_props(props, w, p),
    }
}

/// A member property name is no identifier occurrence; only a computed
/// property holds an expression to walk.
pub open spec fn collect_member_prop(
    mp: SpecMemberProp,
    w: SpecWatch,
    p: SpecPending,
) -> SpecPending
    decreases mp,
{
    match mp {
        SpecMemberProp::Ident(_) => p,
        SpecMemberProp::Computed(e) => collect_expr(*e, w, p),
    }
}

pub open spec fn collect_exprs(es: Seq<SpecExpr>, w: SpecWatch, p: SpecPending) -> SpecPending
    decreases es,
{
    if es.len() == 0 {
        p
    } else {
        collect_expr(es.last(), w, collect_exprs(es.drop_last(), w, p))
    }
}

pub open spec fn collect_props(
    ps: Seq<crate::ast::SpecObjProp>,
    w: SpecWatch,
    p: SpecPending,
) -> SpecPending
    decreases ps,
{
    if ps.len() == 0 {
        p
    } else {
        collect_expr(ps.last().value, w, collect_props(ps.drop_last(), w, p))
    }
}

pub open spec fn collect_stmt(s: SpecStmt, w: SpecWatch, p: SpecPending) -> SpecPending
    decreases s,
{
    match s {
        SpecStmt::Decl { kind: _, name, init } => {
            let p1 = collect_ident(name, w, p);
            match init {
                Some(e) => collect_expr(e, w, p1),
                None => p1,
            }
        },
        SpecStmt::Expr { expr } => collect_expr(expr, w, p),
        SpecStmt::If { cond, cons } => collect_stmts(cons, w, collect_expr(cond, w, p)),
        SpecStmt::Empty => p,
    }
}

pub open spec fn collect_stmts(ss: Seq<SpecStmt>, w: SpecWatch, p: SpecPending) -> SpecPending
    decreases ss,
{
    if ss.len() == 0 {
        p
    } else {
        collect_stmt(ss.last(), w, collect_stmts(ss.drop_last(), w, p))
    }
}

pub open spec fn collect_import_specs(
    ss: Seq<SpecImportSpec>,
    w: SpecWatch,
    p: SpecPending,
) -> SpecPending
    decreases ss,
{
    if ss.len() == 0 {
        p
    } else {
        let local = match ss.last() {
            SpecImportSpec::Default { local } => local,
            SpecImportSpec::Named { local, imported: _ } => local,
            SpecImportSpec::Star { local } => local,
        };
        collect_ident(local, w, collect_import_specs(ss.drop_last(), w, p))
    }
}

/// Export specifiers contribute only their original local name; the
/// exported alias is never checked against the watch map.
pub open spec fn collect_export_specs(
    ss: Seq<crate::ast::SpecExportSpec>,
    w: SpecWatch,
    p: SpecPending,
) -> SpecPending
    decreases ss,
{
    if ss.len() == 0 {
        p
    } else {
        collect_ident(ss.last().orig, w, collect_export_specs(ss.drop_last(), w, p))
    }
}

pub open spec fn collect_item(it: SpecModuleItem, w: SpecWatch, p: SpecPending) -> SpecPending {
    match it {
        SpecModuleItem::Import { specifiers, src: _ } => collect_import_specs(specifiers, w, p),
        SpecModuleItem::NamedExport { specifiers, src: _ } => collect_export_specs(
            specifiers,
            w,
            p,
        ),
        SpecModuleItem::Stmt(s) => collect_stmt(s, w, p),
    }
}

pub open spec fn collect_items(its: Seq<SpecModuleItem>, w: SpecWatch, p: SpecPending) -> SpecPending
    decreases its,
{
    if its.len() == 0 {
        p
    } else {
        collect_item(its.last(), w, collect_items(its.drop_last(), w, p))
    }
}

pub open spec fn collect_module(m: SpecJsModule, w: SpecWatch) -> SpecPending {
    collect_items(m.body, w, Seq::empty())
}

/// A module whose top level holds any import or export declaration is ESM;
/// otherwise it is CJS.
pub open spec fn has_module_decl(items: Seq<SpecModuleItem>) -> bool {
    exists|i: int| 0 <= i < items.len() && !(items[i] is Stmt)
}

// ---------------------------------------------------------------------------
// Where a watched name can occur freely. These predicates count exactly the
// identifier occurrences the walk checks; in particular, the exported alias
// of `export { orig as alias }` is not such an occurrence.
// ---------------------------------------------------------------------------

pub open spec fn free_use(id: SpecIdent, name: Seq<char>) -> bool {
    id.tag == FREE_TAG && id.sym == name
}

pub open spec fn mentions_free_expr(e: SpecExpr, name: Seq<char>) -> bool
    decreases e,
{
    match e {
        SpecExpr::Ident(id) => free_use(id, name),
        SpecExpr::Lit(_) => false,
        SpecExpr::ImportMeta => false,
        SpecExpr::Member { obj, prop } => mentions_free_expr(*obj, name)
            || mentions_free_member_prop(prop, name),
        SpecExpr::Call { callee, args } => mentions_free_expr(*callee, name)
            || mentions_free_exprs(args, name),
        SpecExpr::Bin { op: _, left, right } => mentions_free_expr(*left, name)
            || mentions_free_expr(*right, name),
        SpecExpr::Array { elems } => mentions_free_exprs(elems, name),
        SpecExpr::Object { props } => mentions_free_props(props, name),
    }
}

pub open spec fn mentions_free_member_prop(mp: SpecMemberProp, name: Seq<char>) -> bool
    decreases mp,
{
    match mp {
        SpecMemberProp::Ident(_) => false,
        SpecMemberProp::Computed(e) => mentions_free_expr(*e, name),
    }
}

pub open spec fn mentions_free_exprs(es: Seq<SpecExpr>, name: Seq<char>) -> bool
    decreases es,
{
    es.len() > 0 && (mentions_free_exprs(es.drop_last(), name) || mentions_free_expr(
        es.last(),
        name,
    ))
}

pub open spec fn mentions_free_props(ps: Seq<crate::ast::SpecObjProp>, name: Seq<char>) -> bool
    decreases ps,
{
    ps.len() > 0 && (mentions_free_props(ps.drop_last(), name) || mentions_free_expr(
        ps.last().value,
        name,
    ))
}

pub open spec fn mentions_free_stmt(s: SpecStmt, name: Seq<char>) -> bool
    decreases s,
{
    match s {
        SpecStmt::Decl { kind: _, name: n, init } => free_use(n, name) || (match init {
            Some(e) => mentions_free_expr(e, name),
            None => false,
        }),
        SpecStmt::Expr { expr } => mentions_free_expr(expr, name),
        SpecStmt::If { cond, cons } => mentions_free_expr(cond, name) || mentions_free_stmts(
            cons,
            name,
        ),
        SpecStmt::Empty => false,
    }
}

pub open spec fn mentions_free_stmts(ss: Seq<SpecStmt>, name: Seq<char>) -> bool
    decreases ss,
{
    ss.len() > 0 && (mentions_free_stmts(ss.drop_last(), name) || mentions_free_stmt(
        ss.last(),
        name,
    ))
}

pub open spec fn mentions_free_import_specs(ss: Seq<SpecImportSpec>, name: Seq<char>) -> bool
    decreases ss,
{
    ss.len() > 0 && {
        let local = match ss.last() {
            SpecImportSpec::Default { local } => local,
            SpecImportSpec::Named { local, imported: _ } => local,
            SpecImportSpec::Star { local } => local,
        };
        mentions_free_import_specs(ss.drop_last(), name) || free_use(local, name)
    }
}

pub open spec fn mentions_free_export_specs(
    ss: Seq<crate::ast::SpecExportSpec>,
    name: Seq<char>,
) -> bool
    decreases ss,
{
    ss.len() > 0 && (mentions_free_export_specs(ss.drop_last(), name) || free_use(
        ss.last().orig,
        name,
    ))
}

pub open spec fn mentions_free_item(it: SpecModuleItem, name: Seq<char>) -> bool {
    match it {
        SpecModuleItem::Import { specifiers, src: _ } => mentions_free_import_specs(
            specifiers,
            name,
        ),
        SpecModuleItem::NamedExport { specifiers, src: _ } => mentions_free_export_specs(
            specifiers,
            name,
        ),
        SpecModuleItem::Stmt(s) => mentions_free_stmt(s, name),
    }
}

pub open spec fn mentions_free_items(its: Seq<SpecModuleItem>, name: Seq<char>) -> bool
    decreases its,
{
    its.len() > 0 && (mentions_free_items(its.drop_last(), name) || mentions_free_item(
        its.last(),
        name,
    ))
}

pub open spec fn mentions_free_module(m: SpecJsModule, name: Seq<char>) -> bool {
    mentions_free_items(m.body, name)
}

// ---------------------------------------------------------------------------
// What one walk does to the pending set: it appends, each appended entry is
// a free use of a watched name, a consumed name is never taken twice, and a
// free use of a watched name always leaves its entry behind.
// ---------------------------------------------------------------------------

/// The facts the walk guarantees about a collection result, relative to the
/// pending set it started from.
pub open spec fn collect_step_ok(
    x_mentions: spec_fn(Seq<char>) -> bool,
    w: SpecWatch,
    p: SpecPending,
    r: SpecPending,
) -> bool {
    &&& r.len() >= p.len()
    &&& (forall|q: int| 0 <= q < p.len() ==> r[q] == p[q])
    &&& (forall|q: int|
        p.len() <= q < r.len() ==> x_mentions(#[trigger] r[q].0) && watch_lookup(w, r[q].0)
            == Some(r[q].1))
    &&& (pending_nodup(p) ==> pending_nodup(r))
    &&& (forall|name: Seq<char>|
        #[trigger] x_mentions(name) && watch_lookup(w, name) is Some ==> pending_has(r, name))
}

pub open spec fn pending_nodup(p: SpecPending) -> bool {
    forall|i: int, j: int| 0 <= i < j < p.len() ==> p[i].0 != p[j].0
}

proof fn lemma_collect_ident_facts(id: SpecIdent, w: SpecWatch, p: SpecPending)
    ensures
        collect_step_ok(
            |name: Seq<char>| free_use(id, name),
            w,
            p,
            collect_ident(id, w, p),
        ),
{
    let r = collect_ident(id, w, p);
    if id.tag == FREE_TAG && !pending_has(p, id.sym) && watch_lookup(w, id.sym) is Some {
        assert(r[p.len() as int] == (id.sym, watch_lookup(w, id.sym)->Some_0, id.tag));
        assert(pending_has(r, id.sym)) by {
            assert(r[p.len() as int].0 == id.sym);
        }
        assert(pending_nodup(p) ==> pending_nodup(r)) by {
            if pending_nodup(p) {
                assert forall|i: int, j: int| 0 <= i < j < r.len() implies r[i].0 != r[j].0 by {
                    if j == p.len() as int {
                        assert(!pending_has(p, id.sym));
                        assert(r[i] == p[i]);
                    }
                }
            }
        }
    } else {
        assert(r == p);
        if id.tag == FREE_TAG && pending_has(p, id.sym) {
            assert(pending_has(r, id.sym));
        }
    }
}

/// Chains two steps of the walk.
proof fn lemma_collect_chain(
    m1: spec_fn(Seq<char>) -> bool,
    m2: spec_fn(Seq<char>) -> bool,
    m: spec_fn(Seq<char>) -> bool,
    w: SpecWatch,
    p: SpecPending,
    r1: SpecPending,
    r2: SpecPending,
)
    requires
        collect_step_ok(m1, w, p, r1),
        collect_step_ok(m2, w, r1, r2),
        forall|name: Seq<char>| #[trigger] m(name) == (m1(name) || m2(name)),
    ensures
        collect_step_ok(m, w, p, r2),
{
    assert forall|q: int|
        p.len() <= q < r2.len() implies m(#[trigger] r2[q].0) && watch_lookup(w, r2[q].0)
        == Some(r2[q].1) by {
        if q < r1.len() {
            assert(m1(r1[q].0));
            assert(r2[q] == r1[q]);
        } else {
            assert(m2(r2[q].0));
        }
        assert(m(r2[q].0));
    }
    assert forall|name: Seq<char>|
        #[trigger] m(name) && watch_lookup(w, name) is Some implies pending_has(r2, name) by {
        if m1(name) {
            assert(pending_has(r1, name));
            let i = choose|i: int| 0 <= i < r1.len() && r1[i].0 == name;
            assert(r2[i].0 == name);
        } else {
            assert(m2(name));
        }
    }
}

pub open spec fn pending_all_valid(p: SpecPending) -> bool {
    forall|i: int| 0 <= i < p.len() ==> inject_valid(p[i].1)
}

proof fn lemma_lookup_valid(w: SpecWatch, name: Seq<char>)
    requires
        all_valid(w),
    ensures
        match watch_lookup(w, name) {
            Some(sp) => inject_valid(sp),
            None => true,
        },
    decreases w.len(),
{
    if w.len() > 0 && w[0].0 != name {
        assert(all_valid(w.drop_first())) by {
            assert(forall|i: int|
                0 <= i < w.drop_first().len() ==> w.drop_first()[i] == w[i + 1]);
        }
        lemma_lookup_valid(w.drop_first(), name);
    }
}

proof fn lemma_collect_ident_valid(id: SpecIdent, w: SpecWatch, p: SpecPending)
    requires
        all_valid(w),
        pending_all_valid(p),
    ensures
        pending_all_valid(collect_ident(id, w, p)),
{
    lemma_lookup_valid(w, id.sym);
}

proof fn lemma_collect_expr_valid(e: SpecExpr, w: SpecWatch, p: SpecPending)
    requires
        all_valid(w),
        pending_all_valid(p),
    ensures
        pending_all_valid(collect_expr(e, w, p)),
    decreases e,
{
    match e {
        SpecExpr::Ident(id) => lemma_collect_ident_valid(id, w, p),
        SpecExpr::Lit(_) => {},
        SpecExpr::ImportMeta => {},
        SpecExpr::Member { obj, prop } => {
            lemma_collect_expr_valid(*obj, w, p);
            lemma_collect_member_prop_valid(prop, w, collect_expr(*obj, w, p));
        },
        SpecExpr::Call { callee, args } => {
            lemma_collect_expr_valid(*callee, w, p);
            lemma_collect_exprs_valid(args, w, collect_expr(*callee, w, p));
        },
        SpecExpr::Bin { op: _, left, right } => {
            lemma_collect_expr_valid(*left, w, p);
            lemma_collect_expr_valid(*right, w, collect_expr(*left, w, p));
        },
        SpecExpr::Array { elems } => lemma_collect_exprs_valid(elems, w, p),
        SpecExpr::Object { props } => lemma_collect_props_valid(props, w, p),
    }
}

proof fn lemma_collect_member_prop_valid(mp: SpecMemberProp, w: SpecWatch, p: SpecPending)
    requires
        all_valid(w),
        pending_all_valid(p),
    ensures
        pending_all_valid(collect_member_prop(mp, w, p)),
    decreases mp,
{
    match mp {
        SpecMemberProp::Ident(_) => {},
        SpecMemberProp::Computed(e) => lemma_collect_expr_valid(*e, w, p),
    }
}

proof fn lemma_collect_exprs_valid(es: Seq<SpecExpr>, w: SpecWatch, p: SpecPending)
    requires
        all_valid(w),
        pending_all_valid(p),
    ensures
        pending_all_valid(collect_exprs(es, w, p)),
    decreases es,
{
    if es.len() > 0 {
        lemma_collect_exprs_valid(es.drop_last(), w, p);
        lemma_collect_expr_valid(es.last(), w, collect_exprs(es.drop_last(), w, p));
    }
}

proof fn lemma_collect_props_valid(ps: Seq<crate::ast::SpecObjProp>, w: SpecWatch, p: SpecPending)
    requires
        all_valid(w),
        pending_all_valid(p),
    ensures
        pending_all_valid(collect_props(ps, w, p)),
    decreases ps,
{
    if ps.len() > 0 {
        lemma_collect_props_valid(ps.drop_last(), w, p);
        lemma_collect_expr_valid(ps.last().value, w, collect_props(ps.drop_last(), w, p));
    }
}

proof fn lemma_collect_stmt_valid(s: SpecStmt, w: SpecWatch, p: SpecPending)
    requires
        all_valid(w),
        pending_all_valid(p),
    ensures
        pending_all_valid(collect_stmt(s, w, p)),
    decreases s,
{
    match s {
        SpecStmt::Decl { kind: _, name, init } => {
            lemma_collect_ident_valid(name, w, p);
            match init {
                Some(e) => lemma_collect_expr_valid(e, w, collect_ident(name, w, p)),
                None => {},
            }
        },
        SpecStmt::Expr { expr } => lemma_collect_expr_valid(expr, w, p),
        SpecStmt::If { cond, cons } => {
            lemma_collect_expr_valid(cond, w, p);
            lemma_collect_stmts_valid(cons, w, collect_expr(cond, w, p));
        },
        SpecStmt::Empty => {},
    }
}

proof fn lemma_collect_stmts_valid(ss: Seq<SpecStmt>, w: SpecWatch, p: SpecPending)
    requires
        all_valid(w),
        pending_all_valid(p),
    ensures
        pending_all_valid(collect_stmts(ss, w, p)),
    decreases ss,
{
    if ss.len() > 0 {
        lemma_collect_stmts_valid(ss.drop_last(), w, p);
        lemma_collect_stmt_valid(ss.last(), w, collect_stmts(ss.drop_last(), w, p));
    }
}

proof fn lemma_collect_import_specs_valid(ss: Seq<SpecImportSpec>, w: SpecWatch, p: SpecPending)
    requires
        all_valid(w),
        pending_all_valid(p),
    ensures
        pending_all_valid(collect_import_specs(ss, w, p)),
    decreases ss,
{
    if ss.len() > 0 {
        lemma_collect_import_specs_valid(ss.drop_last(), w, p);
        let local = match ss.last() {
            SpecImportSpec::Default { local } => local,
            SpecImportSpec::Named { local, imported: _ } => local,
            SpecImportSpec::Star { local } => local,
        };
        lemma_collect_ident_valid(local, w, collect_import_specs(ss.drop_last(), w, p));
    }
}

proof fn lemma_collect_export_specs_valid(
    ss: Seq<crate::ast::SpecExportSpec>,
    w: SpecWatch,
    p: SpecPending,
)
    requires
        all_valid(w),
        pending_all_valid(p),
    ensures
        pending_all_valid(collect_export_specs(ss, w, p)),
    decreases ss,
{
    if ss.len() > 0 {
        lemma_collect_export_specs_valid(ss.drop_last(), w, p);
        lemma_collect_ident_valid(ss.last().orig, w, collect_export_specs(ss.drop_last(), w, p));
    }
}

proof fn lemma_collect_item_valid(it: SpecModuleItem, w: SpecWatch, p: SpecPending)
    requires
        all_valid(w),
        pending_all_valid(p),
    ensures
        pending_all_valid(collect_item(it, w, p)),
{
    match it {
        SpecModuleItem::Import { specifiers, src: _ } => lemma_collect_import_specs_valid(
            specifiers,
            w,
            p,
        ),
        SpecModuleItem::NamedExport { specifiers, src: _ } => lemma_collect_export_specs_valid(
            specifiers,
            w,
            p,
        ),
        SpecModuleItem::Stmt(s) => lemma_collect_stmt_valid(s, w, p),
    }
}

proof fn lemma_collect_items_valid(its: Seq<SpecModuleItem>, w: SpecWatch, p: SpecPending)
    requires
        all_valid(w),
        pending_all_valid(p),
    ensures
        pending_all_valid(collect_items(its, w, p)),
    decreases its,
{
    if its.len() > 0 {
        lemma_collect_items_valid(its.drop_last(), w, p);
        lemma_collect_item_valid(its.last(), w, collect_items(its.drop_last(), w, p));
    }
}


proof fn lemma_step_ok_ext(
    m1: spec_fn(Seq<char>) -> bool,
    m2: spec_fn(Seq<char>) -> bool,
    w: SpecWatch,
    p: SpecPending,
    r: SpecPending,
)
    requires
        collect_step_ok(m1, w, p, r),
        forall|name: Seq<char>| #[trigger] m2(name) == m1(name),
    ensures
        collect_step_ok(m2, w, p, r),
{
    assert forall|q: int|
        p.len() <= q < r.len() implies m2(#[trigger] r[q].0) && watch_lookup(w, r[q].0) == Some(
        r[q].1,
    ) by {
        assert(m1(r[q].0));
    }
    assert forall|name: Seq<char>|
        #[trigger] m2(name) && watch_lookup(w, name) is Some implies pending_has(r, name) by {
        assert(m1(name));
    }
}

proof fn lemma_collect_refl(m: spec_fn(Seq<char>) -> bool, w: SpecWatch, p: SpecPending)
    requires
        forall|name: Seq<char>| !#[trigger] m(name),
    ensures
        collect_step_ok(m, w, p, p),
{
}

proof fn lemma_collect_expr_ok(e: SpecExpr, w: SpecWatch, p: SpecPending)
    ensures
        collect_step_ok(
            |n: Seq<char>| mentions_free_expr(e, n),
            w,
            p,
            collect_expr(e, w, p),
        ),
    decreases e,
{
    let m = |n: Seq<char>| mentions_free_expr(e, n);
    match e {
        SpecExpr::Ident(id) => {
            lemma_collect_ident_facts(id, w, p);
            lemma_collect_refl(|n: Seq<char>| false, w, collect_ident(id, w, p));
            lemma_collect_chain(
                |n: Seq<char>| free_use(id, n),
                |n: Seq<char>| false,
                m,
                w,
                p,
                collect_ident(id, w, p),
                collect_ident(id, w, p),
            );
        },
        SpecExpr::Lit(_) => {
            lemma_collect_refl(m, w, p);
        },
        SpecExpr::ImportMeta => {
            lemma_collect_refl(m, w, p);
        },
        SpecExpr::Member { obj, prop } => {
            lemma_collect_expr_ok(*obj, w, p);
            lemma_collect_member_prop_ok(prop, w, collect_expr(*obj, w, p));
            lemma_collect_chain(
                |n: Seq<char>| mentions_free_expr(*obj, n),
                |n: Seq<char>| mentions_free_member_prop(prop, n),
                m,
                w,
                p,
                collect_expr(*obj, w, p),
                collect_member_prop(prop, w, collect_expr(*obj, w, p)),
            );
        },
        SpecExpr::Call { callee, args } => {
            lemma_collect_expr_ok(*callee, w, p);
            lemma_collect_exprs_ok(args, w, collect_expr(*callee, w, p));
            lemma_collect_chain(
                |n: Seq<char>| mentions_free_expr(*callee, n),
                |n: Seq<char>| mentions_free_exprs(args, n),
                m,
                w,
                p,
                collect_expr(*callee, w, p),
                collect_exprs(args, w, collect_expr(*callee, w, p)),
            );
        },
        SpecExpr::Bin { op: _, left, right } => {
            lemma_collect_expr_ok(*left, w, p);
            lemma_collect_expr_ok(*right, w, collect_expr(*left, w, p));
            lemma_collect_chain(
                |n: Seq<char>| mentions_free_expr(*left, n),
                |n: Seq<char>| mentions_free_expr(*right, n),
                m,
                w,
                p,
                collect_expr(*left, w, p),
                collect_expr(*right, w, collect_expr(*left, w, p)),
            );
        },
        SpecExpr::Array { elems } => {
            lemma_collect_exprs_ok(elems, w, p);
            lemma_step_ok_ext(
                |n: Seq<char>| mentions_free_exprs(elems, n),
                m,
                w,
                p,
                collect_exprs(elems, w, p),
            );
        },
        SpecExpr::Object { props } => {
            lemma_collect_props_ok(props, w, p);
            lemma_step_ok_ext(
                |n: Seq<char>| mentions_free_props(props, n),
                m,
                w,
                p,
                collect_props(props, w, p),
            );
        },
    }
}

proof fn lemma_collect_member_prop_ok(mp: SpecMemberProp, w: SpecWatch, p: SpecPending)
    ensures
        collect_step_ok(
            |n: Seq<char>| mentions_free_member_prop(mp, n),
            w,
            p,
            collect_member_prop(mp, w, p),
        ),
    decreases mp,
{
    match mp {
        SpecMemberProp::Ident(_) => {
            lemma_collect_refl(|n: Seq<char>| mentions_free_member_prop(mp, n), w, p);
        },
        SpecMemberProp::Computed(e) => {
            lemma_collect_expr_ok(*e, w, p);
            lemma_step_ok_ext(
                |n: Seq<char>| mentions_free_expr(*e, n),
                |n: Seq<char>| mentions_free_member_prop(mp, n),
                w,
                p,
                collect_expr(*e, w, p),
            );
        },
    }
}

proof fn lemma_collect_exprs_ok(es: Seq<SpecExpr>, w: SpecWatch, p: SpecPending)
    ensures
        collect_step_ok(
            |n: Seq<char>| mentions_free_exprs(es, n),
            w,
            p,
            collect_exprs(es, w, p),
        ),
    decreases es,
{
    let m = |n: Seq<char>| mentions_free_exprs(es, n);
    if es.len() == 0 {
        lemma_collect_refl(m, w, p);
    } else {
        lemma_collect_exprs_ok(es.drop_last(), w, p);
        lemma_collect_expr_ok(es.last(), w, collect_exprs(es.drop_last(), w, p));
        lemma_collect_chain(
            |n: Seq<char>| mentions_free_exprs(es.drop_last(), n),
            |n: Seq<char>| mentions_free_expr(es.last(), n),
            m,
            w,
            p,
            collect_exprs(es.drop_last(), w, p),
            collect_expr(es.last(), w, collect_exprs(es.drop_last(), w, p)),
        );
    }
}

proof fn lemma_collect_props_ok(ps: Seq<crate::ast::SpecObjProp>, w: SpecWatch, p: SpecPending)
    ensures
        collect_step_ok(
            |n: Seq<char>| mentions_free_props(ps, n),
            w,
            p,
            collect_props(ps, w, p),
        ),
    decreases ps,
{
    let m = |n: Seq<char>| mentions_free_props(ps, n);
    if ps.len() == 0 {
        lemma_collect_refl(m, w, p);
    } else {
        lemma_collect_props_ok(ps.drop_last(), w, p);
        lemma_collect_expr_ok(ps.last().value, w, collect_props(ps.drop_last(), w, p));
        lemma_collect_chain(
            |n: Seq<char>| mentions_free_props(ps.drop_last(), n),
            |n: Seq<char>| mentions_free_expr(ps.last().value, n),
            m,
            w,
            p,
            collect_props(ps.drop_last(), w, p),
            collect_expr(ps.last().value, w, collect_props(ps.drop_last(), w, p)),
        );
    }
}

proof fn lemma_collect_stmt_ok(s: SpecStmt, w: SpecWatch, p: SpecPending)
    ensures
        collect_step_ok(
            |n: Seq<char>| mentions_free_stmt(s, n),
            w,
            p,
            collect_stmt(s, w, p),
        ),
    decreases s,
{
    let m = |n: Seq<char>| mentions_free_stmt(s, n);
    match s {
        SpecStmt::Decl { kind: _, name, init } => {
            lemma_collect_ident_facts(name, w, p);
            let p1 = collect_ident(name, w, p);
            match init {
                Some(e) => {
                    lemma_collect_expr_ok(e, w, p1);
                    lemma_collect_chain(
                        |n: Seq<char>| free_use(name, n),
                        |n: Seq<char>| mentions_free_expr(e, n),
                        m,
                        w,
                        p,
                        p1,
                        collect_expr(e, w, p1),
                    );
                },
                None => {
                    lemma_collect_refl(|n: Seq<char>| false, w, p1);
                    lemma_collect_chain(
                        |n: Seq<char>| free_use(name, n),
                        |n: Seq<char>| false,
                        m,
                        w,
                        p,
                        p1,
                        p1,
                    );
                },
            }
        },
        SpecStmt::Expr { expr } => {
            lemma_collect_expr_ok(expr, w, p);
            lemma_step_ok_ext(
                |n: Seq<char>| mentions_free_expr(expr, n),
                m,
                w,
                p,
                collect_expr(expr, w, p),
            );
        },
        SpecStmt::If { cond, cons } => {
            lemma_collect_expr_ok(cond, w, p);
            lemma_collect_stmts_ok(cons, w, collect_expr(cond, w, p));
            lemma_collect_chain(
                |n: Seq<char>| mentions_free_expr(cond, n),
                |n: Seq<char>| mentions_free_stmts(cons, n),
                m,
                w,
                p,
                collect_expr(cond, w, p),
                collect_stmts(cons, w, collect_expr(cond, w, p)),
            );
        },
        SpecStmt::Empty => {
            lemma_collect_refl(m, w, p);
        },
    }
}

proof fn lemma_collect_stmts_ok(ss: Seq<SpecStmt>, w: SpecWatch, p: SpecPending)
    ensures
        collect_step_ok(
            |n: Seq<char>| mentions_free_stmts(ss, n),
            w,
            p,
            collect_stmts(ss, w, p),
        ),
    decreases ss,
{
    let m = |n: Seq<char>| mentions_free_stmts(ss, n);
    if ss.len() == 0 {
        lemma_collect_refl(m, w, p);
    } else {
        lemma_collect_stmts_ok(ss.drop_last(), w, p);
        lemma_collect_stmt_ok(ss.last(), w, collect_stmts(ss.drop_last(), w, p));
        lemma_collect_chain(
            |n: Seq<char>| mentions_free_stmts(ss.drop_last(), n),
            |n: Seq<char>| mentions_free_stmt(ss.last(), n),
            m,
            w,
            p,
            collect_stmts(ss.drop_last(), w, p),
            collect_stmt(ss.last(), w, collect_stmts(ss.drop_last(), w, p)),
        );
    }
}

proof fn lemma_collect_import_specs_ok(ss: Seq<SpecImportSpec>, w: SpecWatch, p: SpecPending)
    ensures
        collect_step_ok(
            |n: Seq<char>| mentions_free_import_specs(ss, n),
            w,
            p,
            collect_import_specs(ss, w, p),
        ),
    decreases ss,
{
    let m = |n: Seq<char>| mentions_free_import_specs(ss, n);
    if ss.len() == 0 {
        lemma_collect_refl(m, w, p);
    } else {
        let local = match ss.last() {
            SpecImportSpec::Default { local } => local,
            SpecImportSpec::Named { local, imported: _ } => local,
            SpecImportSpec::Star { local } => local,
        };
        lemma_collect_import_specs_ok(ss.drop_last(), w, p);
        lemma_collect_ident_facts(local, w, collect_import_specs(ss.drop_last(), w, p));
        lemma_collect_chain(
            |n: Seq<char>| mentions_free_import_specs(ss.drop_last(), n),
            |n: Seq<char>| free_use(local, n),
            m,
            w,
            p,
            collect_import_specs(ss.drop_last(), w, p),
            collect_ident(local, w, collect_import_specs(ss.drop_last(), w, p)),
        );
    }
}

proof fn lemma_collect_export_specs_ok(
    ss: Seq<crate::ast::SpecExportSpec>,
    w: SpecWatch,
    p: SpecPending,
)
    ensures
        collect_step_ok(
            |n: Seq<char>| mentions_free_export_specs(ss, n),
            w,
            p,
            collect_export_specs(ss, w, p),
        ),
    decreases ss,
{
    let m = |n: Seq<char>| mentions_free_export_specs(ss, n);
    if ss.len() == 0 {
        lemma_collect_refl(m, w, p);
    } else {
        lemma_collect_export_specs_ok(ss.drop_last(), w, p);
        lemma_collect_ident_facts(ss.last().orig, w, collect_export_specs(ss.drop_last(), w, p));
        lemma_collect_chain(
            |n: Seq<char>| mentions_free_export_specs(ss.drop_last(), n),
            |n: Seq<char>| free_use(ss.last().orig, n),
            m,
            w,
            p,
            collect_export_specs(ss.drop_last(), w, p),
            collect_ident(ss.last().orig, w, collect_export_specs(ss.drop_last(), w, p)),
        );
    }
}

proof fn lemma_collect_item_ok(it: SpecModuleItem, w: SpecWatch, p: SpecPending)
    ensures
        collect_step_ok(
            |n: Seq<char>| mentions_free_item(it, n),
            w,
            p,
            collect_item(it, w, p),
        ),
{
    let m = |n: Seq<char>| mentions_free_item(it, n);
    match it {
        SpecModuleItem::Import { specifiers, src: _ } => {
            lemma_collect_import_specs_ok(specifiers, w, p);
            lemma_step_ok_ext(
                |n: Seq<char>| mentions_free_import_specs(specifiers, n),
                m,
                w,
                p,
                collect_import_specs(specifiers, w, p),
            );
        },
        SpecModuleItem::NamedExport { specifiers, src: _ } => {
            lemma_collect_export_specs_ok(specifiers, w, p);
            lemma_step_ok_ext(
                |n: Seq<char>| mentions_free_export_specs(specifiers, n),
                m,
                w,
                p,
                collect_export_specs(specifiers, w, p),
            );
        },
        SpecModuleItem::Stmt(s) => {
            lemma_collect_stmt_ok(s, w, p);
            lemma_step_ok_ext(
                |n: Seq<char>| mentions_free_stmt(s, n),
                m,
                w,
                p,
                collect_stmt(s, w, p),
            );
        },
    }
}

proof fn lemma_collect_items_ok(its: Seq<SpecModuleItem>, w: SpecWatch, p: SpecPending)
    ensures
        collect_step_ok(
            |n: Seq<char>| mentions_free_items(its, n),
            w,
            p,
            collect_items(its, w, p),
        ),
    decreases its,
{
    let m = |n: Seq<char>| mentions_free_items(its, n);
    if its.len() == 0 {
        lemma_collect_refl(m, w, p);
    } else {
        lemma_collect_items_ok(its.drop_last(), w, p);
        lemma_collect_item_ok(its.last(), w, collect_items(its.drop_last(), w, p));
        lemma_collect_chain(
            |n: Seq<char>| mentions_free_items(its.drop_last(), n),
            |n: Seq<char>| mentions_free_item(its.last(), n),
            m,
            w,
            p,
            collect_items(its.drop_last(), w, p),
            collect_item(its.last(), w, collect_items(its.drop_last(), w, p)),
        );
    }
}

proof fn lemma_watch_lookup_key(w: SpecWatch, name: Seq<char>)
    requires
        watch_lookup(w, name) is Some,
    ensures
        exists|j: int| 0 <= j < w.len() && #[trigger] w[j].0 == name,
    decreases w.len(),
{
    if w.len() > 0 && w[0].0 != name {
        lemma_watch_lookup_key(w.drop_first(), name);
        let j = choose|j: int|
            0 <= j < w.drop_first().len() && #[trigger] w.drop_first()[j].0 == name;
        assert(w[j + 1].0 == name);
    }
}

// ---------------------------------------------------------------------------
// Laws of the injection pass.
// ---------------------------------------------------------------------------

/// Law: a watched name that never occurs free in a module is not consumed:
/// no statement is recorded for it.
pub proof fn lemma_no_free_use_no_injection(m: SpecJsModule, w: SpecWatch, name: Seq<char>)
    requires
        !mentions_free_module(m, name),
    ensures
        !pending_has(collect_module(m, w), name),
{
    lemma_collect_items_ok(m.body, w, Seq::empty());
    let r = collect_module(m, w);
    if pending_has(r, name) {
        let i = choose|i: int| 0 <= i < r.len() && r[i].0 == name;
        assert(mentions_free_items(m.body, r[i].0));
    }
}

/// Law: a free use of a watched name, however many times it occurs, leaves
/// exactly one recorded injection: one is present, and no watched name is
/// ever recorded twice.
pub proof fn lemma_free_use_injects_once(m: SpecJsModule, w: SpecWatch, name: Seq<char>)
    requires
        mentions_free_module(m, name),
        watch_lookup(w, name) is Some,
    ensures
        pending_has(collect_module(m, w), name),
        pending_nodup(collect_module(m, w)),
{
    lemma_collect_items_ok(m.body, w, Seq::empty());
    let mm = |n: Seq<char>| mentions_free_items(m.body, n);
    assert(mm(name));
}

/// Law: a module in which no watched name occurs free is returned
/// unchanged: no statement is injected.
pub proof fn lemma_no_use_module_unchanged(m: SpecJsModule, w: SpecWatch)
    requires
        forall|i: int| 0 <= i < w.len() ==> !mentions_free_module(m, (#[trigger] w[i]).0),
    ensures
        inject_module_spec(m, w) == m,
{
    lemma_collect_items_ok(m.body, w, Seq::empty());
    let r = collect_module(m, w);
    assert(r.len() == 0) by {
        if r.len() > 0 {
            assert(mentions_free_items(m.body, r[0].0) && watch_lookup(w, r[0].0) == Some(
                r[0].1,
            ));
            lemma_watch_lookup_key(w, r[0].0);
            let j = choose|j: int| 0 <= j < w.len() && #[trigger] w[j].0 == r[0].0;
            assert(!mentions_free_module(m, w[j].0));
        }
    }
    assert(synth_items(r, !has_module_decl(m.body)) =~= Seq::<SpecModuleItem>::empty());
    assert(inject_module_spec(m, w).body =~= m.body);
    assert(inject_module_spec(m, w) =~= m);
}

proof fn lemma_especs_no_mention(specs: Seq<crate::ast::SpecExportSpec>, name: Seq<char>)
    requires
        forall|i: int| 0 <= i < specs.len() ==> !free_use((#[trigger] specs[i]).orig, name),
    ensures
        !mentions_free_export_specs(specs, name),
    decreases specs,
{
    if specs.len() > 0 {
        assert(forall|i: int|
            0 <= i < specs.drop_last().len() ==> specs.drop_last()[i] == specs[i]);
        lemma_especs_no_mention(specs.drop_last(), name);
        assert(!free_use(specs[specs.len() - 1].orig, name));
    }
}

/// Law: the exported alias of `export { orig as alias }` is never checked
/// against the watch map: export specifiers whose original names are no
/// free use of the watched name trigger nothing, whatever their aliases.
pub proof fn lemma_export_alias_not_checked(
    specs: Seq<crate::ast::SpecExportSpec>,
    w: SpecWatch,
    p: SpecPending,
    name: Seq<char>,
)
    requires
        forall|i: int| 0 <= i < specs.len() ==> !free_use((#[trigger] specs[i]).orig, name),
    ensures
        pending_has(collect_export_specs(specs, w, p), name) == pending_has(p, name),
{
    lemma_especs_no_mention(specs, name);
    lemma_collect_export_specs_ok(specs, w, p);
    let r = collect_export_specs(specs, w, p);
    if pending_has(r, name) && !pending_has(p, name) {
        let i = choose|i: int| 0 <= i < r.len() && r[i].0 == name;
        if i < p.len() {
            assert(p[i].0 == name);
        } else {
            assert(mentions_free_export_specs(specs, r[i].0));
        }
    }
    if pending_has(p, name) {
        let i = choose|i: int| 0 <= i < p.len() && p[i].0 == name;
        assert(r[i].0 == name);
    }
}

/// Law: the statement form follows the module's format: a CJS module, or a
/// rule asking `prefer_require`, gets the `require` form; an ESM module
/// otherwise gets an import declaration.
pub proof fn lemma_format_selection(sp: SpecInject, tag: u32, is_cjs: bool)
    ensures
        (is_cjs || sp.prefer_require) ==> synth_item(sp, tag, is_cjs) == require_stmt(sp, tag),
        !(is_cjs || sp.prefer_require) ==> synth_item(sp, tag, is_cjs) == import_stmt(sp, tag),
        require_stmt(sp, tag) matches SpecModuleItem::Stmt(_),
        import_stmt(sp, tag) matches SpecModuleItem::Import { .. },
{
}

// ---------------------------------------------------------------------------
// Statement synthesis.
// ---------------------------------------------------------------------------

/// The call `require("<from>")`, with `require` free.
pub open spec fn require_call(from: Seq<char>) -> SpecExpr {
    SpecExpr::Call {
        callee: Box::new(SpecExpr::Ident(SpecIdent { sym: "require"@, tag: FREE_TAG })),
        args: seq![SpecExpr::Lit(SpecLit::Str(from))],
    }
}

/// The initializer of the `require` form: the bare call for a namespace
/// selector, `.<named>` for a named selector, `.default` with neither.
pub open spec fn require_init(sp: SpecInject) -> SpecExpr {
    if sp.namespace == Some(true) && sp.named is None {
        require_call(sp.from)
    } else {
        match sp.named {
            Some(n) => SpecExpr::Member {
                obj: Box::new(require_call(sp.from)),
                prop: SpecMemberProp::Ident(n),
            },
            None => SpecExpr::Member {
                obj: Box::new(require_call(sp.from)),
                prop: SpecMemberProp::Ident("default"@),
            },
        }
    }
}

/// The statement `var <name> = <require_init>;`, its name carrying the
/// scope tag of the triggering use.
pub open spec fn require_stmt(sp: SpecInject, tag: u32) -> SpecModuleItem {
    SpecModuleItem::Stmt(
        SpecStmt::Decl {
            kind: VarKind::Var,
            name: SpecIdent { sym: sp.name, tag },
            init: Some(require_init(sp)),
        },
    )
}

/// The import declaration form: `import * as name`, `import { named as
/// name }` (written without the `as` clause when the names agree), or
/// `import name`.
pub open spec fn import_stmt(sp: SpecInject, tag: u32) -> SpecModuleItem {
    let local = SpecIdent { sym: sp.name, tag };
    let specifier = if sp.namespace == Some(true) && sp.named is None {
        SpecImportSpec::Star { local }
    } else {
        match sp.named {
            Some(n) => SpecImportSpec::Named {
                local,
                imported: if n == sp.name {
                    None
                } else {
                    Some(n)
                },
            },
            None => SpecImportSpec::Default { local },
        }
    };
    SpecModuleItem::Import { specifiers: seq![specifier], src: sp.from }
}

pub open spec fn synth_item(sp: SpecInject, tag: u32, is_cjs: bool) -> SpecModuleItem {
    if is_cjs || sp.prefer_require {
        require_stmt(sp, tag)
    } else {
        import_stmt(sp, tag)
    }
}

pub open spec fn synth_items(p: SpecPending, is_cjs: bool) -> Seq<SpecModuleItem> {
    p.map_values(|t: (Seq<char>, SpecInject, u32)| synth_item(t.1, t.2, is_cjs))
}

/// The whole pass: collect the used watched names, classify the module,
/// prepend one synthesized statement per collected injection, in collection
/// order.
pub open spec fn inject_module_spec(m: SpecJsModule, w: SpecWatch) -> SpecJsModule {
    SpecJsModule {
        body: synth_items(collect_module(m, w), !has_module_decl(m.body)) + m.body,
    }
}

// ---------------------------------------------------------------------------
// Executable pass.
// ---------------------------------------------------------------------------

proof fn lemma_watch_miss(w: SpecWatch, name: Seq<char>, i: int)
    requires
        0 <= i < w.len(),
        w[i].0 != name,
    ensures
        watch_lookup(w.skip(i), name) == watch_lookup(w.skip(i + 1), name),
{
    assert(w.skip(i)[0] == w[i]);
    assert(w.skip(i).drop_first() =~= w.skip(i + 1));
}

proof fn lemma_watch_hit(w: SpecWatch, name: Seq<char>, i: int)
    requires
        0 <= i < w.len(),
        w[i].0 == name,
    ensures
        watch_lookup(w.skip(i), name) == Some(w[i].1),
{
    assert(w.skip(i)[0] == w[i]);
}

pub struct MyInjector {
    injects: Vec<(String, Inject)>,
}

impl MyInjector {
    /// The watch map this pass consumes from.
    pub closed spec fn watch(self) -> SpecWatch {
        watch_of(self.injects@)
    }

    pub fn new(injects: Vec<(String, Inject)>) -> (r: Self)
        ensures
            r.watch() == watch_of(injects@),
    {
        MyInjector { injects }
    }

    fn watch_find(&self, name: &String) -> (r: Option<Inject>)
        ensures
            match r {
                Some(sp) => watch_lookup(self.watch(), name@) == Some(sp@),
                None => watch_lookup(self.watch(), name@) is None,
            },
    {
        proof {
            assert(self.watch().skip(0) =~= self.watch());
        }
        let ghost w = self.watch();
        let mut i: usize = 0;
        while i < self.injects.len()
            invariant
                i <= self.injects.len(),
                w == self.watch(),
                w.len() == self.injects@.len(),
                watch_lookup(w, name@) == watch_lookup(w.skip(i as int), name@),
            decreases self.injects.len() - i,
        {
            proof {
                assert(w[i as int] == (self.injects@[i as int].0@, view_inject(
                    self.injects@[i as int].1,
                )));
            }
            if self.injects[i].0.eq(name) {
                proof {
                    lemma_watch_hit(w, name@, i as int);
                }
                return Some(clone_inject(&self.injects[i].1));
            }
            proof {
                lemma_watch_miss(w, name@, i as int);
            }
            i = i + 1;
        }
        proof {
            assert(w.skip(self.injects@.len() as int).len() == 0);
        }
        None
    }

    fn pending_has_name(pending: &Vec<(String, Inject, u32)>, name: &String) -> (r: bool)
        ensures
            r == pending_has(pend_of(pending@), name@),
    {
        let mut i: usize = 0;
        while i < pending.len()
            invariant
                i <= pending.len(),
                forall|j: int| 0 <= j < i ==> pend_of(pending@)[j].0 != name@,
            decreases pending.len() - i,
        {
            proof {
                assert(pend_of(pending@)[i as int].0 == pending@[i as int].0@);
            }
            if pending[i].0.eq(name) {
                proof {
                    assert(pend_of(pending@)[i as int].0 == name@);
                }
                return true;
            }
            i = i + 1;
        }
        false
    }

    /// One identifier occurrence of the walk.
    fn visit_ident(&self, id: &Ident, pending: &mut Vec<(String, Inject, u32)>)
        ensures
            pend_of(final(pending)@) == collect_ident(view_ident(*id), self.watch(), pend_of(
                old(pending)@,
            )),
    {
        if id.tag == FREE_TAG {
            if !Self::pending_has_name(pending, &id.sym) {
                match self.watch_find(&id.sym) {
                    Some(sp) => {
                        pending.push((id.sym.clone(), sp, id.tag));
                        proof {
                            assert(pend_of(pending@) =~= collect_ident(
                                view_ident(*id),
                                self.watch(),
                                pend_of(old(pending)@),
                            ));
                        }
                    },
                    None => {},
                }
            }
        }
    }

    #[verifier::loop_isolation(false)]
    fn visit_expr(&self, e: &Expr, pending: &mut Vec<(String, Inject, u32)>)
        ensures
            pend_of(final(pending)@) == collect_expr(e@, self.watch(), pend_of(old(pending)@)),
        decreases *e,
    {
        match e {
            Expr::Ident(id) => self.visit_ident(id, pending),
            Expr::Lit(_) => {},
            Expr::ImportMeta => {},
            Expr::Member { obj, prop } => {
                self.visit_expr(obj, pending);
                self.visit_member_prop(prop, pending);
            },
            Expr::Call { callee, args } => {
                proof {
                    assert(decreases_to!(*e => e->Call_args));
                    assert(decreases_to!(*args => args@));
                }
                self.visit_expr(callee, pending);
                self.visit_exprs(args, pending);
            },
            Expr::Bin { op: _, left, right } => {
                self.visit_expr(left, pending);
                self.visit_expr(right, pending);
            },
            Expr::Array { elems } => {
                proof {
                    assert(decreases_to!(*e => e->Array_elems));
                    assert(decreases_to!(*elems => elems@));
                }
                self.visit_exprs(elems, pending);
            },
            Expr::Object { props } => {
                proof {
                    assert(decreases_to!(*e => e->Object_props));
                    assert(decreases_to!(*props => props@));
                }
                self.visit_props(props, pending);
            },
        }
    }

    fn visit_member_prop(&self, mp: &MemberProp, pending: &mut Vec<(String, Inject, u32)>)
        ensures
            pend_of(final(pending)@) == collect_member_prop(
                crate::ast::view_member_prop(*mp),
                self.watch(),
                pend_of(old(pending)@),
            ),
        decreases *mp,
    {
        match mp {
            MemberProp::Ident(_) => {},
            MemberProp::Computed(e) => self.visit_expr(e, pending),
        }
    }

    #[verifier::loop_isolation(false)]
    fn visit_exprs(&self, es: &Vec<Expr>, pending: &mut Vec<(String, Inject, u32)>)
        ensures
            pend_of(final(pending)@) == collect_exprs(
                view_exprs(es@),
                self.watch(),
                pend_of(old(pending)@),
            ),
        decreases es@,
    {
        let mut i: usize = 0;
        proof {
            broadcast use lemma_view_exprs;

        }
        while i < es.len()
            invariant
                i <= es.len(),
                pend_of(pending@) == collect_exprs(
                    view_exprs(es@).take(i as int),
                    self.watch(),
                    pend_of(old(pending)@),
                ),
            decreases es.len() - i,
        {
            proof {
                assert(decreases_to!(es@ => es@[i as int]));
            }
            self.visit_expr(&es[i], pending);
            proof {
                let vs = view_exprs(es@);
                assert(vs.take(i as int + 1).drop_last() =~= vs.take(i as int));
                assert(vs.take(i as int + 1).last() == view_expr(es@[i as int]));
            }
            i = i + 1;
        }
        proof {
            assert(view_exprs(es@).take(es@.len() as int) =~= view_exprs(es@));
        }
    }

    #[verifier::loop_isolation(false)]
    fn visit_props(&self, ps: &Vec<ObjProp>, pending: &mut Vec<(String, Inject, u32)>)
        ensures
            pend_of(final(pending)@) == collect_props(
                crate::ast::view_props(ps@),
                self.watch(),
                pend_of(old(pending)@),
            ),
        decreases ps@,
    {
        let mut i: usize = 0;
        proof {
            broadcast use crate::ast::lemma_view_props;

        }
        while i < ps.len()
            invariant
                i <= ps.len(),
                pend_of(pending@) == collect_props(
                    crate::ast::view_props(ps@).take(i as int),
                    self.watch(),
                    pend_of(old(pending)@),
                ),
            decreases ps.len() - i,
        {
            proof {
                assert(decreases_to!(ps@ => ps@[i as int]));
                assert(decreases_to!(ps@[i as int] => ps@[i as int].value));
            }
            self.visit_expr(&ps[i].value, pending);
            proof {
                let vs = crate::ast::view_props(ps@);
                assert(vs.take(i as int + 1).drop_last() =~= vs.take(i as int));
                assert(vs.take(i as int + 1).last().value == view_expr(ps@[i as int].value));
            }
            i = i + 1;
        }
        proof {
            let vs = crate::ast::view_props(ps@);
            assert(vs.take(ps@.len() as int) =~= vs);
        }
    }

    #[verifier::loop_isolation(false)]
    fn visit_stmt(&self, s: &Stmt, pending: &mut Vec<(String, Inject, u32)>)
        ensures
            pend_of(final(pending)@) == collect_stmt(s@, self.watch(), pend_of(old(pending)@)),
        decreases *s,
    {
        match s {
            Stmt::Decl { kind: _, name, init } => {
                self.visit_ident(name, pending);
                match init {
                    Some(e) => self.visit_expr(e, pending),
                    None => {},
                }
            },
            Stmt::Expr { expr } => self.visit_expr(expr, pending),
            Stmt::If { cond, cons } => {
                proof {
                    assert(decreases_to!(*s => s->If_cons));
                    assert(decreases_to!(*cons => cons@));
                }
                self.visit_expr(cond, pending);
                self.visit_stmts(cons, pending);
            },
            Stmt::Empty => {},
        }
    }

    #[verifier::loop_isolation(false)]
    fn visit_stmts(&self, ss: &Vec<Stmt>, pending: &mut Vec<(String, Inject, u32)>)
        ensures
            pend_of(final(pending)@) == collect_stmts(
                crate::ast::view_stmts(ss@),
                self.watch(),
                pend_of(old(pending)@),
            ),
        decreases ss@,
    {
        let mut i: usize = 0;
        proof {
            broadcast use crate::ast::lemma_view_stmts;

        }
        while i < ss.len()
            invariant
                i <= ss.len(),
                pend_of(pending@) == collect_stmts(
                    crate::ast::view_stmts(ss@).take(i as int),
                    self.watch(),
                    pend_of(old(pending)@),
                ),
            decreases ss.len() - i,
        {
            proof {
                assert(decreases_to!(ss@ => ss@[i as int]));
            }
            self.visit_stmt(&ss[i], pending);
            proof {
                let vs = crate::ast::view_stmts(ss@);
                assert(vs.take(i as int + 1).drop_last() =~= vs.take(i as int));
                assert(vs.take(i as int + 1).last() == crate::ast::view_stmt(ss@[i as int]));
            }
            i = i + 1;
        }
        proof {
            let vs = crate::ast::view_stmts(ss@);
            assert(vs.take(ss@.len() as int) =~= vs);
        }
    }

    #[verifier::loop_isolation(false)]
    fn visit_item(&self, it: &ModuleItem, pending: &mut Vec<(String, Inject, u32)>)
        ensures
            pend_of(final(pending)@) == collect_item(it@, self.watch(), pend_of(old(pending)@)),
    {
        match it {
            ModuleItem::Import { specifiers, src: _ } => {
                let ghost vs = it@->Import_specifiers;
                let mut i: usize = 0;
                while i < specifiers.len()
                    invariant
                        i <= specifiers.len(),
                        vs == it@->Import_specifiers,
                        vs.len() == specifiers@.len(),
                        forall|j: int|
                            0 <= j < vs.len() ==> vs[j] == crate::ast::view_import_spec(
                                specifiers@[j],
                            ),
                        pend_of(pending@) == collect_import_specs(
                            vs.take(i as int),
                            self.watch(),
                            pend_of(old(pending)@),
                        ),
                    decreases specifiers.len() - i,
                {
                    let local = match &specifiers[i] {
                        ImportSpec::Default { local } => local,
                        ImportSpec::Named { local, imported: _ } => local,
                        ImportSpec::Star { local } => local,
                    };
                    self.visit_ident(local, pending);
                    proof {
                        assert(vs.take(i as int + 1).drop_last() =~= vs.take(i as int));
                    }
                    i = i + 1;
                }
                proof {
                    assert(vs.take(specifiers@.len() as int) =~= vs);
                }
            },
            ModuleItem::NamedExport { specifiers, src: _ } => {
                let ghost vs = it@->NamedExport_specifiers;
                let mut i: usize = 0;
                while i < specifiers.len()
                    invariant
                        i <= specifiers.len(),
                        vs == it@->NamedExport_specifiers,
                        vs.len() == specifiers@.len(),
                        forall|j: int|
                            0 <= j < vs.len() ==> vs[j] == crate::ast::view_export_spec(
                                specifiers@[j],
                            ),
                        pend_of(pending@) == collect_export_specs(
                            vs.take(i as int),
                            self.watch(),
                            pend_of(old(pending)@),
                        ),
                    decreases specifiers.len() - i,
                {
                    self.visit_ident(&specifiers[i].orig, pending);
                    proof {
                        assert(vs.take(i as int + 1).drop_last() =~= vs.take(i as int));
                    }
                    i = i + 1;
                }
                proof {
                    assert(vs.take(specifiers@.len() as int) =~= vs);
                }
            },
            ModuleItem::Stmt(s) => self.visit_stmt(s, pending),
        }
    }

    fn is_esm(m: &JsModule) -> (r: bool)
        ensures
            r == has_module_decl(m@.body),
    {
        let mut i: usize = 0;
        while i < m.body.len()
            invariant
                i <= m.body.len(),
                m@.body.len() == m.body@.len(),
                forall|j: int| 0 <= j < i ==> m@.body[j] is Stmt,
            decreases m.body.len() - i,
        {
            let decl = match &m.body[i] {
                ModuleItem::Stmt(_) => false,
                _ => true,
            };
            if decl {
                proof {
                    assert(!(m@.body[i as int] is Stmt));
                }
                return true;
            }
            i = i + 1;
        }
        false
    }

    fn require_item(sp: &Inject, tag: u32) -> (r: ModuleItem)
        requires
            inject_valid(sp@),
        ensures
            r@ == require_stmt(sp@, tag),
    {
        proof {
            reveal_with_fuel(view_expr, 5);
        }
        let callee = Expr::Ident(Ident { sym: "require".to_owned(), tag: FREE_TAG });
        let mut args: Vec<Expr> = Vec::new();
        args.push(Expr::Lit(Lit::Str(sp.from.clone())));
        proof {
            assert(view_exprs(args@) =~= require_call(sp@.from)->Call_args) by {
                broadcast use lemma_view_exprs;

            }
        }
        let call = Expr::Call { callee: Box::new(callee), args };
        let use_namespace = match sp.namespace {
            Some(true) => true,
            _ => false,
        };
        let init: Expr = if use_namespace {
            call
        } else {
            match &sp.named {
                Some(n) => Expr::Member {
                    obj: Box::new(call),
                    prop: MemberProp::Ident(n.clone()),
                },
                None => Expr::Member {
                    obj: Box::new(call),
                    prop: MemberProp::Ident("default".to_owned()),
                },
            }
        };
        ModuleItem::Stmt(
            Stmt::Decl {
                kind: VarKind::Var,
                name: Ident { sym: sp.name.clone(), tag },
                init: Some(init),
            },
        )
    }

    fn import_item(sp: &Inject, tag: u32) -> (r: ModuleItem)
        requires
            inject_valid(sp@),
        ensures
            r@ == import_stmt(sp@, tag),
    {
        let local = Ident { sym: sp.name.clone(), tag };
        let use_namespace = match sp.namespace {
            Some(true) => true,
            _ => false,
        };
        let specifier: ImportSpec = if use_namespace {
            ImportSpec::Star { local }
        } else {
            match &sp.named {
                Some(n) => ImportSpec::Named {
                    local,
                    imported: if str_eq(n.as_str(), sp.name.as_str()) {
                        None
                    } else {
                        Some(n.clone())
                    },
                },
                None => ImportSpec::Default { local },
            }
        };
        let mut specifiers: Vec<ImportSpec> = Vec::new();
        specifiers.push(specifier);
        let r = ModuleItem::Import { specifiers, src: sp.from.clone() };
        proof {
            assert(r@->Import_specifiers =~= import_stmt(sp@, tag)->Import_specifiers);
        }
        r
    }

    /// Runs the pass on one module. A watch map holding an invalid rule is
    /// a configuration error and fails fast, whether or not the rule is
    /// used; otherwise the rewritten module is returned.
    #[verifier::loop_isolation(false)]
    pub fn apply(&self, m: &JsModule) -> (r: Result<JsModule, ConfigError>)
        ensures
            r is Ok <==> all_valid(self.watch()),
            r is Ok ==> r->Ok_0@ == inject_module_spec(m@, self.watch()),
            r is Err ==> exists|i: int|
                0 <= i < self.watch().len() && !inject_valid(self.watch()[i].1) && r->Err_0@
                    == SpecConfigError::InvalidInjectSpec(self.watch()[i].0),
    {
        // Fail fast on a rule that asks for both selectors.
        let mut i: usize = 0;
        while i < self.injects.len()
            invariant
                i <= self.injects.len(),
                forall|j: int| 0 <= j < i ==> inject_valid(self.watch()[j].1),
            decreases self.injects.len() - i,
        {
            let sp = &self.injects[i].1;
            let invalid = match (&sp.named, &sp.namespace) {
                (Some(_), Some(true)) => true,
                _ => false,
            };
            if invalid {
                proof {
                    assert(!inject_valid(self.watch()[i as int].1));
                }
                return Err(ConfigError::InvalidInjectSpec(self.injects[i].0.clone()));
            }
            i = i + 1;
        }
        let mut pending: Vec<(String, Inject, u32)> = Vec::new();
        proof {
            assert(pend_of(pending@) =~= Seq::<(Seq<char>, SpecInject, u32)>::empty());
        }
        let ghost empty_pending = pend_of(pending@);
        let mut k: usize = 0;
        while k < m.body.len()
            invariant
                k <= m.body.len(),
                pend_of(pending@) == collect_items(
                    m@.body.take(k as int),
                    self.watch(),
                    empty_pending,
                ),
            decreases m.body.len() - k,
        {
            self.visit_item(&m.body[k], &mut pending);
            proof {
                assert(m@.body.take(k as int + 1).drop_last() =~= m@.body.take(k as int));
                assert(m@.body.take(k as int + 1).last() == m.body@[k as int]@);
            }
            k = k + 1;
        }
        proof {
            assert(m@.body.take(m.body@.len() as int) =~= m@.body);
            assert(empty_pending =~= Seq::<(Seq<char>, SpecInject, u32)>::empty());
        }
        let is_cjs = !Self::is_esm(m);
        proof {
            lemma_collect_items_valid(m@.body, self.watch(), empty_pending);
        }
        let mut body: Vec<ModuleItem> = Vec::new();
        let mut j: usize = 0;
        while j < pending.len()
            invariant
                j <= pending.len(),
                pending_all_valid(pend_of(pending@)),
                body@.len() == j,
                forall|t: int|
                    0 <= t < j ==> body@[t]@ == synth_item(
                        pend_of(pending@)[t].1,
                        pend_of(pending@)[t].2,
                        is_cjs,
                    ),
            decreases pending.len() - j,
        {
            let entry = &pending[j];
            proof {
                assert(inject_valid(pend_of(pending@)[j as int].1));
                assert(pend_of(pending@)[j as int].1 == entry.1@);
            }
            let item = if is_cjs || entry.1.prefer_require {
                Self::require_item(&entry.1, entry.2)
            } else {
                Self::import_item(&entry.1, entry.2)
            };
            body.push(item);
            j = j + 1;
        }
        let ghost synth_len = body@.len();
        let mut t: usize = 0;
        while t < m.body.len()
            invariant
                t <= m.body.len(),
                body@.len() == synth_len + t,
                forall|u: int|
                    0 <= u < synth_len ==> body@[u]@ == synth_item(
                        pend_of(pending@)[u].1,
                        pend_of(pending@)[u].2,
                        is_cjs,
                    ),
                forall|u: int| 0 <= u < t ==> body@[synth_len + u]@ == m.body@[u]@,
            decreases m.body.len() - t,
        {
            body.push(clone_item(&m.body[t]));
            t = t + 1;
        }
        let r = JsModule { body };
        proof {
            assert(view_items(r.body@) =~= synth_items(
                collect_module(m@, self.watch()),
                !has_module_decl(m@.body),
            ) + m@.body);
        }
        Ok(r)
    }
}

} // verus!
