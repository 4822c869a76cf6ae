use vstd::prelude::*;

use crate::ast::{
    clone_opt_str, clone_var_kind, lemma_view_exprs, lemma_view_props, lemma_view_stmts,
    view_expr, view_exprs, view_ident, view_import_spec, view_item, view_items, view_member_prop,
    view_props, view_stmt, view_stmts, Expr, ExportSpec, Ident, ImportSpec, JsModule, Lit,
    MemberProp, ModuleItem, ObjProp, SpecExpr, SpecIdent, SpecImportSpec, SpecJsModule,
    SpecMemberProp, SpecModuleItem, SpecObjProp, SpecStmt, Stmt, VarKind,
};
use crate::FREE_TAG;

verus! {

broadcast use vstd::std_specs::vec::group_vec_axioms;

// ---------------------------------------------------------------------------
// The binding resolver walks one module and gives every identifier
// occurrence a scope tag: occurrences bound by the same declaration share
// one tag, and an occurrence no enclosing declaration binds gets the
// reserved free tag. Declarations are gathered before occurrences are
// tagged, so a use before its declaration in the same scope still binds.
// `var` declarations and import locals belong to the module scope wherever
// they stand; `let` and `const` inside a block belong to that block.
//
// The whole pass is specified by `spec_resolve`: each scope is a frame of
// (name, tag) pairs, a declaration takes a fresh tag from a counter (which
// saturates at the largest tag, so distinctness of tags is owed only below
// that bound), and an occurrence is tagged by the innermost frame declaring
// its name, or `FREE_TAG` when none does. Everything but the tags is
// returned as it came.
// ---------------------------------------------------------------------------

/// One scope: the names it declares, each with its binding's tag.
type Frame = Vec<(String, u32)>;

/// The model of one scope frame.
pub type SpecFrame = Seq<(Seq<char>, u32)>;

pub open spec fn frame_of(v: Seq<(String, u32)>) -> SpecFrame {
    v.map_values(|p: (String, u32)| (p.0@, p.1))
}

pub open spec fn frames_of(v: Seq<Vec<(String, u32)>>) -> Seq<SpecFrame> {
    v.map_values(|f: Vec<(String, u32)>| frame_of(f@))
}

/// The tag of `name` in one frame: the first entry that declares it.
pub open spec fn spec_frame_lookup(f: SpecFrame, name: Seq<char>) -> Option<u32>
    decreases f.len(),
{
    if f.len() == 0 {
        None
    } else if f[0].0 == name {
        Some(f[0].1)
    } else {
        spec_frame_lookup(f.drop_first(), name)
    }
}

/// The tag of `name` through the scope stack, innermost frame first;
/// `FREE_TAG` when no frame declares it.
pub open spec fn spec_lookup_tag(frames: Seq<SpecFrame>, name: Seq<char>) -> u32
    decreases frames.len(),
{
    if frames.len() == 0 {
        FREE_TAG
    } else {
        match spec_frame_lookup(frames.last(), name) {
            Some(t) => t,
            None => spec_lookup_tag(frames.drop_last(), name),
        }
    }
}

/// Declares `name` in the frame: a fresh tag from the counter for a new
/// name, nothing for one the frame already has. The counter saturates at
/// the largest tag.
pub open spec fn spec_declare(f: SpecFrame, name: Seq<char>, next: u32) -> (SpecFrame, u32) {
    match spec_frame_lookup(f, name) {
        Some(_) => (f, next),
        None => (
            f.push((name, next)),
            if next < 0xffff_ffff {
                (next + 1) as u32
            } else {
                next
            },
        ),
    }
}

pub open spec fn spec_import_locals(
    specs: Seq<SpecImportSpec>,
    f: SpecFrame,
    next: u32,
) -> (SpecFrame, u32)
    decreases specs,
{
    if specs.len() == 0 {
        (f, next)
    } else {
        let prev = spec_import_locals(specs.drop_last(), f, next);
        let local = match specs.last() {
            SpecImportSpec::Default { local } => local,
            SpecImportSpec::Named { local, imported: _ } => local,
            SpecImportSpec::Star { local } => local,
        };
        spec_declare(prev.0, local.sym, prev.1)
    }
}

/// The declarations a statement contributes to the enclosing scope: at the
/// top level every kind, inside a block only hoisted `var` declarations.
pub open spec fn spec_stmt_decls(s: SpecStmt, f: SpecFrame, next: u32, top: bool) -> (
    SpecFrame,
    u32,
)
    decreases s,
{
    match s {
        SpecStmt::Decl { kind, name, init: _ } => {
            if kind is Var || top {
                spec_declare(f, name.sym, next)
            } else {
                (f, next)
            }
        },
        SpecStmt::If { cond: _, cons } => spec_stmts_decls(cons, f, next),
        _ => (f, next),
    }
}

pub open spec fn spec_stmts_decls(ss: Seq<SpecStmt>, f: SpecFrame, next: u32) -> (SpecFrame, u32)
    decreases ss,
{
    if ss.len() == 0 {
        (f, next)
    } else {
        let prev = spec_stmts_decls(ss.drop_last(), f, next);
        spec_stmt_decls(ss.last(), prev.0, prev.1, false)
    }
}

/// The module scope: every top-level declaration of any kind, every import
/// local, and `var` declarations however deeply they sit inside blocks.
pub open spec fn spec_module_frame(
    items: Seq<SpecModuleItem>,
    f: SpecFrame,
    next: u32,
) -> (SpecFrame, u32)
    decreases items,
{
    if items.len() == 0 {
        (f, next)
    } else {
        let prev = spec_module_frame(items.drop_last(), f, next);
        match items.last() {
            SpecModuleItem::Import { specifiers, src: _ } => spec_import_locals(
                specifiers,
                prev.0,
                prev.1,
            ),
            SpecModuleItem::NamedExport { .. } => prev,
            SpecModuleItem::Stmt(s) => spec_stmt_decls(s, prev.0, prev.1, true),
        }
    }
}

/// The block-scoped (`let`, `const`) declarations of one block.
pub open spec fn spec_block_frame(ss: Seq<SpecStmt>, f: SpecFrame, next: u32) -> (SpecFrame, u32)
    decreases ss,
{
    if ss.len() == 0 {
        (f, next)
    } else {
        let prev = spec_block_frame(ss.drop_last(), f, next);
        match ss.last() {
            SpecStmt::Decl { kind, name, init: _ } => {
                if kind is Var {
                    prev
                } else {
                    spec_declare(prev.0, name.sym, prev.1)
                }
            },
            _ => prev,
        }
    }
}

pub open spec fn spec_resolve_ident(frames: Seq<SpecFrame>, id: SpecIdent) -> SpecIdent {
    SpecIdent { sym: id.sym, tag: spec_lookup_tag(frames, id.sym) }
}

pub open spec fn spec_resolve_expr(frames: Seq<SpecFrame>, e: SpecExpr) -> SpecExpr
    decreases e,
{
    match e {
        SpecExpr::Ident(id) => SpecExpr::Ident(spec_resolve_ident(frames, id)),
        SpecExpr::Lit(_) => e,
        SpecExpr::ImportMeta => e,
        SpecExpr::Member { obj, prop } => SpecExpr::Member {
            obj: Box::new(spec_resolve_expr(frames, *obj)),
            prop: spec_resolve_member_prop(frames, prop),
        },
        SpecExpr::Call { callee, args } => SpecExpr::Call {
            callee: Box::new(spec_resolve_expr(frames, *callee)),
            args: spec_resolve_exprs(frames, args),
        },
        SpecExpr::Bin { op, left, right } => SpecExpr::Bin {
            op,
            left: Box::new(spec_resolve_expr(frames, *left)),
            right: Box::new(spec_resolve_expr(frames, *right)),
        },
        SpecExpr::Array { elems } => SpecExpr::Array { elems: spec_resolve_exprs(frames, elems) },
        SpecExpr::Object { props } => SpecExpr::Object {
            props: spec_resolve_props(frames, props),
        },
    }
}

pub open spec fn spec_resolve_member_prop(
    frames: Seq<SpecFrame>,
    p: SpecMemberProp,
) -> SpecMemberProp
    decreases p,
{
    match p {
        SpecMemberProp::Ident(_) => p,
        SpecMemberProp::Computed(e) => SpecMemberProp::Computed(
            Box::new(spec_resolve_expr(frames, *e)),
        ),
    }
}

pub open spec fn spec_resolve_exprs(frames: Seq<SpecFrame>, es: Seq<SpecExpr>) -> Seq<SpecExpr>
    decreases es,
{
    if es.len() == 0 {
        Seq::empty()
    } else {
        spec_resolve_exprs(frames, es.drop_last()).push(spec_resolve_expr(frames, es.last()))
    }
}

pub open spec fn spec_resolve_props(
    frames: Seq<SpecFrame>,
    ps: Seq<SpecObjProp>,
) -> Seq<SpecObjProp>
    decreases ps,
{
    if ps.len() == 0 {
        Seq::empty()
    } else {
        spec_resolve_props(frames, ps.drop_last()).push(
            SpecObjProp {
                key: ps.last().key,
                value: spec_resolve_expr(frames, ps.last().value),
            },
        )
    }
}

pub broadcast proof fn lemma_spec_resolve_exprs(frames: Seq<SpecFrame>, es: Seq<SpecExpr>)
    ensures
        (#[trigger] spec_resolve_exprs(frames, es)).len() == es.len(),
        forall|i: int|
            0 <= i < es.len() ==> spec_resolve_exprs(frames, es)[i] == spec_resolve_expr(
                frames,
                es[i],
            ),
    decreases es.len(),
{
    if es.len() > 0 {
        lemma_spec_resolve_exprs(frames, es.drop_last());
    }
}

pub broadcast proof fn lemma_spec_resolve_props(frames: Seq<SpecFrame>, ps: Seq<SpecObjProp>)
    ensures
        (#[trigger] spec_resolve_props(frames, ps)).len() == ps.len(),
        forall|i: int|
            0 <= i < ps.len() ==> spec_resolve_props(frames, ps)[i] == (SpecObjProp {
                key: ps[i].key,
                value: spec_resolve_expr(frames, ps[i].value),
            }),
    decreases ps.len(),
{
    if ps.len() > 0 {
        lemma_spec_resolve_props(frames, ps.drop_last());
    }
}

pub open spec fn spec_resolve_stmt(frames: Seq<SpecFrame>, s: SpecStmt, next: u32) -> (
    SpecStmt,
    u32,
)
    decreases s,
{
    match s {
        SpecStmt::Decl { kind, name, init } => (
            SpecStmt::Decl {
                kind,
                name: spec_resolve_ident(frames, name),
                init: match init {
                    Some(e) => Some(spec_resolve_expr(frames, e)),
                    None => None,
                },
            },
            next,
        ),
        SpecStmt::Expr { expr } => (SpecStmt::Expr { expr: spec_resolve_expr(frames, expr) }, next),
        SpecStmt::If { cond, cons } => {
            let bf = spec_block_frame(cons, Seq::empty(), next);
            let rs = spec_resolve_stmts(frames.push(bf.0), cons, bf.1);
            (SpecStmt::If { cond: spec_resolve_expr(frames, cond), cons: rs.0 }, rs.1)
        },
        SpecStmt::Empty => (s, next),
    }
}

pub open spec fn spec_resolve_stmts(frames: Seq<SpecFrame>, ss: Seq<SpecStmt>, next: u32) -> (
    Seq<SpecStmt>,
    u32,
)
    decreases ss,
{
    if ss.len() == 0 {
        (Seq::empty(), next)
    } else {
        let prev = spec_resolve_stmts(frames, ss.drop_last(), next);
        let last = spec_resolve_stmt(frames, ss.last(), prev.1);
        (prev.0.push(last.0), last.1)
    }
}

pub open spec fn spec_resolve_import_spec(
    frames: Seq<SpecFrame>,
    sp: SpecImportSpec,
) -> SpecImportSpec {
    match sp {
        SpecImportSpec::Default { local } => SpecImportSpec::Default {
            local: spec_resolve_ident(frames, local),
        },
        SpecImportSpec::Named { local, imported } => SpecImportSpec::Named {
            local: spec_resolve_ident(frames, local),
            imported,
        },
        SpecImportSpec::Star { local } => SpecImportSpec::Star {
            local: spec_resolve_ident(frames, local),
        },
    }
}

pub open spec fn spec_resolve_item(frames: Seq<SpecFrame>, it: SpecModuleItem, next: u32) -> (
    SpecModuleItem,
    u32,
)
    decreases it,
{
    match it {
        SpecModuleItem::Import { specifiers, src } => (
            SpecModuleItem::Import {
                specifiers: specifiers.map_values(
                    |sp: SpecImportSpec| spec_resolve_import_spec(frames, sp),
                ),
                src,
            },
            next,
        ),
        SpecModuleItem::NamedExport { specifiers, src } => (
            SpecModuleItem::NamedExport {
                specifiers: specifiers.map_values(
                    |sp: crate::ast::SpecExportSpec| crate::ast::SpecExportSpec {
                        orig: spec_resolve_ident(frames, sp.orig),
                        exported: sp.exported,
                    },
                ),
                src,
            },
            next,
        ),
        SpecModuleItem::Stmt(s) => {
            let r = spec_resolve_stmt(frames, s, next);
            (SpecModuleItem::Stmt(r.0), r.1)
        },
    }
}

pub open spec fn spec_resolve_items(
    frames: Seq<SpecFrame>,
    items: Seq<SpecModuleItem>,
    next: u32,
) -> (Seq<SpecModuleItem>, u32)
    decreases items,
{
    if items.len() == 0 {
        (Seq::empty(), next)
    } else {
        let prev = spec_resolve_items(frames, items.drop_last(), next);
        let last = spec_resolve_item(frames, items.last(), prev.1);
        (prev.0.push(last.0), last.1)
    }
}

/// The whole pass: gather the module scope, then tag every occurrence
/// against the stack of scopes it sits in.
pub open spec fn spec_resolve(m: SpecJsModule) -> SpecJsModule {
    let mf = spec_module_frame(m.body, Seq::empty(), 1);
    SpecJsModule { body: spec_resolve_items(seq![mf.0], m.body, mf.1).0 }
}


// ---------------------------------------------------------------------------
// Laws of the resolution. The scopes the pass builds carry only tags drawn
// from the counter, which starts above the free tag, so the free tag marks
// exactly the occurrences no enclosing scope declares.
// ---------------------------------------------------------------------------

/// No entry of the frame carries the free tag.
pub open spec fn frame_tags_nonfree(f: SpecFrame) -> bool {
    forall|i: int| 0 <= i < f.len() ==> (#[trigger] f[i]).1 != FREE_TAG
}

proof fn lemma_frame_lookup_nonfree(f: SpecFrame, name: Seq<char>)
    requires
        frame_tags_nonfree(f),
        spec_frame_lookup(f, name) is Some,
    ensures
        spec_frame_lookup(f, name)->Some_0 != FREE_TAG,
    decreases f.len(),
{
    if f.len() > 0 && f[0].0 != name {
        assert(frame_tags_nonfree(f.drop_first())) by {
            assert(forall|i: int|
                0 <= i < f.drop_first().len() ==> f.drop_first()[i] == f[i + 1]);
        }
        lemma_frame_lookup_nonfree(f.drop_first(), name);
    }
}

/// Law: over scopes without free tags, a name is tagged free exactly when
/// no scope of the stack declares it.
pub proof fn lemma_free_tag_iff_unbound(frames: Seq<SpecFrame>, name: Seq<char>)
    requires
        forall|k: int| 0 <= k < frames.len() ==> frame_tags_nonfree(#[trigger] frames[k]),
    ensures
        spec_lookup_tag(frames, name) == FREE_TAG <==> (forall|k: int|
            0 <= k < frames.len() ==> spec_frame_lookup(#[trigger] frames[k], name) is None),
    decreases frames.len(),
{
    if frames.len() > 0 {
        assert(frames[frames.len() - 1] == frames.last());
        if spec_frame_lookup(frames.last(), name) is Some {
            lemma_frame_lookup_nonfree(frames.last(), name);
        } else {
            assert(forall|k: int|
                0 <= k < frames.drop_last().len() ==> frame_tags_nonfree(
                    #[trigger] frames.drop_last()[k],
                ));
            lemma_free_tag_iff_unbound(frames.drop_last(), name);
            assert forall|k: int|
                0 <= k < frames.len() && spec_lookup_tag(frames, name)
                    == FREE_TAG implies spec_frame_lookup(#[trigger] frames[k], name)
                is None by {
                if k < frames.len() - 1 {
                    assert(frames.drop_last()[k] == frames[k]);
                }
            }
            if forall|k: int|
                0 <= k < frames.len() ==> spec_frame_lookup(#[trigger] frames[k], name)
                    is None {
                assert(forall|k: int|
                    0 <= k < frames.drop_last().len() ==> spec_frame_lookup(
                        #[trigger] frames.drop_last()[k],
                        name,
                    ) is None);
            }
        }
    }
}

proof fn lemma_declare_nonfree(f: SpecFrame, name: Seq<char>, next: u32)
    requires
        frame_tags_nonfree(f),
        next != FREE_TAG,
    ensures
        frame_tags_nonfree(spec_declare(f, name, next).0),
        spec_declare(f, name, next).1 != FREE_TAG,
{
    if spec_frame_lookup(f, name) is None {
        let f2 = f.push((name, next));
        assert forall|i: int| 0 <= i < f2.len() implies (#[trigger] f2[i]).1 != FREE_TAG by {
            if i < f.len() {
                assert(f2[i] == f[i]);
            }
        }
    }
}

proof fn lemma_import_locals_nonfree(specs: Seq<SpecImportSpec>, f: SpecFrame, next: u32)
    requires
        frame_tags_nonfree(f),
        next != FREE_TAG,
    ensures
        frame_tags_nonfree(spec_import_locals(specs, f, next).0),
        spec_import_locals(specs, f, next).1 != FREE_TAG,
    decreases specs,
{
    if specs.len() > 0 {
        lemma_import_locals_nonfree(specs.drop_last(), f, next);
        let prev = spec_import_locals(specs.drop_last(), f, next);
        let local = match specs.last() {
            SpecImportSpec::Default { local } => local,
            SpecImportSpec::Named { local, imported: _ } => local,
            SpecImportSpec::Star { local } => local,
        };
        lemma_declare_nonfree(prev.0, local.sym, prev.1);
    }
}

proof fn lemma_stmt_decls_nonfree(s: SpecStmt, f: SpecFrame, next: u32, top: bool)
    requires
        frame_tags_nonfree(f),
        next != FREE_TAG,
    ensures
        frame_tags_nonfree(spec_stmt_decls(s, f, next, top).0),
        spec_stmt_decls(s, f, next, top).1 != FREE_TAG,
    decreases s,
{
    match s {
        SpecStmt::Decl { kind, name, init: _ } => {
            if kind is Var || top {
                lemma_declare_nonfree(f, name.sym, next);
            }
        },
        SpecStmt::If { cond: _, cons } => {
            lemma_stmts_decls_nonfree(cons, f, next);
        },
        _ => {},
    }
}

proof fn lemma_stmts_decls_nonfree(ss: Seq<SpecStmt>, f: SpecFrame, next: u32)
    requires
        frame_tags_nonfree(f),
        next != FREE_TAG,
    ensures
        frame_tags_nonfree(spec_stmts_decls(ss, f, next).0),
        spec_stmts_decls(ss, f, next).1 != FREE_TAG,
    decreases ss,
{
    if ss.len() > 0 {
        lemma_stmts_decls_nonfree(ss.drop_last(), f, next);
        let prev = spec_stmts_decls(ss.drop_last(), f, next);
        lemma_stmt_decls_nonfree(ss.last(), prev.0, prev.1, false);
    }
}

/// Law: the module scope the pass builds carries no free tag, so
/// `lemma_free_tag_iff_unbound` applies to every tag the pass assigns at
/// the top level.
pub proof fn lemma_module_frame_nonfree(items: Seq<SpecModuleItem>, f: SpecFrame, next: u32)
    requires
        frame_tags_nonfree(f),
        next != FREE_TAG,
    ensures
        frame_tags_nonfree(spec_module_frame(items, f, next).0),
        spec_module_frame(items, f, next).1 != FREE_TAG,
    decreases items,
{
    if items.len() > 0 {
        lemma_module_frame_nonfree(items.drop_last(), f, next);
        let prev = spec_module_frame(items.drop_last(), f, next);
        match items.last() {
            SpecModuleItem::Import { specifiers, src: _ } => {
                lemma_import_locals_nonfree(specifiers, prev.0, prev.1);
            },
            SpecModuleItem::NamedExport { .. } => {},
            SpecModuleItem::Stmt(s) => {
                lemma_stmt_decls_nonfree(s, prev.0, prev.1, true);
            },
        }
    }
}

/// Law: a block scope the pass builds carries no free tag either.
pub proof fn lemma_block_frame_nonfree(ss: Seq<SpecStmt>, f: SpecFrame, next: u32)
    requires
        frame_tags_nonfree(f),
        next != FREE_TAG,
    ensures
        frame_tags_nonfree(spec_block_frame(ss, f, next).0),
        spec_block_frame(ss, f, next).1 != FREE_TAG,
    decreases ss,
{
    if ss.len() > 0 {
        lemma_block_frame_nonfree(ss.drop_last(), f, next);
        let prev = spec_block_frame(ss.drop_last(), f, next);
        match ss.last() {
            SpecStmt::Decl { kind, name, init: _ } => {
                if !(kind is Var) {
                    lemma_declare_nonfree(prev.0, name.sym, prev.1);
                }
            },
            _ => {},
        }
    }
}


/// The frame is a well-formed scope: its names are pairwise distinct, its
/// tags are pairwise distinct, and every tag lies below the counter.
pub open spec fn frame_tags_bounded(f: SpecFrame, next: u32) -> bool {
    &&& (forall|i: int| 0 <= i < f.len() ==> (#[trigger] f[i]).1 < next)
    &&& (forall|i: int, j: int| 0 <= i < j < f.len() ==> f[i].1 != f[j].1)
    &&& (forall|i: int, j: int| 0 <= i < j < f.len() ==> f[i].0 != f[j].0)
}

proof fn lemma_frame_lookup_found(f: SpecFrame, name: Seq<char>)
    requires
        spec_frame_lookup(f, name) is None,
    ensures
        forall|i: int| 0 <= i < f.len() ==> (#[trigger] f[i]).0 != name,
    decreases f.len(),
{
    if f.len() > 0 {
        lemma_frame_lookup_found(f.drop_first(), name);
        assert forall|i: int| 0 <= i < f.len() implies (#[trigger] f[i]).0 != name by {
            if i > 0 {
                assert(f.drop_first()[i - 1] == f[i]);
            }
        }
    }
}

proof fn lemma_declare_bounded(f: SpecFrame, name: Seq<char>, next: u32)
    requires
        frame_tags_bounded(f, next),
        next < 0xffff_ffff,
    ensures
        frame_tags_bounded(spec_declare(f, name, next).0, spec_declare(f, name, next).1),
        spec_declare(f, name, next).1 >= next,
{
    if spec_frame_lookup(f, name) is None {
        lemma_frame_lookup_found(f, name);
        let f2 = f.push((name, next));
        assert forall|i: int, j: int| 0 <= i < j < f2.len() implies f2[i].1 != f2[j].1 && f2[i].0
            != f2[j].0 by {
            if j < f.len() {
                assert(f2[i] == f[i] && f2[j] == f[j]);
            } else {
                assert(f2[i] == f[i] && f2[j] == (name, next));
            }
        }
    }
}

proof fn lemma_import_locals_bounded(specs: Seq<SpecImportSpec>, f: SpecFrame, next: u32)
    requires
        frame_tags_bounded(f, next),
        spec_import_locals(specs, f, next).1 < 0xffff_ffff,
    ensures
        frame_tags_bounded(
            spec_import_locals(specs, f, next).0,
            spec_import_locals(specs, f, next).1,
        ),
        spec_import_locals(specs, f, next).1 >= next,
    decreases specs,
{
    if specs.len() > 0 {
        let prev = spec_import_locals(specs.drop_last(), f, next);
        let local = match specs.last() {
            SpecImportSpec::Default { local } => local,
            SpecImportSpec::Named { local, imported: _ } => local,
            SpecImportSpec::Star { local } => local,
        };
        assert(spec_declare(prev.0, local.sym, prev.1).1 >= prev.1);
        lemma_import_locals_bounded(specs.drop_last(), f, next);
        lemma_declare_bounded(prev.0, local.sym, prev.1);
    }
}

proof fn lemma_stmt_decls_bounded(s: SpecStmt, f: SpecFrame, next: u32, top: bool)
    requires
        frame_tags_bounded(f, next),
        spec_stmt_decls(s, f, next, top).1 < 0xffff_ffff,
    ensures
        frame_tags_bounded(
            spec_stmt_decls(s, f, next, top).0,
            spec_stmt_decls(s, f, next, top).1,
        ),
        spec_stmt_decls(s, f, next, top).1 >= next,
    decreases s,
{
    match s {
        SpecStmt::Decl { kind, name, init: _ } => {
            if kind is Var || top {
                lemma_declare_bounded(f, name.sym, next);
            }
        },
        SpecStmt::If { cond: _, cons } => {
            lemma_stmts_decls_bounded(cons, f, next);
        },
        _ => {},
    }
}

proof fn lemma_stmts_decls_bounded(ss: Seq<SpecStmt>, f: SpecFrame, next: u32)
    requires
        frame_tags_bounded(f, next),
        spec_stmts_decls(ss, f, next).1 < 0xffff_ffff,
    ensures
        frame_tags_bounded(spec_stmts_decls(ss, f, next).0, spec_stmts_decls(ss, f, next).1),
        spec_stmts_decls(ss, f, next).1 >= next,
    decreases ss,
{
    if ss.len() > 0 {
        let prev = spec_stmts_decls(ss.drop_last(), f, next);
        assert(spec_stmt_decls(ss.last(), prev.0, prev.1, false).1 >= prev.1) by {
            lemma_stmt_decls_monotone(ss.last(), prev.0, prev.1, false);
        }
        lemma_stmts_decls_bounded(ss.drop_last(), f, next);
        lemma_stmt_decls_bounded(ss.last(), prev.0, prev.1, false);
    }
}

proof fn lemma_stmt_decls_monotone(s: SpecStmt, f: SpecFrame, next: u32, top: bool)
    ensures
        spec_stmt_decls(s, f, next, top).1 >= next,
    decreases s,
{
    match s {
        SpecStmt::If { cond: _, cons } => {
            lemma_stmts_decls_monotone(cons, f, next);
        },
        _ => {},
    }
}

proof fn lemma_stmts_decls_monotone(ss: Seq<SpecStmt>, f: SpecFrame, next: u32)
    ensures
        spec_stmts_decls(ss, f, next).1 >= next,
    decreases ss,
{
    if ss.len() > 0 {
        let prev = spec_stmts_decls(ss.drop_last(), f, next);
        lemma_stmts_decls_monotone(ss.drop_last(), f, next);
        lemma_stmt_decls_monotone(ss.last(), prev.0, prev.1, false);
    }
}

proof fn lemma_import_locals_monotone(specs: Seq<SpecImportSpec>, f: SpecFrame, next: u32)
    ensures
        spec_import_locals(specs, f, next).1 >= next,
    decreases specs,
{
    if specs.len() > 0 {
        lemma_import_locals_monotone(specs.drop_last(), f, next);
    }
}

proof fn lemma_module_frame_monotone(items: Seq<SpecModuleItem>, f: SpecFrame, next: u32)
    ensures
        spec_module_frame(items, f, next).1 >= next,
    decreases items,
{
    if items.len() > 0 {
        let prev = spec_module_frame(items.drop_last(), f, next);
        lemma_module_frame_monotone(items.drop_last(), f, next);
        match items.last() {
            SpecModuleItem::Import { specifiers, src: _ } => {
                lemma_import_locals_monotone(specifiers, prev.0, prev.1);
            },
            SpecModuleItem::NamedExport { .. } => {},
            SpecModuleItem::Stmt(s) => {
                lemma_stmt_decls_monotone(s, prev.0, prev.1, true);
            },
        }
    }
}

/// Law: while the tag counter has not saturated, the module scope binds
/// pairwise-distinct names to pairwise-distinct tags: within the scope,
/// equal non-free tags mean the same declaration.
pub proof fn lemma_module_scope_tags_distinct(items: Seq<SpecModuleItem>)
    requires
        spec_module_frame(items, Seq::empty(), 1).1 < 0xffff_ffff,
    ensures
        frame_tags_bounded(
            spec_module_frame(items, Seq::empty(), 1).0,
            spec_module_frame(items, Seq::empty(), 1).1,
        ),
    decreases items,
{
    lemma_module_frame_bounded(items, Seq::empty(), 1);
}

proof fn lemma_module_frame_bounded(items: Seq<SpecModuleItem>, f: SpecFrame, next: u32)
    requires
        frame_tags_bounded(f, next),
        spec_module_frame(items, f, next).1 < 0xffff_ffff,
    ensures
        frame_tags_bounded(
            spec_module_frame(items, f, next).0,
            spec_module_frame(items, f, next).1,
        ),
        spec_module_frame(items, f, next).1 >= next,
    decreases items,
{
    if items.len() > 0 {
        let prev = spec_module_frame(items.drop_last(), f, next);
        match items.last() {
            SpecModuleItem::Import { specifiers, src: _ } => {
                lemma_import_locals_monotone(specifiers, prev.0, prev.1);
                lemma_module_frame_bounded(items.drop_last(), f, next);
                lemma_import_locals_bounded(specifiers, prev.0, prev.1);
            },
            SpecModuleItem::NamedExport { .. } => {
                lemma_module_frame_bounded(items.drop_last(), f, next);
            },
            SpecModuleItem::Stmt(s) => {
                lemma_stmt_decls_monotone(s, prev.0, prev.1, true);
                lemma_module_frame_bounded(items.drop_last(), f, next);
                lemma_stmt_decls_bounded(s, prev.0, prev.1, true);
            },
        }
    }
}

/// Law: a block scope is likewise bound with distinct names and tags while
/// the counter has not saturated.
pub proof fn lemma_block_frame_tags_distinct(ss: Seq<SpecStmt>, f: SpecFrame, next: u32)
    requires
        frame_tags_bounded(f, next),
        spec_block_frame(ss, f, next).1 < 0xffff_ffff,
    ensures
        frame_tags_bounded(spec_block_frame(ss, f, next).0, spec_block_frame(ss, f, next).1),
        spec_block_frame(ss, f, next).1 >= next,
    decreases ss,
{
    if ss.len() > 0 {
        let prev = spec_block_frame(ss.drop_last(), f, next);
        match ss.last() {
            SpecStmt::Decl { kind, name, init: _ } => {
                if !(kind is Var) {
                    assert(spec_declare(prev.0, name.sym, prev.1).1 >= prev.1);
                    lemma_block_frame_tags_distinct(ss.drop_last(), f, next);
                    lemma_declare_bounded(prev.0, name.sym, prev.1);
                } else {
                    lemma_block_frame_tags_distinct(ss.drop_last(), f, next);
                }
            },
            _ => {
                lemma_block_frame_tags_distinct(ss.drop_last(), f, next);
            },
        }
    }
}

// ---------------------------------------------------------------------------
// Executable pass.
// ---------------------------------------------------------------------------

proof fn lemma_frame_lookup_miss(f: SpecFrame, name: Seq<char>, i: int)
    requires
        0 <= i < f.len(),
        f[i].0 != name,
    ensures
        spec_frame_lookup(f.skip(i), name) == spec_frame_lookup(f.skip(i + 1), name),
{
    assert(f.skip(i)[0] == f[i]);
    assert(f.skip(i).drop_first() =~= f.skip(i + 1));
}

proof fn lemma_frame_lookup_hit(f: SpecFrame, name: Seq<char>, i: int)
    requires
        0 <= i < f.len(),
        f[i].0 == name,
    ensures
        spec_frame_lookup(f.skip(i), name) == Some(f[i].1),
{
    assert(f.skip(i)[0] == f[i]);
}

fn frame_lookup(frame: &Frame, name: &String) -> (r: Option<u32>)
    ensures
        r == spec_frame_lookup(frame_of(frame@), name@),
{
    proof {
        assert(frame_of(frame@).skip(0) =~= frame_of(frame@));
    }
    let ghost fv = frame_of(frame@);
    let mut i: usize = 0;
    while i < frame.len()
        invariant
            i <= frame@.len(),
            fv == frame_of(frame@),
            fv.len() == frame@.len(),
            spec_frame_lookup(fv, name@) == spec_frame_lookup(fv.skip(i as int), name@),
        decreases frame@.len() - i,
    {
        proof {
            assert(fv[i as int] == (frame@[i as int].0@, frame@[i as int].1));
        }
        if frame[i].0.eq(name) {
            proof {
                lemma_frame_lookup_hit(fv, name@, i as int);
            }
            return Some(frame[i].1);
        }
        proof {
            lemma_frame_lookup_miss(fv, name@, i as int);
        }
        i = i + 1;
    }
    proof {
        assert(fv.skip(frame@.len() as int).len() == 0);
    }
    None
}

/// Looks a name up through the scope stack, innermost frame first; a name
/// no frame declares is free.
#[verifier::loop_isolation(false)]
fn lookup_tag(frames: &Vec<Frame>, name: &String) -> (r: u32)
    ensures
        r == spec_lookup_tag(frames_of(frames@), name@),
{
    let ghost fsv = frames_of(frames@);
    proof {
        assert(fsv.take(frames@.len() as int) =~= fsv);
    }
    let mut i: usize = frames.len();
    while i > 0
        invariant
            i <= frames@.len(),
            fsv == frames_of(frames@),
            fsv.len() == frames@.len(),
            spec_lookup_tag(fsv, name@) == spec_lookup_tag(fsv.take(i as int), name@),
        decreases i,
    {
        i = i - 1;
        proof {
            assert(fsv.take(i as int + 1).last() == fsv[i as int]);
            assert(fsv.take(i as int + 1).drop_last() =~= fsv.take(i as int));
            assert(fsv[i as int] == frame_of(frames@[i as int]@));
        }
        match frame_lookup(&frames[i], name) {
            Some(t) => {
                return t;
            },
            None => {},
        }
    }
    proof {
        assert(fsv.take(0).len() == 0);
    }
    FREE_TAG
}

fn declare(frame: &mut Frame, name: &String, next_tag: &mut u32)
    ensures
        frame_of(final(frame)@) == spec_declare(
            frame_of(old(frame)@),
            name@,
            *old(next_tag),
        ).0,
        *final(next_tag) == spec_declare(frame_of(old(frame)@), name@, *old(next_tag)).1,
{
    match frame_lookup(frame, name) {
        Some(_) => {},
        None => {
            let tag = *next_tag;
            if *next_tag < 0xffff_ffff {
                *next_tag = *next_tag + 1;
            }
            frame.push((name.clone(), tag));
            proof {
                assert(frame_of(frame@) =~= frame_of(old(frame)@).push((name@, tag)));
            }
        },
    }
}

/// Gathers the declarations a statement contributes to the enclosing
/// scope.
#[verifier::loop_isolation(false)]
fn collect_stmt_decls(s: &Stmt, frame: &mut Frame, next_tag: &mut u32, top: bool)
    ensures
        frame_of(final(frame)@) == spec_stmt_decls(
            s@,
            frame_of(old(frame)@),
            *old(next_tag),
            top,
        ).0,
        *final(next_tag) == spec_stmt_decls(s@, frame_of(old(frame)@), *old(next_tag), top).1,
    decreases *s,
{
    match s {
        Stmt::Decl { kind, name, init: _ } => {
            let hoisted = match kind {
                VarKind::Var => true,
                _ => top,
            };
            if hoisted {
                declare(frame, &name.sym, next_tag);
            }
        },
        Stmt::If { cond: _, cons } => {
            proof {
                assert(decreases_to!(*s => s->If_cons));
                assert(decreases_to!(*cons => cons@));
                broadcast use lemma_view_stmts;

            }
            let ghost f0 = frame_of(frame@);
            let ghost n0 = *next_tag;
            let ghost vs = view_stmts(cons@);
            let mut i: usize = 0;
            while i < cons.len()
                invariant
                    i <= cons@.len(),
                    vs == view_stmts(cons@),
                    vs.len() == cons@.len(),
                    frame_of(frame@) == spec_stmts_decls(vs.take(i as int), f0, n0).0,
                    *next_tag == spec_stmts_decls(vs.take(i as int), f0, n0).1,
                decreases cons@.len() - i,
            {
                proof {
                    assert(decreases_to!(cons@ => cons@[i as int]));
                    assert(vs.take(i as int + 1).drop_last() =~= vs.take(i as int));
                    assert(vs.take(i as int + 1).last() == view_stmt(cons@[i as int]));
                }
                collect_stmt_decls(&cons[i], frame, next_tag, false);
                i = i + 1;
            }
            proof {
                assert(vs.take(cons@.len() as int) =~= vs);
            }
        },
        _ => {},
    }
}

/// Gathers the module-scope declarations.
#[verifier::loop_isolation(false)]
fn collect_module_frame(m: &JsModule, next_tag: &mut u32) -> (r: Frame)
    ensures
        frame_of(r@) == spec_module_frame(m@.body, Seq::empty(), *old(next_tag)).0,
        *final(next_tag) == spec_module_frame(m@.body, Seq::empty(), *old(next_tag)).1,
{
    let ghost n0 = *next_tag;
    let mut frame: Frame = Vec::new();
    proof {
        assert(frame_of(frame@) =~= Seq::<(Seq<char>, u32)>::empty());
    }
    let mut i: usize = 0;
    while i < m.body.len()
        invariant
            i <= m.body@.len(),
            m@.body.len() == m.body@.len(),
            frame_of(frame@) == spec_module_frame(m@.body.take(i as int), Seq::empty(), n0).0,
            *next_tag == spec_module_frame(m@.body.take(i as int), Seq::empty(), n0).1,
        decreases m.body@.len() - i,
    {
        proof {
            assert(m@.body.take(i as int + 1).drop_last() =~= m@.body.take(i as int));
            assert(m@.body.take(i as int + 1).last() == m.body@[i as int]@);
        }
        match &m.body[i] {
            ModuleItem::Import { specifiers, src: _ } => {
                let ghost f1 = frame_of(frame@);
                let ghost n1 = *next_tag;
                let ghost sv = m.body@[i as int]@->Import_specifiers;
                proof {
                    assert(sv == specifiers@.map_values(
                        |sp: ImportSpec| view_import_spec(sp),
                    ));
                }
                let mut j: usize = 0;
                while j < specifiers.len()
                    invariant
                        j <= specifiers@.len(),
                        sv.len() == specifiers@.len(),
                        forall|k: int|
                            0 <= k < sv.len() ==> sv[k] == view_import_spec(specifiers@[k]),
                        frame_of(frame@) == spec_import_locals(sv.take(j as int), f1, n1).0,
                        *next_tag == spec_import_locals(sv.take(j as int), f1, n1).1,
                    decreases specifiers@.len() - j,
                {
                    proof {
                        assert(sv.take(j as int + 1).drop_last() =~= sv.take(j as int));
                        assert(sv.take(j as int + 1).last() == view_import_spec(
                            specifiers@[j as int],
                        ));
                    }
                    let local = match &specifiers[j] {
                        ImportSpec::Default { local } => local,
                        ImportSpec::Named { local, imported: _ } => local,
                        ImportSpec::Star { local } => local,
                    };
                    declare(&mut frame, &local.sym, next_tag);
                    j = j + 1;
                }
                proof {
                    assert(sv.take(specifiers@.len() as int) =~= sv);
                }
            },
            ModuleItem::NamedExport { .. } => {},
            ModuleItem::Stmt(s) => {
                collect_stmt_decls(s, &mut frame, next_tag, true);
            },
        }
        i = i + 1;
    }
    proof {
        assert(m@.body.take(m.body@.len() as int) =~= m@.body);
    }
    frame
}

/// Gathers the block-scoped (`let`, `const`) declarations of one block.
#[verifier::loop_isolation(false)]
fn collect_block_frame(ss: &Vec<Stmt>, next_tag: &mut u32) -> (r: Frame)
    ensures
        frame_of(r@) == spec_block_frame(view_stmts(ss@), Seq::empty(), *old(next_tag)).0,
        *final(next_tag) == spec_block_frame(view_stmts(ss@), Seq::empty(), *old(next_tag)).1,
{
    let ghost n0 = *next_tag;
    let ghost vs = view_stmts(ss@);
    proof {
        broadcast use lemma_view_stmts;

    }
    let mut frame: Frame = Vec::new();
    proof {
        assert(frame_of(frame@) =~= Seq::<(Seq<char>, u32)>::empty());
    }
    let mut i: usize = 0;
    while i < ss.len()
        invariant
            i <= ss@.len(),
            vs == view_stmts(ss@),
            vs.len() == ss@.len(),
            frame_of(frame@) == spec_block_frame(vs.take(i as int), Seq::empty(), n0).0,
            *next_tag == spec_block_frame(vs.take(i as int), Seq::empty(), n0).1,
        decreases ss@.len() - i,
    {
        proof {
            assert(vs.take(i as int + 1).drop_last() =~= vs.take(i as int));
            assert(vs.take(i as int + 1).last() == view_stmt(ss@[i as int]));
        }
        match &ss[i] {
            Stmt::Decl { kind, name, init: _ } => {
                let block_scoped = match kind {
                    VarKind::Var => false,
                    _ => true,
                };
                if block_scoped {
                    declare(&mut frame, &name.sym, next_tag);
                }
            },
            _ => {},
        }
        i = i + 1;
    }
    proof {
        assert(vs.take(ss@.len() as int) =~= vs);
    }
    frame
}

fn resolve_ident(frames: &Vec<Frame>, id: &Ident) -> (r: Ident)
    ensures
        view_ident(r) == spec_resolve_ident(frames_of(frames@), view_ident(*id)),
{
    Ident { sym: id.sym.clone(), tag: lookup_tag(frames, &id.sym) }
}

#[verifier::loop_isolation(false)]
fn resolve_expr(frames: &Vec<Frame>, e: &Expr) -> (r: Expr)
    ensures
        r@ == spec_resolve_expr(frames_of(frames@), e@),
    decreases *e,
{
    match e {
        Expr::Ident(id) => Expr::Ident(resolve_ident(frames, id)),
        Expr::Lit(l) => Expr::Lit(crate::ast::clone_lit(l)),
        Expr::ImportMeta => Expr::ImportMeta,
        Expr::Member { obj, prop } => Expr::Member {
            obj: Box::new(resolve_expr(frames, obj)),
            prop: resolve_member_prop(frames, prop),
        },
        Expr::Call { callee, args } => {
            proof {
                assert(decreases_to!(*e => e->Call_args));
                assert(decreases_to!(*args => args@));
            }
            let mut new_args: Vec<Expr> = Vec::new();
            let mut i: usize = 0;
            while i < args.len()
                invariant
                    i <= args@.len(),
                    new_args@.len() == i,
                    forall|j: int|
                        0 <= j < i ==> new_args@[j]@ == spec_resolve_expr(
                            frames_of(frames@),
                            args@[j]@,
                        ),
                decreases args@.len() - i,
            {
                proof {
                    assert(decreases_to!(args@ => args@[i as int]));
                }
                new_args.push(resolve_expr(frames, &args[i]));
                i = i + 1;
            }
            let r = Expr::Call { callee: Box::new(resolve_expr(frames, callee)), args: new_args };
            proof {
                broadcast use lemma_view_exprs, lemma_spec_resolve_exprs;

                match r {
                    Expr::Call { callee: _, args: ref a2 } => {
                        assert(view_exprs(a2@) =~= spec_resolve_exprs(
                            frames_of(frames@),
                            view_exprs(args@),
                        ));
                    },
                    _ => {},
                }
            }
            r
        },
        Expr::Bin { op: _, left, right } => Expr::Bin {
            op: crate::ast::BinOp::StrictEq,
            left: Box::new(resolve_expr(frames, left)),
            right: Box::new(resolve_expr(frames, right)),
        },
        Expr::Array { elems } => {
            proof {
                assert(decreases_to!(*e => e->Array_elems));
                assert(decreases_to!(*elems => elems@));
            }
            let mut new_elems: Vec<Expr> = Vec::new();
            let mut i: usize = 0;
            while i < elems.len()
                invariant
                    i <= elems@.len(),
                    new_elems@.len() == i,
                    forall|j: int|
                        0 <= j < i ==> new_elems@[j]@ == spec_resolve_expr(
                            frames_of(frames@),
                            elems@[j]@,
                        ),
                decreases elems@.len() - i,
            {
                proof {
                    assert(decreases_to!(elems@ => elems@[i as int]));
                }
                new_elems.push(resolve_expr(frames, &elems[i]));
                i = i + 1;
            }
            let r = Expr::Array { elems: new_elems };
            proof {
                broadcast use lemma_view_exprs, lemma_spec_resolve_exprs;

                match r {
                    Expr::Array { elems: ref e2 } => {
                        assert(view_exprs(e2@) =~= spec_resolve_exprs(
                            frames_of(frames@),
                            view_exprs(elems@),
                        ));
                    },
                    _ => {},
                }
            }
            r
        },
        Expr::Object { props } => {
            proof {
                assert(decreases_to!(*e => e->Object_props));
                assert(decreases_to!(*props => props@));
            }
            let mut new_props: Vec<ObjProp> = Vec::new();
            let mut i: usize = 0;
            while i < props.len()
                invariant
                    i <= props@.len(),
                    new_props@.len() == i,
                    forall|j: int|
                        0 <= j < i ==> new_props@[j].key@ == props@[j].key@
                            && new_props@[j].value@ == spec_resolve_expr(
                            frames_of(frames@),
                            props@[j].value@,
                        ),
                decreases props@.len() - i,
            {
                proof {
                    assert(decreases_to!(props@ => props@[i as int]));
                    assert(decreases_to!(props@[i as int] => props@[i as int].value));
                }
                new_props.push(
                    ObjProp {
                        key: props[i].key.clone(),
                        value: resolve_expr(frames, &props[i].value),
                    },
                );
                i = i + 1;
            }
            let r = Expr::Object { props: new_props };
            proof {
                broadcast use lemma_view_props, lemma_spec_resolve_props;

                match r {
                    Expr::Object { props: ref p2 } => {
                        assert(view_props(p2@) =~= spec_resolve_props(
                            frames_of(frames@),
                            view_props(props@),
                        ));
                    },
                    _ => {},
                }
            }
            r
        },
    }
}

fn resolve_member_prop(frames: &Vec<Frame>, p: &MemberProp) -> (r: MemberProp)
    ensures
        view_member_prop(r) == spec_resolve_member_prop(
            frames_of(frames@),
            view_member_prop(*p),
        ),
    decreases *p,
{
    match p {
        MemberProp::Ident(name) => MemberProp::Ident(name.clone()),
        MemberProp::Computed(k) => MemberProp::Computed(Box::new(resolve_expr(frames, k))),
    }
}

#[verifier::loop_isolation(false)]
fn resolve_stmt(frames: &mut Vec<Frame>, s: &Stmt, next_tag: &mut u32) -> (r: Stmt)
    ensures
        final(frames)@ == old(frames)@,
        r@ == spec_resolve_stmt(frames_of(old(frames)@), s@, *old(next_tag)).0,
        *final(next_tag) == spec_resolve_stmt(frames_of(old(frames)@), s@, *old(next_tag)).1,
    decreases *s,
{
    match s {
        Stmt::Decl { kind, name, init } => Stmt::Decl {
            kind: clone_var_kind(kind),
            name: resolve_ident(frames, name),
            init: match init {
                Some(e) => Some(resolve_expr(frames, e)),
                None => None,
            },
        },
        Stmt::Expr { expr } => Stmt::Expr { expr: resolve_expr(frames, expr) },
        Stmt::If { cond, cons } => {
            proof {
                assert(decreases_to!(*s => s->If_cons));
                assert(decreases_to!(*cons => cons@));
                broadcast use lemma_view_stmts;

            }
            let ghost fs0 = frames_of(frames@);
            let new_cond = resolve_expr(frames, cond);
            let block = collect_block_frame(cons, next_tag);
            let ghost n1 = *next_tag;
            frames.push(block);
            proof {
                assert(frames_of(frames@) =~= fs0.push(
                    spec_block_frame(view_stmts(cons@), Seq::empty(), *old(next_tag)).0,
                ));
            }
            let ghost fs1 = frames_of(frames@);
            let ghost inner = frames@;
            let ghost vs = view_stmts(cons@);
            let mut new_cons: Vec<Stmt> = Vec::new();
            let mut i: usize = 0;
            while i < cons.len()
                invariant
                    i <= cons@.len(),
                    frames@ == inner,
                    vs == view_stmts(cons@),
                    vs.len() == cons@.len(),
                    new_cons@.len() == i,
                    view_stmts(new_cons@) == spec_resolve_stmts(fs1, vs.take(i as int), n1).0,
                    *next_tag == spec_resolve_stmts(fs1, vs.take(i as int), n1).1,
                decreases cons@.len() - i,
            {
                proof {
                    assert(decreases_to!(cons@ => cons@[i as int]));
                    assert(vs.take(i as int + 1).drop_last() =~= vs.take(i as int));
                    assert(vs.take(i as int + 1).last() == view_stmt(cons@[i as int]));
                }
                let rs = resolve_stmt(frames, &cons[i], next_tag);
                new_cons.push(rs);
                proof {
                    assert(view_stmts(new_cons@) =~= spec_resolve_stmts(
                        fs1,
                        vs.take(i as int + 1),
                        n1,
                    ).0);
                }
                i = i + 1;
            }
            proof {
                assert(vs.take(cons@.len() as int) =~= vs);
            }
            frames.pop();
            proof {
                assert(frames@ =~= old(frames)@);
            }
            Stmt::If { cond: new_cond, cons: new_cons }
        },
        Stmt::Empty => Stmt::Empty,
    }
}

/// Resolves one module: the same tree with every identifier occurrence
/// tagged, exactly as `spec_resolve` describes.
#[verifier::loop_isolation(false)]
pub fn resolve(m: &JsModule) -> (r: JsModule)
    ensures
        r@ == spec_resolve(m@),
{
    let mut next_tag: u32 = 1;
    let module_frame = collect_module_frame(m, &mut next_tag);
    let mut frames: Vec<Frame> = Vec::new();
    frames.push(module_frame);
    proof {
        assert(frames_of(frames@) =~= seq![spec_module_frame(m@.body, Seq::empty(), 1).0]);
    }
    let ghost fs = frames_of(frames@);
    let ghost n1 = next_tag;
    let ghost outer = frames@;
    let mut body: Vec<ModuleItem> = Vec::new();
    let mut i: usize = 0;
    while i < m.body.len()
        invariant
            i <= m.body@.len(),
            m@.body.len() == m.body@.len(),
            frames@ == outer,
            fs == frames_of(frames@),
            body@.len() == i,
            view_items(body@) == spec_resolve_items(fs, m@.body.take(i as int), n1).0,
            next_tag == spec_resolve_items(fs, m@.body.take(i as int), n1).1,
        decreases m.body@.len() - i,
    {
        proof {
            assert(m@.body.take(i as int + 1).drop_last() =~= m@.body.take(i as int));
            assert(m@.body.take(i as int + 1).last() == m.body@[i as int]@);
        }
        let item: ModuleItem = match &m.body[i] {
            ModuleItem::Import { specifiers, src } => {
                let ghost sv = m.body@[i as int]@->Import_specifiers;
                proof {
                    assert(sv == specifiers@.map_values(
                        |sp: ImportSpec| view_import_spec(sp),
                    ));
                }
                let mut new_specs: Vec<ImportSpec> = Vec::new();
                let mut j: usize = 0;
                while j < specifiers.len()
                    invariant
                        j <= specifiers@.len(),
                        frames@ == outer,
                        fs == frames_of(frames@),
                        sv.len() == specifiers@.len(),
                        forall|k: int|
                            0 <= k < sv.len() ==> sv[k] == view_import_spec(specifiers@[k]),
                        new_specs@.len() == j,
                        forall|k: int|
                            0 <= k < j ==> view_import_spec(new_specs@[k])
                                == spec_resolve_import_spec(fs, sv[k]),
                    decreases specifiers@.len() - j,
                {
                    let ns = match &specifiers[j] {
                        ImportSpec::Default { local } => ImportSpec::Default {
                            local: resolve_ident(&frames, local),
                        },
                        ImportSpec::Named { local, imported } => ImportSpec::Named {
                            local: resolve_ident(&frames, local),
                            imported: clone_opt_str(imported),
                        },
                        ImportSpec::Star { local } => ImportSpec::Star {
                            local: resolve_ident(&frames, local),
                        },
                    };
                    new_specs.push(ns);
                    j = j + 1;
                }
                let it = ModuleItem::Import { specifiers: new_specs, src: src.clone() };
                proof {
                    match it {
                        ModuleItem::Import { specifiers: ref s2, src: _ } => {
                            assert(s2@.map_values(|sp: ImportSpec| view_import_spec(sp))
                                =~= sv.map_values(
                                |sp: SpecImportSpec| spec_resolve_import_spec(fs, sp),
                            ));
                        },
                        _ => {},
                    }
                }
                it
            },
            ModuleItem::NamedExport { specifiers, src } => {
                let ghost sv = m.body@[i as int]@->NamedExport_specifiers;
                proof {
                    assert(sv == specifiers@.map_values(
                        |sp: ExportSpec| crate::ast::view_export_spec(sp),
                    ));
                }
                let mut new_specs: Vec<ExportSpec> = Vec::new();
                let mut j: usize = 0;
                while j < specifiers.len()
                    invariant
                        j <= specifiers@.len(),
                        frames@ == outer,
                        fs == frames_of(frames@),
                        sv.len() == specifiers@.len(),
                        forall|k: int|
                            0 <= k < sv.len() ==> sv[k] == crate::ast::view_export_spec(
                                specifiers@[k],
                            ),
                        new_specs@.len() == j,
                        forall|k: int|
                            0 <= k < j ==> crate::ast::view_export_spec(new_specs@[k])
                                == (crate::ast::SpecExportSpec {
                                orig: spec_resolve_ident(fs, sv[k].orig),
                                exported: sv[k].exported,
                            }),
                    decreases specifiers@.len() - j,
                {
                    let sp = &specifiers[j];
                    new_specs.push(
                        ExportSpec {
                            orig: resolve_ident(&frames, &sp.orig),
                            exported: clone_opt_str(&sp.exported),
                        },
                    );
                    j = j + 1;
                }
                let it = ModuleItem::NamedExport {
                    specifiers: new_specs,
                    src: clone_opt_str(src),
                };
                proof {
                    match it {
                        ModuleItem::NamedExport { specifiers: ref s2, src: _ } => {
                            assert(s2@.map_values(
                                |sp: ExportSpec| crate::ast::view_export_spec(sp),
                            ) =~= sv.map_values(
                                |sp: crate::ast::SpecExportSpec| crate::ast::SpecExportSpec {
                                    orig: spec_resolve_ident(fs, sp.orig),
                                    exported: sp.exported,
                                },
                            ));
                        },
                        _ => {},
                    }
                }
                it
            },
            ModuleItem::Stmt(s) => ModuleItem::Stmt(resolve_stmt(&mut frames, s, &mut next_tag)),
        };
        body.push(item);
        proof {
            assert(view_items(body@) =~= spec_resolve_items(
                fs,
                m@.body.take(i as int + 1),
                n1,
            ).0);
        }
        i = i + 1;
    }
    let r = JsModule { body };
    proof {
        assert(m@.body.take(m.body@.len() as int) =~= m@.body);
        assert(r@.body =~= spec_resolve(m@).body);
    }
    r
}

} // verus!
