use vstd::prelude::*;

verus! {

broadcast use vstd::std_specs::vec::group_vec_axioms;

// ---------------------------------------------------------------------------
// Mathematical models of the syntax tree.
//
// Every executable node type below has a spec mirror whose sequences are
// `Seq` and whose strings are `Seq<char>`; the `view_*` functions relate the
// two. Contracts of the rewrite passes are stated over the mirrors.
// ---------------------------------------------------------------------------

/// An identifier occurrence together with the scope tag the binding resolver
/// assigned to it. The tag `FREE_TAG` means the occurrence is not bound by
/// any enclosing declaration; two occurrences with the same other tag refer
/// to the same binding.
#[verifier::ext_equal]
pub struct SpecIdent {
    pub sym: Seq<char>,
    pub tag: u32,
}

#[verifier::ext_equal]
pub enum SpecLit {
    Str(Seq<char>),
    Num(Seq<char>),
    Bool(bool),
    Null,
}

#[verifier::ext_equal]
pub enum SpecMemberProp {
    Ident(Seq<char>),
    Computed(Box<SpecExpr>),
}

#[verifier::ext_equal]
pub struct SpecObjProp {
    pub key: Seq<char>,
    pub value: SpecExpr,
}

#[verifier::ext_equal]
pub enum SpecExpr {
    Ident(SpecIdent),
    Lit(SpecLit),
    /// The meta-property `import.meta`.
    ImportMeta,
    Member { obj: Box<SpecExpr>, prop: SpecMemberProp },
    Call { callee: Box<SpecExpr>, args: Seq<SpecExpr> },
    Bin { op: BinOp, left: Box<SpecExpr>, right: Box<SpecExpr> },
    Array { elems: Seq<SpecExpr> },
    Object { props: Seq<SpecObjProp> },
}

#[verifier::ext_equal]
pub enum SpecStmt {
    Decl { kind: VarKind, name: SpecIdent, init: Option<SpecExpr> },
    Expr { expr: SpecExpr },
    If { cond: SpecExpr, cons: Seq<SpecStmt> },
    Empty,
}

#[verifier::ext_equal]
pub enum SpecImportSpec {
    Default { local: SpecIdent },
    Named { local: SpecIdent, imported: Option<Seq<char>> },
    Star { local: SpecIdent },
}

/// One `orig as exported` entry of a named export.
#[verifier::ext_equal]
pub struct SpecExportSpec {
    pub orig: SpecIdent,
    pub exported: Option<Seq<char>>,
}

#[verifier::ext_equal]
pub enum SpecModuleItem {
    Import { specifiers: Seq<SpecImportSpec>, src: Seq<char> },
    NamedExport { specifiers: Seq<SpecExportSpec>, src: Option<Seq<char>> },
    Stmt(SpecStmt),
}

#[verifier::ext_equal]
pub struct SpecJsModule {
    pub body: Seq<SpecModuleItem>,
}

// ---------------------------------------------------------------------------
// Executable syntax tree.
// ---------------------------------------------------------------------------

pub struct Ident {
    pub sym: String,
    pub tag: u32,
}

pub enum Lit {
    Str(String),
    /// A numeric literal, kept as its source text.
    Num(String),
    Bool(bool),
    Null,
}

/// The kind keyword of a variable declaration.
pub enum VarKind {
    Var,
    Let,
    Const,
}

pub enum BinOp {
    /// The operator `===`.
    StrictEq,
}

pub enum MemberProp {
    Ident(String),
    Computed(Box<Expr>),
}

pub struct ObjProp {
    pub key: String,
    pub value: Expr,
}

pub enum Expr {
    Ident(Ident),
    Lit(Lit),
    ImportMeta,
    Member { obj: Box<Expr>, prop: MemberProp },
    Call { callee: Box<Expr>, args: Vec<Expr> },
    Bin { op: BinOp, left: Box<Expr>, right: Box<Expr> },
    Array { elems: Vec<Expr> },
    Object { props: Vec<ObjProp> },
}

pub enum Stmt {
    Decl { kind: VarKind, name: Ident, init: Option<Expr> },
    Expr { expr: Expr },
    If { cond: Expr, cons: Vec<Stmt> },
    Empty,
}

pub enum ImportSpec {
    Default { local: Ident },
    Named { local: Ident, imported: Option<String> },
    Star { local: Ident },
}

pub struct ExportSpec {
    pub orig: Ident,
    pub exported: Option<String>,
}

pub enum ModuleItem {
    Import { specifiers: Vec<ImportSpec>, src: String },
    NamedExport { specifiers: Vec<ExportSpec>, src: Option<String> },
    Stmt(Stmt),
}

/// One module's syntax tree: the sequence of its top-level items.
pub struct JsModule {
    pub body: Vec<ModuleItem>,
}

// ---------------------------------------------------------------------------
// Views.
// ---------------------------------------------------------------------------

pub open spec fn view_ident(i: Ident) -> SpecIdent {
    SpecIdent { sym: i.sym@, tag: i.tag }
}

pub open spec fn view_lit(l: Lit) -> SpecLit {
    match l {
        Lit::Str(s) => SpecLit::Str(s@),
        Lit::Num(s) => SpecLit::Num(s@),
        Lit::Bool(b) => SpecLit::Bool(b),
        Lit::Null => SpecLit::Null,
    }
}

pub open spec fn view_opt_str(s: Option<String>) -> Option<Seq<char>> {
    match s {
        Some(s) => Some(s@),
        None => None,
    }
}

pub open spec fn view_expr(e: Expr) -> SpecExpr
    decreases e,
{
    match e {
        Expr::Ident(i) => SpecExpr::Ident(view_ident(i)),
        Expr::Lit(l) => SpecExpr::Lit(view_lit(l)),
        Expr::ImportMeta => SpecExpr::ImportMeta,
        Expr::Member { obj, prop } => SpecExpr::Member {
            obj: Box::new(view_expr(*obj)),
            prop: view_member_prop(prop),
        },
        Expr::Call { callee, args } => {
            proof {
                assert(decreases_to!(args => args@));
            }
            SpecExpr::Call { callee: Box::new(view_expr(*callee)), args: view_exprs(args@) }
        },
        Expr::Bin { op, left, right } => SpecExpr::Bin {
            op,
            left: Box::new(view_expr(*left)),
            right: Box::new(view_expr(*right)),
        },
        Expr::Array { elems } => {
            proof {
                assert(decreases_to!(elems => elems@));
            }
            SpecExpr::Array { elems: view_exprs(elems@) }
        },
        Expr::Object { props } => {
            proof {
                assert(decreases_to!(props => props@));
            }
            SpecExpr::Object { props: view_props(props@) }
        },
    }
}

pub open spec fn view_member_prop(p: MemberProp) -> SpecMemberProp
    decreases p,
{
    match p {
        MemberProp::Ident(s) => SpecMemberProp::Ident(s@),
        MemberProp::Computed(e) => SpecMemberProp::Computed(Box::new(view_expr(*e))),
    }
}

pub open spec fn view_exprs(es: Seq<Expr>) -> Seq<SpecExpr>
    decreases es,
{
    if es.len() == 0 {
        Seq::empty()
    } else {
        view_exprs(es.drop_last()).push(view_expr(es.last()))
    }
}

pub open spec fn view_props(ps: Seq<ObjProp>) -> Seq<SpecObjProp>
    decreases ps,
{
    if ps.len() == 0 {
        Seq::empty()
    } else {
        view_props(ps.drop_last()).push(
            SpecObjProp { key: ps.last().key@, value: view_expr(ps.last().value) },
        )
    }
}

pub broadcast proof fn lemma_view_exprs(es: Seq<Expr>)
    ensures
        (#[trigger] view_exprs(es)).len() == es.len(),
        forall|i: int| 0 <= i < es.len() ==> view_exprs(es)[i] == view_expr(es[i]),
    decreases es.len(),
{
    if es.len() > 0 {
        lemma_view_exprs(es.drop_last());
    }
}

pub broadcast proof fn lemma_view_props(ps: Seq<ObjProp>)
    ensures
        (#[trigger] view_props(ps)).len() == ps.len(),
        forall|i: int| 0 <= i < ps.len() ==> view_props(ps)[i] == (SpecObjProp {
            key: ps[i].key@,
            value: view_expr(ps[i].value),
        }),
    decreases ps.len(),
{
    if ps.len() > 0 {
        lemma_view_props(ps.drop_last());
    }
}

pub open spec fn view_opt_expr(e: Option<Expr>) -> Option<SpecExpr> {
    match e {
        Some(e) => Some(view_expr(e)),
        None => None,
    }
}

pub open spec fn view_stmt(s: Stmt) -> SpecStmt
    decreases s,
{
    match s {
        Stmt::Decl { kind, name, init } => SpecStmt::Decl {
            kind,
            name: view_ident(name),
            init: view_opt_expr(init),
        },
        Stmt::Expr { expr } => SpecStmt::Expr { expr: view_expr(expr) },
        Stmt::If { cond, cons } => {
            proof {
                assert(decreases_to!(cons => cons@));
            }
            SpecStmt::If { cond: view_expr(cond), cons: view_stmts(cons@) }
        },
        Stmt::Empty => SpecStmt::Empty,
    }
}

pub open spec fn view_stmts(ss: Seq<Stmt>) -> Seq<SpecStmt>
    decreases ss,
{
    if ss.len() == 0 {
        Seq::empty()
    } else {
        view_stmts(ss.drop_last()).push(view_stmt(ss.last()))
    }
}

pub broadcast proof fn lemma_view_stmts(ss: Seq<Stmt>)
    ensures
        (#[trigger] view_stmts(ss)).len() == ss.len(),
        forall|i: int| 0 <= i < ss.len() ==> view_stmts(ss)[i] == view_stmt(ss[i]),
    decreases ss.len(),
{
    if ss.len() > 0 {
        lemma_view_stmts(ss.drop_last());
    }
}

pub open spec fn view_import_spec(s: ImportSpec) -> SpecImportSpec {
    match s {
        ImportSpec::Default { local } => SpecImportSpec::Default { local: view_ident(local) },
        ImportSpec::Named { local, imported } => SpecImportSpec::Named {
            local: view_ident(local),
            imported: view_opt_str(imported),
        },
        ImportSpec::Star { local } => SpecImportSpec::Star { local: view_ident(local) },
    }
}

pub open spec fn view_export_spec(s: ExportSpec) -> SpecExportSpec {
    SpecExportSpec { orig: view_ident(s.orig), exported: view_opt_str(s.exported) }
}

pub open spec fn view_item(it: ModuleItem) -> SpecModuleItem {
    match it {
        ModuleItem::Import { specifiers, src } => SpecModuleItem::Import {
            specifiers: specifiers@.map_values(|s: ImportSpec| view_import_spec(s)),
            src: src@,
        },
        ModuleItem::NamedExport { specifiers, src } => SpecModuleItem::NamedExport {
            specifiers: specifiers@.map_values(|s: ExportSpec| view_export_spec(s)),
            src: view_opt_str(src),
        },
        ModuleItem::Stmt(s) => SpecModuleItem::Stmt(view_stmt(s)),
    }
}

pub open spec fn view_items(its: Seq<ModuleItem>) -> Seq<SpecModuleItem> {
    its.map_values(|it: ModuleItem| view_item(it))
}

impl View for Expr {
    type V = SpecExpr;

    open spec fn view(&self) -> SpecExpr {
        view_expr(*self)
    }
}

impl View for Stmt {
    type V = SpecStmt;

    open spec fn view(&self) -> SpecStmt {
        view_stmt(*self)
    }
}

impl View for ModuleItem {
    type V = SpecModuleItem;

    open spec fn view(&self) -> SpecModuleItem {
        view_item(*self)
    }
}

impl View for JsModule {
    type V = SpecJsModule;

    open spec fn view(&self) -> SpecJsModule {
        SpecJsModule { body: view_items(self.body@) }
    }
}

impl View for Ident {
    type V = SpecIdent;

    open spec fn view(&self) -> SpecIdent {
        view_ident(*self)
    }
}

// ---------------------------------------------------------------------------
// Cloning. The derived `Clone` tells Verus nothing, so each node kind gets a
// cloning function whose contract says the copy has the same view.
// ---------------------------------------------------------------------------

pub fn clone_ident(i: &Ident) -> (r: Ident)
    ensures
        view_ident(r) == view_ident(*i),
{
    Ident { sym: i.sym.clone(), tag: i.tag }
}

pub fn clone_lit(l: &Lit) -> (r: Lit)
    ensures
        view_lit(r) == view_lit(*l),
{
    match l {
        Lit::Str(s) => Lit::Str(s.clone()),
        Lit::Num(s) => Lit::Num(s.clone()),
        Lit::Bool(b) => Lit::Bool(*b),
        Lit::Null => Lit::Null,
    }
}

pub fn clone_opt_str(s: &Option<String>) -> (r: Option<String>)
    ensures
        view_opt_str(r) == view_opt_str(*s),
{
    match s {
        Some(s) => Some(s.clone()),
        None => None,
    }
}

#[verifier::loop_isolation(false)]
pub fn clone_expr(e: &Expr) -> (r: Expr)
    ensures
        r@ == e@,
    decreases *e,
{
    match e {
        Expr::Ident(i) => Expr::Ident(clone_ident(i)),
        Expr::Lit(l) => Expr::Lit(clone_lit(l)),
        Expr::ImportMeta => Expr::ImportMeta,
        Expr::Member { obj, prop } => Expr::Member {
            obj: Box::new(clone_expr(obj)),
            prop: clone_member_prop(prop),
        },
        Expr::Call { callee, args } => {
            proof {
                assert(decreases_to!(*e => e->Call_args));
                assert(decreases_to!(*args => args@));
            }
            let r = Expr::Call { callee: Box::new(clone_expr(callee)), args: clone_exprs(args) };
            proof {
                match r {
                    Expr::Call { callee: ref c2, args: ref a2 } => {
                        assert(view_exprs(a2@) =~= view_exprs(args@)) by {
                            broadcast use lemma_view_exprs;

                        }
                    },
                    _ => {},
                }
            }
            r
        },
        Expr::Bin { op, left, right } => Expr::Bin {
            op: match op {
                BinOp::StrictEq => BinOp::StrictEq,
            },
            left: Box::new(clone_expr(left)),
            right: Box::new(clone_expr(right)),
        },
        Expr::Array { elems } => {
            proof {
                assert(decreases_to!(*e => e->Array_elems));
                assert(decreases_to!(*elems => elems@));
            }
            let r = Expr::Array { elems: clone_exprs(elems) };
            proof {
                match r {
                    Expr::Array { elems: ref e2 } => {
                        assert(view_exprs(e2@) =~= view_exprs(elems@)) by {
                            broadcast use lemma_view_exprs;

                        }
                    },
                    _ => {},
                }
            }
            r
        },
        Expr::Object { props } => {
            proof {
                assert(decreases_to!(*e => e->Object_props));
                assert(decreases_to!(*props => props@));
            }
            let r = Expr::Object { props: clone_props(props) };
            proof {
                match r {
                    Expr::Object { props: ref p2 } => {
                        assert(view_props(p2@) =~= view_props(props@)) by {
                            broadcast use lemma_view_props;

                        }
                    },
                    _ => {},
                }
            }
            r
        },
    }
}

pub fn clone_member_prop(p: &MemberProp) -> (r: MemberProp)
    ensures
        view_member_prop(r) == view_member_prop(*p),
    decreases *p,
{
    match p {
        MemberProp::Ident(s) => MemberProp::Ident(s.clone()),
        MemberProp::Computed(e) => MemberProp::Computed(Box::new(clone_expr(e))),
    }
}

#[verifier::loop_isolation(false)]
pub fn clone_exprs(es: &Vec<Expr>) -> (r: Vec<Expr>)
    ensures
        r@.len() == es@.len(),
        forall|i: int| 0 <= i < es@.len() ==> r@[i]@ == es@[i]@,
    decreases es@,
{
    let mut r: Vec<Expr> = Vec::new();
    let mut i: usize = 0;
    while i < es.len()
        invariant
            i <= es.len(),
            r@.len() == i,
            forall|j: int| 0 <= j < i ==> r@[j]@ == es@[j]@,
        decreases es.len() - i,
    {
        proof {
            assert(decreases_to!(es@ => es@[i as int]));
        }
        r.push(clone_expr(&es[i]));
        i = i + 1;
    }
    r
}

#[verifier::loop_isolation(false)]
pub fn clone_props(ps: &Vec<ObjProp>) -> (r: Vec<ObjProp>)
    ensures
        r@.len() == ps@.len(),
        forall|i: int|
            0 <= i < ps@.len() ==> r@[i].key@ == ps@[i].key@ && r@[i].value@ == ps@[i].value@,
    decreases ps@,
{
    let mut r: Vec<ObjProp> = Vec::new();
    let mut i: usize = 0;
    while i < ps.len()
        invariant
            i <= ps.len(),
            r@.len() == i,
            forall|j: int|
                0 <= j < i ==> r@[j].key@ == ps@[j].key@ && r@[j].value@ == ps@[j].value@,
        decreases ps.len() - i,
    {
        proof {
            assert(decreases_to!(ps@ => ps@[i as int]));
            assert(decreases_to!(ps@[i as int] => ps@[i as int].value));
        }
        let p = &ps[i];
        r.push(ObjProp { key: p.key.clone(), value: clone_expr(&p.value) });
        i = i + 1;
    }
    r
}

pub fn clone_opt_expr(e: &Option<Expr>) -> (r: Option<Expr>)
    ensures
        view_opt_expr(r) == view_opt_expr(*e),
{
    match e {
        Some(e) => Some(clone_expr(e)),
        None => None,
    }
}

pub fn clone_var_kind(k: &VarKind) -> (r: VarKind)
    ensures
        r == k,
{
    match k {
        VarKind::Var => VarKind::Var,
        VarKind::Let => VarKind::Let,
        VarKind::Const => VarKind::Const,
    }
}

#[verifier::loop_isolation(false)]
pub fn clone_stmt(s: &Stmt) -> (r: Stmt)
    ensures
        r@ == s@,
    decreases *s,
{
    match s {
        Stmt::Decl { kind, name, init } => Stmt::Decl {
            kind: clone_var_kind(kind),
            name: clone_ident(name),
            init: clone_opt_expr(init),
        },
        Stmt::Expr { expr } => Stmt::Expr { expr: clone_expr(expr) },
        Stmt::If { cond, cons } => {
            proof {
                assert(decreases_to!(*s => s->If_cons));
                assert(decreases_to!(*cons => cons@));
            }
            let r = Stmt::If { cond: clone_expr(cond), cons: clone_stmts(cons) };
            proof {
                match r {
                    Stmt::If { cond: _, cons: ref c2 } => {
                        assert(view_stmts(c2@) =~= view_stmts(cons@)) by {
                            broadcast use lemma_view_stmts;

                        }
                    },
                    _ => {},
                }
            }
            r
        },
        Stmt::Empty => Stmt::Empty,
    }
}

#[verifier::loop_isolation(false)]
pub fn clone_stmts(ss: &Vec<Stmt>) -> (r: Vec<Stmt>)
    ensures
        r@.len() == ss@.len(),
        forall|i: int| 0 <= i < ss@.len() ==> r@[i]@ == ss@[i]@,
    decreases ss@,
{
    let mut r: Vec<Stmt> = Vec::new();
    let mut i: usize = 0;
    while i < ss.len()
        invariant
            i <= ss.len(),
            r@.len() == i,
            forall|j: int| 0 <= j < i ==> r@[j]@ == ss@[j]@,
        decreases ss.len() - i,
    {
        proof {
            assert(decreases_to!(ss@ => ss@[i as int]));
        }
        r.push(clone_stmt(&ss[i]));
        i = i + 1;
    }
    r
}

pub fn clone_import_spec(s: &ImportSpec) -> (r: ImportSpec)
    ensures
        view_import_spec(r) == view_import_spec(*s),
{
    match s {
        ImportSpec::Default { local } => ImportSpec::Default { local: clone_ident(local) },
        ImportSpec::Named { local, imported } => ImportSpec::Named {
            local: clone_ident(local),
            imported: clone_opt_str(imported),
        },
        ImportSpec::Star { local } => ImportSpec::Star { local: clone_ident(local) },
    }
}

pub fn clone_export_spec(s: &ExportSpec) -> (r: ExportSpec)
    ensures
        view_export_spec(r) == view_export_spec(*s),
{
    ExportSpec { orig: clone_ident(&s.orig), exported: clone_opt_str(&s.exported) }
}

#[verifier::loop_isolation(false)]
pub fn clone_item(it: &ModuleItem) -> (r: ModuleItem)
    ensures
        r@ == it@,
{
    match it {
        ModuleItem::Import { specifiers, src } => {
            let mut sp: Vec<ImportSpec> = Vec::new();
            let mut i: usize = 0;
            while i < specifiers.len()
                invariant
                    i <= specifiers.len(),
                    sp@.len() == i,
                    forall|j: int|
                        0 <= j < i ==> view_import_spec(sp@[j]) == view_import_spec(
                            specifiers@[j],
                        ),
                decreases specifiers.len() - i,
            {
                sp.push(clone_import_spec(&specifiers[i]));
                i = i + 1;
            }
            let r = ModuleItem::Import { specifiers: sp, src: src.clone() };
            proof {
                match r {
                    ModuleItem::Import { specifiers: ref s2, src: _ } => {
                        assert(s2@.map_values(|s: ImportSpec| view_import_spec(s))
                            =~= specifiers@.map_values(|s: ImportSpec| view_import_spec(s)));
                    },
                    _ => {},
                }
            }
            r
        },
        ModuleItem::NamedExport { specifiers, src } => {
            let mut sp: Vec<ExportSpec> = Vec::new();
            let mut i: usize = 0;
            while i < specifiers.len()
                invariant
                    i <= specifiers.len(),
                    sp@.len() == i,
                    forall|j: int|
                        0 <= j < i ==> view_export_spec(sp@[j]) == view_export_spec(
                            specifiers@[j],
                        ),
                decreases specifiers.len() - i,
            {
                sp.push(clone_export_spec(&specifiers[i]));
                i = i + 1;
            }
            let r = ModuleItem::NamedExport { specifiers: sp, src: clone_opt_str(src) };
            proof {
                match r {
                    ModuleItem::NamedExport { specifiers: ref s2, src: _ } => {
                        assert(s2@.map_values(|s: ExportSpec| view_export_spec(s))
                            =~= specifiers@.map_values(|s: ExportSpec| view_export_spec(s)));
                    },
                    _ => {},
                }
            }
            r
        },
        ModuleItem::Stmt(s) => ModuleItem::Stmt(clone_stmt(s)),
    }
}

#[verifier::loop_isolation(false)]
pub fn clone_module(m: &JsModule) -> (r: JsModule)
    ensures
        r@ == m@,
{
    let mut body: Vec<ModuleItem> = Vec::new();
    let mut i: usize = 0;
    while i < m.body.len()
        invariant
            i <= m.body.len(),
            body@.len() == i,
            forall|j: int| 0 <= j < i ==> body@[j]@ == m.body@[j]@,
        decreases m.body.len() - i,
    {
        body.push(clone_item(&m.body[i]));
        i = i + 1;
    }
    let r = JsModule { body };
    proof {
        assert(view_items(r.body@) =~= view_items(m.body@));
    }
    r
}

} // verus!
