use vstd::prelude::*;
use vstd::string::StringExecFns;

use crate::ast::{
    Expr, ExportSpec, ImportSpec, JsModule, Lit, MemberProp, ModuleItem, Stmt, VarKind,
};

verus! {

broadcast use vstd::std_specs::vec::group_vec_axioms;

// ---------------------------------------------------------------------------
// Serializes a syntax tree back to source text: one top-level item per
// line, array and object literals over several lines with four-space
// indentation, strings double-quoted.
// ---------------------------------------------------------------------------

fn push_indent(out: &mut String, ind: usize) {
    let mut i: usize = 0;
    while i < ind
        decreases ind - i,
    {
        out.append(" ");
        i = i + 1;
    }
}

fn push_escaped(out: &mut String, s: &String) {
    out.append("\"");
    // The subset keeps string contents literal; escape the two characters
    // that could not stand inside a double-quoted literal.
    let bytes = s.as_str().as_bytes_vec();
    let mut i: usize = 0;
    let mut plain = true;
    while i < bytes.len()
        invariant
            i <= bytes@.len(),
        decreases bytes@.len() - i,
    {
        if bytes[i] == 34 || bytes[i] == 92 {
            plain = false;
        }
        i = i + 1;
    }
    if plain {
        out.append(s.as_str());
    } else {
        let mut i2: usize = 0;
        while i2 < bytes.len()
            invariant
                i2 <= bytes@.len(),
            decreases bytes@.len() - i2,
        {
            let b = bytes[i2];
            if b == 34 {
                out.append("\\\"");
            } else if b == 92 {
                out.append("\\\\");
            } else {
                let mut one: Vec<u8> = Vec::new();
                one.push(b);
                if b < 128 {
                    out.append(byte_str(&one).as_str());
                }
            }
            i2 = i2 + 1;
        }
    }
    out.append("\"");
}

/// Relies on `String::from_utf8`: the string of the given bytes, each
/// below 128, read as characters.
#[verifier::external_body]
fn byte_str(bytes: &Vec<u8>) -> (r: String)
    requires
        forall|i: int| 0 <= i < bytes@.len() ==> bytes@[i] < 128,
    ensures
        r@.len() == bytes@.len(),
        forall|i: int| 0 <= i < bytes@.len() ==> r@[i] == bytes@[i] as char,
{
    String::from_utf8(bytes.clone()).unwrap_or_default()
}

#[verifier::loop_isolation(false)]
fn print_expr(out: &mut String, e: &Expr, ind: usize)
    decreases *e,
{
    match e {
        Expr::Ident(id) => {
            out.append(id.sym.as_str());
        },
        Expr::Lit(l) => {
            match l {
                Lit::Str(s) => push_escaped(out, s),
                Lit::Num(n) => out.append(n.as_str()),
                Lit::Bool(b) => {
                    if *b {
                        out.append("true");
                    } else {
                        out.append("false");
                    }
                },
                Lit::Null => out.append("null"),
            }
        },
        Expr::ImportMeta => {
            out.append("import.meta");
        },
        Expr::Member { obj, prop } => {
            print_expr(out, obj, ind);
            match prop {
                MemberProp::Ident(p) => {
                    out.append(".");
                    out.append(p.as_str());
                },
                MemberProp::Computed(k) => {
                    out.append("[");
                    print_expr(out, k, ind);
                    out.append("]");
                },
            }
        },
        Expr::Call { callee, args } => {
            proof {
                assert(decreases_to!(*e => e->Call_args));
                assert(decreases_to!(*args => args@));
            }
            print_expr(out, callee, ind);
            out.append("(");
            let mut i: usize = 0;
            while i < args.len()
                invariant
                    i <= args@.len(),
                decreases args@.len() - i,
            {
                proof {
                    assert(decreases_to!(args@ => args@[i as int]));
                }
                if i > 0 {
                    out.append(", ");
                }
                print_expr(out, &args[i], ind);
                i = i + 1;
            }
            out.append(")");
        },
        Expr::Bin { op: _, left, right } => {
            print_expr(out, left, ind);
            out.append(" === ");
            print_expr(out, right, ind);
        },
        Expr::Array { elems } => {
            proof {
                assert(decreases_to!(*e => e->Array_elems));
                assert(decreases_to!(*elems => elems@));
            }
            if elems.len() == 0 {
                out.append("[]");
            } else {
                let ind2: usize = if ind < 100000 {
                    ind + 4
                } else {
                    ind
                };
                out.append("[\n");
                let mut i: usize = 0;
                while i < elems.len()
                    invariant
                        i <= elems@.len(),
                    decreases elems@.len() - i,
                {
                    proof {
                        assert(decreases_to!(elems@ => elems@[i as int]));
                    }
                    push_indent(out, ind2);
                    print_expr(out, &elems[i], ind2);
                    if i + 1 < elems.len() {
                        out.append(",");
                    }
                    out.append("\n");
                    i = i + 1;
                }
                push_indent(out, ind);
                out.append("]");
            }
        },
        Expr::Object { props } => {
            proof {
                assert(decreases_to!(*e => e->Object_props));
                assert(decreases_to!(*props => props@));
            }
            if props.len() == 0 {
                out.append("{}");
            } else {
                let ind2: usize = if ind < 100000 {
                    ind + 4
                } else {
                    ind
                };
                out.append("{\n");
                let mut i: usize = 0;
                while i < props.len()
                    invariant
                        i <= props@.len(),
                    decreases props@.len() - i,
                {
                    proof {
                        assert(decreases_to!(props@ => props@[i as int]));
                        assert(decreases_to!(props@[i as int] => props@[i as int].value));
                    }
                    push_indent(out, ind2);
                    out.append(props[i].key.as_str());
                    out.append(": ");
                    print_expr(out, &props[i].value, ind2);
                    if i + 1 < props.len() {
                        out.append(",");
                    }
                    out.append("\n");
                    i = i + 1;
                }
                push_indent(out, ind);
                out.append("}");
            }
        },
    }
}

fn print_var_kind(out: &mut String, kind: &VarKind) {
    match kind {
        VarKind::Var => out.append("var"),
        VarKind::Let => out.append("let"),
        VarKind::Const => out.append("const"),
    }
}

#[verifier::loop_isolation(false)]
fn print_stmt(out: &mut String, s: &Stmt, ind: usize)
    decreases *s,
{
    match s {
        Stmt::Decl { kind, name, init } => {
            print_var_kind(out, kind);
            out.append(" ");
            out.append(name.sym.as_str());
            match init {
                Some(e) => {
                    out.append(" = ");
                    print_expr(out, e, ind);
                },
                None => {},
            }
            out.append(";");
        },
        Stmt::Expr { expr } => {
            print_expr(out, expr, ind);
            out.append(";");
        },
        Stmt::If { cond, cons } => {
            proof {
                assert(decreases_to!(*s => s->If_cons));
                assert(decreases_to!(*cons => cons@));
            }
            out.append("if (");
            print_expr(out, cond, ind);
            out.append(") ");
            if cons.len() == 0 {
                out.append("{}");
            } else {
                let ind2: usize = if ind < 100000 {
                    ind + 4
                } else {
                    ind
                };
                out.append("{\n");
                let mut i: usize = 0;
                while i < cons.len()
                    invariant
                        i <= cons@.len(),
                    decreases cons@.len() - i,
                {
                    proof {
                        assert(decreases_to!(cons@ => cons@[i as int]));
                    }
                    push_indent(out, ind2);
                    print_stmt(out, &cons[i], ind2);
                    out.append("\n");
                    i = i + 1;
                }
                push_indent(out, ind);
                out.append("}");
            }
        },
        Stmt::Empty => {
            out.append(";");
        },
    }
}

fn print_import_spec(out: &mut String, s: &ImportSpec) {
    match s {
        ImportSpec::Default { local } => out.append(local.sym.as_str()),
        ImportSpec::Named { local, imported: _ } => out.append(local.sym.as_str()),
        ImportSpec::Star { local } => {
            out.append("* as ");
            out.append(local.sym.as_str());
        },
    }
}

#[verifier::loop_isolation(false)]
fn print_item(out: &mut String, it: &ModuleItem) {
    match it {
        ModuleItem::Import { specifiers, src } => {
            out.append("import ");
            // Default and namespace specifiers come first, then one brace
            // group holding the named ones.
            let mut printed = false;
            let mut i: usize = 0;
            while i < specifiers.len()
                invariant
                    i <= specifiers@.len(),
                decreases specifiers@.len() - i,
            {
                let bare = match &specifiers[i] {
                    ImportSpec::Named { local: _, imported: _ } => false,
                    _ => true,
                };
                if bare {
                    if printed {
                        out.append(", ");
                    }
                    print_import_spec(out, &specifiers[i]);
                    printed = true;
                }
                i = i + 1;
            }
            let mut named = false;
            let mut j: usize = 0;
            while j < specifiers.len()
                invariant
                    j <= specifiers@.len(),
                decreases specifiers@.len() - j,
            {
                match &specifiers[j] {
                    ImportSpec::Named { local, imported } => {
                        if !named {
                            if printed {
                                out.append(", ");
                            }
                            out.append("{ ");
                        } else {
                            out.append(", ");
                        }
                        match imported {
                            Some(imp) => {
                                out.append(imp.as_str());
                                out.append(" as ");
                                out.append(local.sym.as_str());
                            },
                            None => out.append(local.sym.as_str()),
                        }
                        named = true;
                    },
                    _ => {},
                }
                j = j + 1;
            }
            if named {
                out.append(" }");
                printed = true;
            }
            if printed {
                out.append(" from ");
            }
            push_escaped(out, src);
            out.append(";");
        },
        ModuleItem::NamedExport { specifiers, src } => {
            out.append("export { ");
            let mut i: usize = 0;
            while i < specifiers.len()
                invariant
                    i <= specifiers@.len(),
                decreases specifiers@.len() - i,
            {
                if i > 0 {
                    out.append(", ");
                }
                let sp: &ExportSpec = &specifiers[i];
                out.append(sp.orig.sym.as_str());
                match &sp.exported {
                    Some(e) => {
                        out.append(" as ");
                        out.append(e.as_str());
                    },
                    None => {},
                }
                i = i + 1;
            }
            if specifiers.len() > 0 {
                out.append(" ");
            }
            out.append("}");
            match src {
                Some(s) => {
                    out.append(" from ");
                    push_escaped(out, s);
                },
                None => {},
            }
            out.append(";");
        },
        ModuleItem::Stmt(s) => print_stmt(out, s, 0),
    }
}

/// Serializes a module, one top-level item per line.
#[verifier::loop_isolation(false)]
pub fn print_module(m: &JsModule) -> (r: String) {
    let mut out = String::new();
    let mut i: usize = 0;
    while i < m.body.len()
        invariant
            i <= m.body@.len(),
        decreases m.body@.len() - i,
    {
        print_item(&mut out, &m.body[i]);
        out.append("\n");
        i = i + 1;
    }
    out
}

} // verus!
