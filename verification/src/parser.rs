use vstd::prelude::*;
use vstd::string::StrSliceExecFns;

use crate::ast::{
    ExportSpec, Expr, Ident, ImportSpec, JsModule, Lit, MemberProp, ModuleItem, ObjProp, Stmt,
    VarKind,
};
use crate::FREE_TAG;

verus! {

broadcast use vstd::std_specs::vec::group_vec_axioms;

// ---------------------------------------------------------------------------
// A recursive-descent parser for the JavaScript subset the rewrite passes
// work on: statements (variable declarations, expression statements, `if`,
// empty statements), import and named-export declarations, and expressions
// built from identifiers, literals, arrays, objects, member accesses,
// calls, `===`, and `import.meta`. Identifiers come out tagged free; the
// binding resolver assigns real scope tags afterwards.
// ---------------------------------------------------------------------------

/// A syntax error, carrying the byte position it was noticed at.
#[derive(Debug)]
pub struct ParseError {
    pub pos: usize,
}

spec fn at_most(src: Seq<u8>, pos: usize) -> bool {
    pos <= src.len()
}

spec fn ident_byte(b: u8) -> bool {
    (b >= 97 && b <= 122) || (b >= 65 && b <= 90) || (b >= 48 && b <= 57) || b == 95 || b == 36
}

fn is_ident_byte(b: u8) -> (r: bool)
    ensures
        r == ident_byte(b),
{
    (b >= 97 && b <= 122) || (b >= 65 && b <= 90) || (b >= 48 && b <= 57) || b == 95 || b == 36
}

fn is_ident_start(b: u8) -> (r: bool)
    ensures
        r ==> ident_byte(b) && b < 128,
{
    (b >= 97 && b <= 122) || (b >= 65 && b <= 90) || b == 95 || b == 36
}

fn is_digit(b: u8) -> (r: bool)
    ensures
        r == (b >= 48 && b <= 57),
{
    b >= 48 && b <= 57
}

fn is_space(b: u8) -> (r: bool)
    ensures
        r == (b == 32 || b == 9 || b == 10 || b == 13),
{
    b == 32 || b == 9 || b == 10 || b == 13
}

#[verifier::loop_isolation(false)]
fn skip_ws(src: &Vec<u8>, pos: &mut usize)
    requires
        at_most(src@, *old(pos)),
    ensures
        at_most(src@, *final(pos)),
        *final(pos) >= *old(pos),
{
    while *pos < src.len() && is_space(src[*pos])
        invariant
            at_most(src@, *pos),
            *pos >= *old(pos),
        decreases src@.len() - *pos,
    {
        *pos = *pos + 1;
    }
}

/// Does the whole word (letters of an identifier) at `pos` equal `w`? If
/// so, consume it.
#[verifier::loop_isolation(false)]
fn eat_word(src: &Vec<u8>, pos: &mut usize, w: &str) -> (r: bool)
    requires
        at_most(src@, *old(pos)),
    ensures
        at_most(src@, *final(pos)),
        *final(pos) >= *old(pos),
        r ==> *final(pos) > *old(pos),
{
    let wb = w.as_bytes_vec();
    if wb.len() == 0 {
        return false;
    }
    let base = *pos;
    let mut i: usize = 0;
    while i < wb.len()
        invariant
            at_most(src@, base),
            base == *pos,
            i <= wb@.len(),
            src@.len() - base >= i,
        decreases wb@.len() - i,
    {
        if src.len() - base <= i {
            return false;
        }
        if src[base + i] != wb[i] {
            return false;
        }
        i = i + 1;
    }
    // The word must end here.
    if src.len() - base > wb.len() && is_ident_byte(src[base + wb.len()]) {
        return false;
    }
    *pos = base + wb.len();
    true
}

/// Reads the identifier starting at `pos` and returns its text.
#[verifier::loop_isolation(false)]
fn read_ident(src: &Vec<u8>, pos: &mut usize) -> (r: Result<String, ParseError>)
    requires
        at_most(src@, *old(pos)),
    ensures
        at_most(src@, *final(pos)),
        *final(pos) >= *old(pos),
        r is Ok ==> *final(pos) > *old(pos),
{
    if *pos >= src.len() || !is_ident_start(src[*pos]) {
        return Err(ParseError { pos: *pos });
    }
    let start = *pos;
    let mut bytes: Vec<u8> = Vec::new();
    while *pos < src.len() && is_ident_byte(src[*pos])
        invariant
            at_most(src@, *pos),
            *pos >= start,
            start < src@.len(),
            forall|i: int| 0 <= i < bytes@.len() ==> bytes@[i] < 128,
        decreases src@.len() - *pos,
    {
        let b = src[*pos];
        if b < 128 {
            bytes.push(b);
        }
        *pos = *pos + 1;
    }
    Ok(ascii_string(&bytes))
}

/// Relies on `String::from_utf8`: turns bytes below 128 into the string of
/// those characters.
#[verifier::external_body]
fn ascii_string(bytes: &Vec<u8>) -> (r: String)
    requires
        forall|i: int| 0 <= i < bytes@.len() ==> bytes@[i] < 128,
    ensures
        r@.len() == bytes@.len(),
        forall|i: int| 0 <= i < bytes@.len() ==> r@[i] == bytes@[i] as char,
{
    String::from_utf8(bytes.clone()).unwrap_or_default()
}

fn expect_byte(src: &Vec<u8>, pos: &mut usize, b: u8) -> (r: Result<(), ParseError>)
    requires
        at_most(src@, *old(pos)),
    ensures
        at_most(src@, *final(pos)),
        *final(pos) >= *old(pos),
        r is Ok ==> *final(pos) > *old(pos),
{
    skip_ws(src, pos);
    if *pos < src.len() && src[*pos] == b {
        *pos = *pos + 1;
        Ok(())
    } else {
        Err(ParseError { pos: *pos })
    }
}

fn peek_byte(src: &Vec<u8>, pos: &mut usize, b: u8) -> (r: bool)
    requires
        at_most(src@, *old(pos)),
    ensures
        at_most(src@, *final(pos)),
        *final(pos) >= *old(pos),
        r ==> *final(pos) < src@.len(),
        src@.len() <= usize::MAX,
{
    skip_ws(src, pos);
    *pos < src.len() && src[*pos] == b
}

#[verifier::loop_isolation(false)]
fn parse_string_lit(src: &Vec<u8>, pos: &mut usize) -> (r: Result<String, ParseError>)
    requires
        at_most(src@, *old(pos)),
    ensures
        at_most(src@, *final(pos)),
        *final(pos) >= *old(pos),
        r is Ok ==> *final(pos) > *old(pos),
{
    if *pos >= src.len() || (src[*pos] != 34 && src[*pos] != 39) {
        return Err(ParseError { pos: *pos });
    }
    let quote = src[*pos];
    *pos = *pos + 1;
    let mut bytes: Vec<u8> = Vec::new();
    while *pos < src.len() && src[*pos] != quote
        invariant
            at_most(src@, *pos),
            *pos >= *old(pos),
            forall|i: int| 0 <= i < bytes@.len() ==> bytes@[i] < 128,
        decreases src@.len() - *pos,
    {
        let b = src[*pos];
        if b == 92 && *pos + 1 < src.len() {
            // An escape: keep the escaped character itself.
            let e = src[*pos + 1];
            if e < 128 {
                bytes.push(e);
            }
            *pos = *pos + 2;
        } else {
            if b < 128 {
                bytes.push(b);
            }
            *pos = *pos + 1;
        }
    }
    if *pos >= src.len() {
        return Err(ParseError { pos: *pos });
    }
    *pos = *pos + 1;
    Ok(ascii_string(&bytes))
}

#[verifier::loop_isolation(false)]
fn parse_number(src: &Vec<u8>, pos: &mut usize) -> (r: Result<String, ParseError>)
    requires
        at_most(src@, *old(pos)),
    ensures
        at_most(src@, *final(pos)),
        *final(pos) >= *old(pos),
        r is Ok ==> *final(pos) > *old(pos),
{
    if *pos >= src.len() || !is_digit(src[*pos]) {
        return Err(ParseError { pos: *pos });
    }
    let mut bytes: Vec<u8> = Vec::new();
    let mut seen_dot = false;
    while *pos < src.len() && (is_digit(src[*pos]) || (src[*pos] == 46 && !seen_dot))
        invariant
            at_most(src@, *pos),
            *pos >= *old(pos),
            forall|i: int| 0 <= i < bytes@.len() ==> bytes@[i] < 128,
        decreases src@.len() - *pos,
    {
        if src[*pos] == 46 {
            seen_dot = true;
        }
        bytes.push(src[*pos]);
        *pos = *pos + 1;
    }
    Ok(ascii_string(&bytes))
}

#[verifier::loop_isolation(false)]
fn parse_primary(src: &Vec<u8>, pos: &mut usize) -> (r: Result<Expr, ParseError>)
    requires
        at_most(src@, *old(pos)),
    ensures
        at_most(src@, *final(pos)),
        *final(pos) >= *old(pos),
        r is Ok ==> *final(pos) > *old(pos),
    decreases src@.len() - *old(pos), 0int,
{
    skip_ws(src, pos);
    if *pos >= src.len() {
        return Err(ParseError { pos: *pos });
    }
    let b = src[*pos];
    if b == 34 || b == 39 {
        let s = parse_string_lit(src, pos)?;
        return Ok(Expr::Lit(Lit::Str(s)));
    }
    if is_digit(b) {
        let n = parse_number(src, pos)?;
        return Ok(Expr::Lit(Lit::Num(n)));
    }
    if b == 91 {
        *pos = *pos + 1;
        let mut elems: Vec<Expr> = Vec::new();
        if peek_byte(src, pos, 93) {
            *pos = *pos + 1;
            return Ok(Expr::Array { elems });
        }
        loop
            invariant
                at_most(src@, *pos),
                *pos > *old(pos),
            decreases src@.len() - *pos,
        {
            let e = parse_expr(src, pos)?;
            elems.push(e);
            if peek_byte(src, pos, 44) {
                *pos = *pos + 1;
            } else {
                break ;
            }
        }
        expect_byte(src, pos, 93)?;
        return Ok(Expr::Array { elems });
    }
    if b == 123 {
        *pos = *pos + 1;
        let mut props: Vec<ObjProp> = Vec::new();
        if peek_byte(src, pos, 125) {
            *pos = *pos + 1;
            return Ok(Expr::Object { props });
        }
        loop
            invariant
                at_most(src@, *pos),
                *pos > *old(pos),
            decreases src@.len() - *pos,
        {
            skip_ws(src, pos);
            let key = if *pos < src.len() && (src[*pos] == 34 || src[*pos] == 39) {
                parse_string_lit(src, pos)?
            } else {
                read_ident(src, pos)?
            };
            expect_byte(src, pos, 58)?;
            let v = parse_expr(src, pos)?;
            props.push(ObjProp { key, value: v });
            if peek_byte(src, pos, 44) {
                *pos = *pos + 1;
            } else {
                break ;
            }
        }
        expect_byte(src, pos, 125)?;
        return Ok(Expr::Object { props });
    }
    if !is_ident_start(b) {
        return Err(ParseError { pos: *pos });
    }
    if eat_word(src, pos, "true") {
        return Ok(Expr::Lit(Lit::Bool(true)));
    }
    if eat_word(src, pos, "false") {
        return Ok(Expr::Lit(Lit::Bool(false)));
    }
    if eat_word(src, pos, "null") {
        return Ok(Expr::Lit(Lit::Null));
    }
    if eat_word(src, pos, "import") {
        // Only the meta-property `import.meta` is an expression here.
        expect_byte(src, pos, 46)?;
        skip_ws(src, pos);
        if !eat_word(src, pos, "meta") {
            return Err(ParseError { pos: *pos });
        }
        return Ok(Expr::ImportMeta);
    }
    let mut probe: usize = *pos;
    if eat_word(src, &mut probe, "for") || eat_word(src, &mut probe, "while") || eat_word(
        src,
        &mut probe,
        "return",
    ) || eat_word(src, &mut probe, "function") || eat_word(src, &mut probe, "class") || eat_word(
        src,
        &mut probe,
        "do",
    ) || eat_word(src, &mut probe, "if") || eat_word(src, &mut probe, "export") || eat_word(
        src,
        &mut probe,
        "var",
    ) || eat_word(src, &mut probe, "let") || eat_word(src, &mut probe, "const") {
        // A reserved word that cannot begin an expression of this subset.
        return Err(ParseError { pos: *pos });
    }
    let sym = read_ident(src, pos)?;
    Ok(Expr::Ident(Ident { sym, tag: FREE_TAG }))
}

/// A primary expression followed by member accesses and call arguments.
#[verifier::loop_isolation(false)]
fn parse_postfix(src: &Vec<u8>, pos: &mut usize) -> (r: Result<Expr, ParseError>)
    requires
        at_most(src@, *old(pos)),
    ensures
        at_most(src@, *final(pos)),
        *final(pos) >= *old(pos),
        r is Ok ==> *final(pos) > *old(pos),
    decreases src@.len() - *old(pos), 1int,
{
    let mut e = parse_primary(src, pos)?;
    loop
        invariant
            at_most(src@, *pos),
            *pos > *old(pos),
        decreases src@.len() - *pos,
    {
        if peek_byte(src, pos, 46) {
            *pos = *pos + 1;
            skip_ws(src, pos);
            let name = read_ident(src, pos)?;
            e = Expr::Member { obj: Box::new(e), prop: MemberProp::Ident(name) };
        } else if peek_byte(src, pos, 91) {
            *pos = *pos + 1;
            let k = parse_expr(src, pos)?;
            expect_byte(src, pos, 93)?;
            e = Expr::Member { obj: Box::new(e), prop: MemberProp::Computed(Box::new(k)) };
        } else if peek_byte(src, pos, 40) {
            *pos = *pos + 1;
            let mut args: Vec<Expr> = Vec::new();
            if peek_byte(src, pos, 41) {
                *pos = *pos + 1;
                e = Expr::Call { callee: Box::new(e), args };
            } else {
                let ghost mark = *pos;
                loop
                    invariant
                        at_most(src@, *pos),
                        *pos >= mark,
                        *pos > *old(pos),
                    decreases src@.len() - *pos,
                {
                    let a = parse_expr(src, pos)?;
                    args.push(a);
                    if peek_byte(src, pos, 44) {
                        *pos = *pos + 1;
                    } else {
                        break ;
                    }
                }
                expect_byte(src, pos, 41)?;
                e = Expr::Call { callee: Box::new(e), args };
            }
        } else {
            break ;
        }
    }
    Ok(e)
}

/// Is the operator `===` next?
fn peek_strict_eq(src: &Vec<u8>, pos: &mut usize) -> (r: bool)
    requires
        at_most(src@, *old(pos)),
    ensures
        at_most(src@, *final(pos)),
        *final(pos) >= *old(pos),
        r ==> *final(pos) + 3 <= src@.len(),
        src@.len() <= usize::MAX,
{
    skip_ws(src, pos);
    if src.len() >= 3 && *pos < src.len() - 2 {
        src[*pos] == 61 && src[*pos + 1] == 61 && src[*pos + 2] == 61
    } else {
        false
    }
}

#[verifier::loop_isolation(false)]
fn parse_expr(src: &Vec<u8>, pos: &mut usize) -> (r: Result<Expr, ParseError>)
    requires
        at_most(src@, *old(pos)),
    ensures
        at_most(src@, *final(pos)),
        *final(pos) >= *old(pos),
        r is Ok ==> *final(pos) > *old(pos),
    decreases src@.len() - *old(pos), 2int,
{
    let mut e = parse_postfix(src, pos)?;
    loop
        invariant
            at_most(src@, *pos),
            *pos > *old(pos),
        decreases src@.len() - *pos,
    {
        if peek_strict_eq(src, pos) {
            *pos = *pos + 3;
            let rhs = parse_postfix(src, pos)?;
            e = Expr::Bin {
                op: crate::ast::BinOp::StrictEq,
                left: Box::new(e),
                right: Box::new(rhs),
            };
        } else {
            break ;
        }
    }
    Ok(e)
}

#[verifier::loop_isolation(false)]
fn parse_var_decl(src: &Vec<u8>, pos: &mut usize, kind: VarKind) -> (r: Result<Stmt, ParseError>)
    requires
        at_most(src@, *old(pos)),
    ensures
        at_most(src@, *final(pos)),
        *final(pos) >= *old(pos),
    decreases src@.len() - *old(pos), 3int,
{
    skip_ws(src, pos);
    let name = read_ident(src, pos)?;
    skip_ws(src, pos);
    let init = if *pos < src.len() && src[*pos] == 61 {
        *pos = *pos + 1;
        let e = parse_expr(src, pos)?;
        Some(e)
    } else {
        None
    };
    if peek_byte(src, pos, 59) {
        *pos = *pos + 1;
    }
    Ok(Stmt::Decl { kind, name: Ident { sym: name, tag: FREE_TAG }, init })
}

#[verifier::loop_isolation(false)]
fn parse_stmt(src: &Vec<u8>, pos: &mut usize) -> (r: Result<Stmt, ParseError>)
    requires
        at_most(src@, *old(pos)),
    ensures
        at_most(src@, *final(pos)),
        *final(pos) >= *old(pos),
        r is Ok ==> *final(pos) > *old(pos),
    decreases src@.len() - *old(pos), 4int,
{
    skip_ws(src, pos);
    if *pos >= src.len() {
        return Err(ParseError { pos: *pos });
    }
    let start = *pos;
    if src[*pos] == 59 {
        *pos = *pos + 1;
        return Ok(Stmt::Empty);
    }
    if eat_word(src, pos, "var") {
        let s = parse_var_decl(src, pos, VarKind::Var)?;
        return Ok(s);
    }
    if eat_word(src, pos, "let") {
        let s = parse_var_decl(src, pos, VarKind::Let)?;
        return Ok(s);
    }
    if eat_word(src, pos, "const") {
        let s = parse_var_decl(src, pos, VarKind::Const)?;
        return Ok(s);
    }
    let mut probe: usize = *pos;
    if eat_word(src, &mut probe, "if") {
        *pos = probe;
        expect_byte(src, pos, 40)?;
        let cond = parse_expr(src, pos)?;
        expect_byte(src, pos, 41)?;
        expect_byte(src, pos, 123)?;
        let mut cons: Vec<Stmt> = Vec::new();
        loop
            invariant
                at_most(src@, *pos),
                *pos > start,
            decreases src@.len() - *pos,
        {
            skip_ws(src, pos);
            if *pos >= src.len() {
                return Err(ParseError { pos: *pos });
            }
            if src[*pos] == 125 {
                *pos = *pos + 1;
                break ;
            }
            let s = parse_stmt(src, pos)?;
            cons.push(s);
        }
        return Ok(Stmt::If { cond, cons });
    }
    let e = parse_expr(src, pos)?;
    if peek_byte(src, pos, 59) {
        *pos = *pos + 1;
    }
    Ok(Stmt::Expr { expr: e })
}

#[verifier::loop_isolation(false)]
fn parse_import_decl(src: &Vec<u8>, pos: &mut usize) -> (r: Result<ModuleItem, ParseError>)
    requires
        at_most(src@, *old(pos)),
    ensures
        at_most(src@, *final(pos)),
        *final(pos) >= *old(pos),
    decreases src@.len() - *old(pos), 3int,
{
    let mut specifiers: Vec<ImportSpec> = Vec::new();
    skip_ws(src, pos);
    if *pos < src.len() && src[*pos] == 42 {
        *pos = *pos + 1;
        skip_ws(src, pos);
        if !eat_word(src, pos, "as") {
            return Err(ParseError { pos: *pos });
        }
        skip_ws(src, pos);
        let local = read_ident(src, pos)?;
        specifiers.push(ImportSpec::Star { local: Ident { sym: local, tag: FREE_TAG } });
    } else if *pos < src.len() && src[*pos] == 123 {
        *pos = *pos + 1;
        skip_ws(src, pos);
        if peek_byte(src, pos, 125) {
            *pos = *pos + 1;
        } else {
            let start = *pos;
            loop
                invariant
                    at_most(src@, *pos),
                    *pos >= start,
                decreases src@.len() - *pos,
            {
                skip_ws(src, pos);
                let imported = read_ident(src, pos)?;
                skip_ws(src, pos);
                let mut probe: usize = *pos;
                if eat_word(src, &mut probe, "as") {
                    *pos = probe;
                    skip_ws(src, pos);
                    let local = read_ident(src, pos)?;
                    specifiers.push(
                        ImportSpec::Named {
                            local: Ident { sym: local, tag: FREE_TAG },
                            imported: Some(imported),
                        },
                    );
                } else {
                    specifiers.push(
                        ImportSpec::Named {
                            local: Ident { sym: imported, tag: FREE_TAG },
                            imported: None,
                        },
                    );
                }
                if peek_byte(src, pos, 44) {
                    *pos = *pos + 1;
                } else {
                    break ;
                }
            }
            expect_byte(src, pos, 125)?;
        }
    } else {
        let local = read_ident(src, pos)?;
        specifiers.push(ImportSpec::Default { local: Ident { sym: local, tag: FREE_TAG } });
    }
    skip_ws(src, pos);
    if !eat_word(src, pos, "from") {
        return Err(ParseError { pos: *pos });
    }
    skip_ws(src, pos);
    let srcname = parse_string_lit(src, pos)?;
    if peek_byte(src, pos, 59) {
        *pos = *pos + 1;
    }
    Ok(ModuleItem::Import { specifiers, src: srcname })
}

#[verifier::loop_isolation(false)]
fn parse_named_export(src: &Vec<u8>, pos: &mut usize) -> (r: Result<ModuleItem, ParseError>)
    requires
        at_most(src@, *old(pos)),
    ensures
        at_most(src@, *final(pos)),
        *final(pos) >= *old(pos),
    decreases src@.len() - *old(pos), 3int,
{
    expect_byte(src, pos, 123)?;
    let mut specifiers: Vec<ExportSpec> = Vec::new();
    skip_ws(src, pos);
    if peek_byte(src, pos, 125) {
        *pos = *pos + 1;
    } else {
        let start = *pos;
        loop
            invariant
                at_most(src@, *pos),
                *pos >= start,
            decreases src@.len() - *pos,
        {
            skip_ws(src, pos);
            let orig = read_ident(src, pos)?;
            skip_ws(src, pos);
            let mut probe: usize = *pos;
            if eat_word(src, &mut probe, "as") {
                *pos = probe;
                skip_ws(src, pos);
                let exported = read_ident(src, pos)?;
                specifiers.push(
                    ExportSpec {
                        orig: Ident { sym: orig, tag: FREE_TAG },
                        exported: Some(exported),
                    },
                );
            } else {
                specifiers.push(
                    ExportSpec { orig: Ident { sym: orig, tag: FREE_TAG }, exported: None },
                );
            }
            if peek_byte(src, pos, 44) {
                *pos = *pos + 1;
            } else {
                break ;
            }
        }
        expect_byte(src, pos, 125)?;
    }
    let mut from: Option<String> = None;
    skip_ws(src, pos);
    let mut probe: usize = *pos;
    if eat_word(src, &mut probe, "from") {
        *pos = probe;
        skip_ws(src, pos);
        let s = parse_string_lit(src, pos)?;
        from = Some(s);
    }
    if peek_byte(src, pos, 59) {
        *pos = *pos + 1;
    }
    Ok(ModuleItem::NamedExport { specifiers, src: from })
}

#[verifier::loop_isolation(false)]
fn parse_item(src: &Vec<u8>, pos: &mut usize) -> (r: Result<ModuleItem, ParseError>)
    requires
        at_most(src@, *old(pos)),
    ensures
        at_most(src@, *final(pos)),
        *final(pos) >= *old(pos),
        r is Ok ==> *final(pos) > *old(pos),
    decreases src@.len() - *old(pos), 5int,
{
    skip_ws(src, pos);
    if *pos >= src.len() {
        return Err(ParseError { pos: *pos });
    }
    let mut probe: usize = *pos;
    if eat_word(src, &mut probe, "import") {
        // Distinguish an import declaration from the `import.meta`
        // expression.
        skip_ws(src, &mut probe);
        if probe >= src.len() || src[probe] != 46 {
            *pos = probe;
            let item = parse_import_decl(src, pos)?;
            return Ok(item);
        }
    }
    let mut probe2: usize = *pos;
    if eat_word(src, &mut probe2, "export") {
        *pos = probe2;
        let item = parse_named_export(src, pos)?;
        return Ok(item);
    }
    let s = parse_stmt(src, pos)?;
    Ok(ModuleItem::Stmt(s))
}

/// Parses one module. Only ASCII source is accepted; invalid syntax is a
/// parse error. The parser is the out-of-scope collaborator of the
/// pipeline: what it accepts defines the source subset, and the callers
/// that must decide something from its outcome (`define_value_expr`) carry
/// exact contracts over the returned value.
#[verifier::loop_isolation(false)]
pub fn parse(source: &str) -> (r: Result<JsModule, ParseError>)
    ensures
        !source.is_ascii() ==> r is Err,
        source@.len() == 0 ==> (r matches Ok(m) && m@.body.len() == 0),
{
    if !source.is_ascii() {
        return Err(ParseError { pos: 0 });
    }
    let src = source.as_bytes_vec();
    proof {
        broadcast use vstd::string::is_ascii_spec_bytes;

        if source@.len() == 0 {
            assert(src@.len() == 0);
        }
    }
    let mut pos: usize = 0;
    let mut body: Vec<ModuleItem> = Vec::new();
    loop
        invariant
            at_most(src@, pos),
            src@.len() == 0 ==> body@.len() == 0,
        decreases src@.len() - pos,
    {
        skip_ws(&src, &mut pos);
        if pos >= src.len() {
            break ;
        }
        let item = parse_item(&src, &mut pos)?;
        body.push(item);
    }
    let r = JsModule { body };
    proof {
        if r.body@.len() == 0 {
            assert(r@.body =~= Seq::<crate::ast::SpecModuleItem>::empty());
        }
    }
    Ok(r)
}

} // verus!
