use vstd::prelude::*;

use crate::model::{opt_str, str_seq};
use crate::text::{join_with, joined, or_empty, replace_all, replaced};
use crate::ts_source::{
    Accessibility, ArrowBody, ClassSource, ConstructorSource, DeclaratorSource, FunctionSource,
    InitSource, InterfaceSource, MethodKind, MethodSource, PrivateMethodSource, TypeAliasSource,
    VarKind,
};

verus! {

// The signature of a declaration is its header as text; its signature shape is the same header
// with the declaration's own name replaced by `__NAME__`, so that it survives a rename.

/// `t` when `c` holds, else nothing.
pub open spec fn when(c: bool, t: Seq<char>) -> Seq<char> {
    if c {
        t
    } else {
        seq![]
    }
}

fn append_when(s: &mut String, c: bool, t: &str)
    ensures
        final(s)@ == old(s)@ + when(c, t@),
{
    if c {
        s.append(t);
    } else {
        assert(s@ =~= s@ + when(c, t@));
    }
}

/// A list of rendered parameters, separated by commas.
pub open spec fn param_list(params: Seq<String>) -> Seq<char> {
    joined(str_seq(params), ", "@)
}

/// Renders a parameter list.
pub fn render_params(params: &Vec<String>) -> (r: String)
    ensures
        r@ == param_list(params@),
{
    join_with(params, ", ")
}

pub open spec fn accessibility_text(a: Option<Accessibility>) -> Seq<char> {
    match a {
        Some(Accessibility::Public) => "public "@,
        Some(Accessibility::Protected) => "protected "@,
        Some(Accessibility::Private) => "private "@,
        None => seq![],
    }
}

/// The accessibility modifier followed by a space, or nothing.
pub fn render_accessibility(a: Option<Accessibility>) -> (r: &'static str)
    ensures
        r@ == accessibility_text(a),
{
    match a {
        Some(Accessibility::Public) => "public ",
        Some(Accessibility::Protected) => "protected ",
        Some(Accessibility::Private) => "private ",
        None => {
            let e = "";
            proof {
                reveal_strlit("");
            }
            e
        },
    }
}

pub open spec fn method_kind_prefix(k: MethodKind) -> Seq<char> {
    match k {
        MethodKind::Method => seq![],
        MethodKind::Getter => "get "@,
        MethodKind::Setter => "set "@,
    }
}

/// `get ` or `set ` before an accessor's name; nothing before a plain method's.
pub fn render_method_kind_prefix(k: MethodKind) -> (r: &'static str)
    ensures
        r@ == method_kind_prefix(k),
{
    match k {
        MethodKind::Method => {
            let e = "";
            proof {
                reveal_strlit("");
            }
            e
        },
        MethodKind::Getter => "get ",
        MethodKind::Setter => "set ",
    }
}

pub open spec fn var_kind_text(k: VarKind) -> Seq<char> {
    match k {
        VarKind::Const => "const"@,
        VarKind::Let => "let"@,
        VarKind::Var => "var"@,
    }
}

/// The keyword of a variable declaration.
pub fn render_var_decl_kind(k: VarKind) -> (r: &'static str)
    ensures
        r@ == var_kind_text(k),
{
    match k {
        VarKind::Const => "const",
        VarKind::Let => "let",
        VarKind::Var => "var",
    }
}

/// `name` in a function header: `async`, `function`, `*`, type parameters, parameters and
/// return type.
pub open spec fn function_signature(name: Seq<char>, f: FunctionSource) -> Seq<char> {
    when(f.is_async, "async "@) + "function"@ + when(f.is_generator, "*"@) + " "@ + name
        + f.type_params@ + "("@ + param_list(f.params@) + ")"@ + f.return_type@
}

pub fn build_function_signature(name: &str, f: &FunctionSource) -> (r: String)
    ensures
        r@ == function_signature(name@, *f),
{
    let mut s = String::new();
    append_when(&mut s, f.is_async, "async ");
    s.append("function");
    append_when(&mut s, f.is_generator, "*");
    s.append(" ");
    s.append(name);
    s.append(f.type_params.as_str());
    s.append("(");
    let params = render_params(&f.params);
    s.append(params.as_str());
    s.append(")");
    s.append(f.return_type.as_str());
    assert(s@ =~= function_signature(name@, *f));
    s
}

pub fn build_function_signature_shape(f: &FunctionSource) -> (r: String)
    ensures
        r@ == function_signature("__NAME__"@, *f),
{
    build_function_signature("__NAME__", f)
}

/// A constructor header: accessibility and parameters (it is its own shape).
pub open spec fn constructor_signature(c: ConstructorSource) -> Seq<char> {
    accessibility_text(c.accessibility) + "constructor("@ + param_list(c.params@) + ")"@
}

pub fn build_constructor_signature(c: &ConstructorSource) -> (r: String)
    ensures
        r@ == constructor_signature(*c),
{
    let mut s = String::new();
    s.append(render_accessibility(c.accessibility));
    s.append("constructor(");
    let params = render_params(&c.params);
    s.append(params.as_str());
    s.append(")");
    assert(s@ =~= constructor_signature(*c));
    s
}

pub fn build_constructor_signature_shape(c: &ConstructorSource) -> (r: String)
    ensures
        r@ == constructor_signature(*c),
{
    build_constructor_signature(c)
}

/// A method header under the key `name`.
pub open spec fn method_signature(name: Seq<char>, m: MethodSource) -> Seq<char> {
    accessibility_text(m.accessibility) + when(m.is_static, "static "@) + when(
        m.function.is_async,
        "async "@,
    ) + method_kind_prefix(m.kind) + name + m.function.type_params@ + "("@ + param_list(
        m.function.params@,
    ) + ")"@ + m.function.return_type@
}

pub fn build_method_signature(name: &str, m: &MethodSource) -> (r: String)
    ensures
        r@ == method_signature(name@, *m),
{
    let mut s = String::new();
    s.append(render_accessibility(m.accessibility));
    append_when(&mut s, m.is_static, "static ");
    append_when(&mut s, m.function.is_async, "async ");
    s.append(render_method_kind_prefix(m.kind));
    s.append(name);
    s.append(m.function.type_params.as_str());
    s.append("(");
    let params = render_params(&m.function.params);
    s.append(params.as_str());
    s.append(")");
    s.append(m.function.return_type.as_str());
    assert(s@ =~= method_signature(name@, *m));
    s
}

pub fn build_method_signature_shape(m: &MethodSource) -> (r: String)
    ensures
        r@ == method_signature("__NAME__"@, *m),
{
    build_method_signature("__NAME__", m)
}

/// A private method header under the name `name` (no accessibility modifier).
pub open spec fn private_method_signature(name: Seq<char>, m: PrivateMethodSource) -> Seq<char> {
    when(m.is_static, "static "@) + when(m.function.is_async, "async "@) + method_kind_prefix(
        m.kind,
    ) + name + m.function.type_params@ + "("@ + param_list(m.function.params@) + ")"@
        + m.function.return_type@
}

pub fn build_private_method_signature(name: &str, m: &PrivateMethodSource) -> (r: String)
    ensures
        r@ == private_method_signature(name@, *m),
{
    let mut s = String::new();
    append_when(&mut s, m.is_static, "static ");
    append_when(&mut s, m.function.is_async, "async ");
    s.append(render_method_kind_prefix(m.kind));
    s.append(name);
    s.append(m.function.type_params.as_str());
    s.append("(");
    let params = render_params(&m.function.params);
    s.append(params.as_str());
    s.append(")");
    s.append(m.function.return_type.as_str());
    assert(s@ =~= private_method_signature(name@, *m));
    s
}

pub fn build_private_method_signature_shape(m: &PrivateMethodSource) -> (r: String)
    ensures
        r@ == private_method_signature("__NAME__"@, *m),
{
    build_private_method_signature("__NAME__", m)
}

/// ` extends` with the superclass and its type arguments, or nothing.
pub open spec fn class_extends(c: ClassSource) -> Seq<char> {
    match c.super_class {
        Some(sc) => " extends "@ + sc@ + or_empty(opt_str(c.super_type_params)),
        None => seq![],
    }
}

/// ` implements` with the implemented types, or nothing.
pub open spec fn class_implements(c: ClassSource) -> Seq<char> {
    if c.implements@.len() == 0 {
        seq![]
    } else {
        " implements "@ + param_list(c.implements@)
    }
}

pub open spec fn class_signature(name: Seq<char>, c: ClassSource) -> Seq<char> {
    when(c.is_abstract, "abstract "@) + "class "@ + name + c.type_params@ + class_extends(c)
        + class_implements(c)
}

fn render_class_heritage(c: &ClassSource) -> (r: String)
    ensures
        r@ == class_extends(*c) + class_implements(*c),
{
    let mut s = String::new();
    match &c.super_class {
        Some(sc) => {
            s.append(" extends ");
            s.append(sc.as_str());
            match &c.super_type_params {
                Some(t) => s.append(t.as_str()),
                None => {},
            }
        },
        None => {},
    }
    if c.implements.len() > 0 {
        s.append(" implements ");
        let list = render_params(&c.implements);
        s.append(list.as_str());
    }
    assert(s@ =~= class_extends(*c) + class_implements(*c));
    s
}

pub fn build_class_signature(name: &str, c: &ClassSource) -> (r: String)
    ensures
        r@ == class_signature(name@, *c),
{
    let heritage = render_class_heritage(c);
    let mut s = String::new();
    append_when(&mut s, c.is_abstract, "abstract ");
    s.append("class ");
    s.append(name);
    s.append(c.type_params.as_str());
    s.append(heritage.as_str());
    assert(s@ =~= class_signature(name@, *c));
    s
}

pub fn build_class_signature_shape(c: &ClassSource) -> (r: String)
    ensures
        r@ == class_signature("__NAME__"@, *c),
{
    build_class_signature("__NAME__", c)
}

pub open spec fn interface_signature(name: Seq<char>, i: InterfaceSource) -> Seq<char> {
    "interface "@ + name + i.type_params@ + if i.extends@.len() == 0 {
        seq![]
    } else {
        " extends "@ + param_list(i.extends@)
    }
}

pub fn build_interface_signature(name: &str, i: &InterfaceSource) -> (r: String)
    ensures
        r@ == interface_signature(name@, *i),
{
    let mut s = String::new();
    s.append("interface ");
    s.append(name);
    s.append(i.type_params.as_str());
    if i.extends.len() > 0 {
        s.append(" extends ");
        let list = render_params(&i.extends);
        s.append(list.as_str());
    }
    assert(s@ =~= interface_signature(name@, *i));
    s
}

pub fn build_interface_signature_shape(i: &InterfaceSource) -> (r: String)
    ensures
        r@ == interface_signature("__NAME__"@, *i),
{
    build_interface_signature("__NAME__", i)
}

pub open spec fn type_alias_signature(name: Seq<char>, t: TypeAliasSource) -> Seq<char> {
    "type "@ + name + t.type_params@ + "="@ + t.type_ann@
}

pub fn build_type_alias_signature(name: &str, t: &TypeAliasSource) -> (r: String)
    ensures
        r@ == type_alias_signature(name@, *t),
{
    let mut s = String::new();
    s.append("type ");
    s.append(name);
    s.append(t.type_params.as_str());
    s.append("=");
    s.append(t.type_ann.as_str());
    assert(s@ =~= type_alias_signature(name@, *t));
    s
}

pub fn build_type_alias_signature_shape(t: &TypeAliasSource) -> (r: String)
    ensures
        r@ == type_alias_signature("__NAME__"@, *t),
{
    build_type_alias_signature("__NAME__", t)
}

pub open spec fn arrow_body_text(b: ArrowBody) -> Seq<char> {
    match b {
        ArrowBody::Block(t) => t@,
        ArrowBody::Expr(t) => t@,
    }
}

pub fn render_arrow_body(b: &ArrowBody) -> (r: String)
    ensures
        r@ == arrow_body_text(*b),
{
    match b {
        ArrowBody::Block(t) => t.clone(),
        ArrowBody::Expr(t) => t.clone(),
    }
}

/// The text that stands for a variable's initializer as its body: a function's or an arrow's
/// body, else the expression itself.
pub open spec fn expression_body(i: InitSource) -> Seq<char> {
    match i {
        InitSource::Function(f) => or_empty(opt_str(f.body)),
        InitSource::Arrow { body, .. } => arrow_body_text(body),
        InitSource::Other(t) => t@,
    }
}

pub fn render_expression_body(i: &InitSource) -> (r: String)
    ensures
        r@ == expression_body(*i),
{
    match i {
        InitSource::Function(f) => match &f.body {
            Some(b) => b.clone(),
            None => String::new(),
        },
        InitSource::Arrow { body, .. } => render_arrow_body(body),
        InitSource::Other(t) => t.clone(),
    }
}

/// The arrow header shared by an initializer's signature and shape: `= async <T>(params): R => `.
pub open spec fn arrow_head(
    is_async: bool,
    type_params: Seq<char>,
    params: Seq<String>,
    return_type: Seq<char>,
) -> Seq<char> {
    "= "@ + when(is_async, "async "@) + type_params + "("@ + param_list(params) + ")"@ + return_type
        + " => "@
}

fn render_arrow_head(
    is_async: bool,
    type_params: &String,
    params: &Vec<String>,
    return_type: &String,
) -> (r: String)
    ensures
        r@ == arrow_head(is_async, type_params@, params@, return_type@),
{
    let mut s = String::new();
    s.append("= ");
    append_when(&mut s, is_async, "async ");
    s.append(type_params.as_str());
    s.append("(");
    let list = render_params(params);
    s.append(list.as_str());
    s.append(")");
    s.append(return_type.as_str());
    s.append(" => ");
    assert(s@ =~= arrow_head(is_async, type_params@, params@, return_type@));
    s
}

/// How an initializer appears in a variable's signature.
pub open spec fn initializer_signature(i: InitSource) -> Seq<char> {
    match i {
        InitSource::Function(f) => "= "@ + replaced(
            function_signature("function"@, f),
            " function"@,
            ""@,
        ),
        InitSource::Arrow { is_async, type_params, params, return_type, body } => arrow_head(
            is_async,
            type_params@,
            params@,
            return_type@,
        ) + arrow_body_text(body),
        InitSource::Other(t) => " = "@ + t@,
    }
}

pub fn render_initializer_signature(i: &InitSource) -> (r: String)
    ensures
        r@ == initializer_signature(*i),
{
    match i {
        InitSource::Function(f) => {
            let sig = build_function_signature("function", f);
            proof {
                reveal_strlit(" function");
            }
            let cut = replace_all(sig.as_str(), " function", "");
            let mut s = String::new();
            s.append("= ");
            s.append(cut.as_str());
            assert(s@ =~= initializer_signature(*i));
            s
        },
        InitSource::Arrow { is_async, type_params, params, return_type, body } => {
            let mut s = render_arrow_head(*is_async, type_params, params, return_type);
            let b = render_arrow_body(body);
            s.append(b.as_str());
            s
        },
        InitSource::Other(t) => {
            let mut s = String::new();
            s.append(" = ");
            s.append(t.as_str());
            assert(s@ =~= initializer_signature(*i));
            s
        },
    }
}

/// How an initializer appears in a variable's signature shape: an arrow's body is reduced to
/// `{...}` or `__EXPR__`.
pub open spec fn initializer_shape(i: InitSource) -> Seq<char> {
    match i {
        InitSource::Function(f) => "= "@ + replaced(
            replaced(function_signature("__NAME__"@, f), "__NAME__"@, "function"@),
            " function"@,
            ""@,
        ),
        InitSource::Arrow { is_async, type_params, params, return_type, body } => arrow_head(
            is_async,
            type_params@,
            params@,
            return_type@,
        ) + match body {
            ArrowBody::Block(_) => "{...}"@,
            ArrowBody::Expr(_) => "__EXPR__"@,
        },
        InitSource::Other(t) => " = "@ + t@,
    }
}

pub fn render_initializer_signature_shape(i: &InitSource) -> (r: String)
    ensures
        r@ == initializer_shape(*i),
{
    match i {
        InitSource::Function(f) => {
            let shape = build_function_signature_shape(f);
            proof {
                reveal_strlit("__NAME__");
                reveal_strlit(" function");
            }
            let named = replace_all(shape.as_str(), "__NAME__", "function");
            let cut = replace_all(named.as_str(), " function", "");
            let mut s = String::new();
            s.append("= ");
            s.append(cut.as_str());
            assert(s@ =~= initializer_shape(*i));
            s
        },
        InitSource::Arrow { is_async, type_params, params, return_type, body } => {
            let mut s = render_arrow_head(*is_async, type_params, params, return_type);
            match body {
                ArrowBody::Block(_) => s.append("{...}"),
                ArrowBody::Expr(_) => s.append("__EXPR__"),
            }
            s
        },
        InitSource::Other(t) => {
            let mut s = String::new();
            s.append(" = ");
            s.append(t.as_str());
            assert(s@ =~= initializer_shape(*i));
            s
        },
    }
}

pub open spec fn opt_initializer_signature(i: Option<InitSource>) -> Seq<char> {
    match i {
        Some(init) => initializer_signature(init),
        None => seq![],
    }
}

pub open spec fn opt_initializer_shape(i: Option<InitSource>) -> Seq<char> {
    match i {
        Some(init) => initializer_shape(init),
        None => seq![],
    }
}

/// A variable's signature: keyword, name, type annotation and initializer.
pub open spec fn variable_signature(kind: VarKind, name: Seq<char>, d: DeclaratorSource) -> Seq<
    char,
> {
    var_kind_text(kind) + " "@ + name + d.annotation@ + opt_initializer_signature(d.init)
}

/// A variable's signature shape.
pub open spec fn variable_shape(kind: VarKind, d: DeclaratorSource) -> Seq<char> {
    var_kind_text(kind) + " "@ + "__NAME__"@ + d.annotation@ + opt_initializer_shape(d.init)
}

pub fn build_variable_signature(kind: VarKind, name: &str, d: &DeclaratorSource) -> (r: String)
    ensures
        r@ == variable_signature(kind, name@, *d),
{
    let init = match &d.init {
        Some(i) => render_initializer_signature(i),
        None => String::new(),
    };
    let mut s = String::new();
    s.append(render_var_decl_kind(kind));
    s.append(" ");
    s.append(name);
    s.append(d.annotation.as_str());
    s.append(init.as_str());
    assert(s@ =~= variable_signature(kind, name@, *d));
    s
}

pub fn build_variable_signature_shape(kind: VarKind, d: &DeclaratorSource) -> (r: String)
    ensures
        r@ == variable_shape(kind, *d),
{
    let init = match &d.init {
        Some(i) => render_initializer_signature_shape(i),
        None => String::new(),
    };
    let mut s = String::new();
    s.append(render_var_decl_kind(kind));
    s.append(" ");
    s.append("__NAME__");
    s.append(d.annotation.as_str());
    s.append(init.as_str());
    assert(s@ =~= variable_shape(kind, *d));
    s
}

} // verus!
