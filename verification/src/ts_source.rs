use vstd::prelude::*;

use crate::model::SpanRange;

verus! {

// The declarations of a TypeScript module as the index builder reads them. Each text field
// holds the minified rendering of the syntax node it names ("" where the node is absent), and
// each `identifiers` list holds the identifiers that a walk of the node meets, in walk order.

/// Where a declaration stands in the file, with the source text it spans.
#[derive(Debug)]
pub struct SourceSpan {
    pub range: SpanRange,
    pub snippet: String,
}

/// The accessibility modifier of a class member.
#[derive(Debug, Clone, Copy, PartialEq, Eq, Structural)]
pub enum Accessibility {
    Public,
    Protected,
    Private,
}

/// Whether a class method is a plain method, a getter or a setter.
#[derive(Debug, Clone, Copy, PartialEq, Eq, Structural)]
pub enum MethodKind {
    Method,
    Getter,
    Setter,
}

/// The keyword of a variable declaration.
#[derive(Debug, Clone, Copy, PartialEq, Eq, Structural)]
pub enum VarKind {
    Const,
    Let,
    Var,
}

/// A function: its modifiers, the rendered parts of its signature and its body.
#[derive(Debug)]
pub struct FunctionSource {
    pub is_async: bool,
    pub is_generator: bool,
    pub type_params: String,
    pub params: Vec<String>,
    pub return_type: String,
    pub body: Option<String>,
    pub identifiers: Vec<String>,
}

/// A class constructor.
#[derive(Debug)]
pub struct ConstructorSource {
    pub accessibility: Option<Accessibility>,
    pub params: Vec<String>,
    pub body: Option<String>,
    pub identifiers: Vec<String>,
    pub at: SourceSpan,
}

/// A class method with a named key.
#[derive(Debug)]
pub struct MethodSource {
    pub key: String,
    pub is_static: bool,
    pub accessibility: Option<Accessibility>,
    pub kind: MethodKind,
    pub function: FunctionSource,
    pub at: SourceSpan,
}

/// A class method with a private `#name` key (`key` holds the name without `#`).
#[derive(Debug)]
pub struct PrivateMethodSource {
    pub key: String,
    pub is_static: bool,
    pub kind: MethodKind,
    pub function: FunctionSource,
    pub at: SourceSpan,
}

/// One member of a class body.
#[derive(Debug)]
pub enum ClassMemberSource {
    Constructor(ConstructorSource),
    Method(MethodSource),
    PrivateMethod(PrivateMethodSource),
    /// Any other member (a property, an accessor, a static block...), rendered.
    Other { text: String, identifiers: Vec<String> },
}

/// A class: its modifiers, heritage clauses and members.
#[derive(Debug)]
pub struct ClassSource {
    pub is_abstract: bool,
    pub type_params: String,
    pub super_class: Option<String>,
    pub super_type_params: Option<String>,
    pub implements: Vec<String>,
    /// The identifiers met in the `extends` and `implements` clauses.
    pub heritage_identifiers: Vec<String>,
    pub members: Vec<ClassMemberSource>,
}

/// An interface declaration.
#[derive(Debug)]
pub struct InterfaceSource {
    pub name: String,
    pub type_params: String,
    pub extends: Vec<String>,
    pub body: String,
    pub identifiers: Vec<String>,
    pub at: SourceSpan,
}

/// A type alias declaration.
#[derive(Debug)]
pub struct TypeAliasSource {
    pub name: String,
    pub type_params: String,
    pub type_ann: String,
    pub identifiers: Vec<String>,
    pub at: SourceSpan,
}

/// The body of an arrow function: a block or a single expression.
#[derive(Debug)]
pub enum ArrowBody {
    Block(String),
    Expr(String),
}

/// The initializer of a variable.
#[derive(Debug)]
pub enum InitSource {
    Function(FunctionSource),
    Arrow {
        is_async: bool,
        type_params: String,
        params: Vec<String>,
        return_type: String,
        body: ArrowBody,
    },
    Other(String),
}

/// One declarator of a variable declaration; `binding` is `None` for a destructuring pattern.
#[derive(Debug)]
pub struct DeclaratorSource {
    pub binding: Option<String>,
    pub annotation: String,
    pub init: Option<InitSource>,
    /// The identifiers met in the initializer.
    pub identifiers: Vec<String>,
    pub at: SourceSpan,
}

/// A variable declaration.
#[derive(Debug)]
pub struct VarSource {
    pub kind: VarKind,
    pub declarators: Vec<DeclaratorSource>,
}

/// A declaration.
#[derive(Debug)]
pub enum DeclSource {
    Function { name: String, function: FunctionSource, at: SourceSpan },
    Class { name: String, class: ClassSource, at: SourceSpan },
    Interface(InterfaceSource),
    TypeAlias(TypeAliasSource),
    Var(VarSource),
    /// A declaration that the index does not record (an enum, a namespace...).
    Other,
}

/// One specifier of an `export { ... }` clause.
#[derive(Debug)]
pub enum ExportSpecifierSource {
    Named { local: String, exported: Option<String>, type_only: bool },
    Default { name: String },
    Namespace { name: String },
}

/// One item of a module body.
#[derive(Debug)]
pub enum ModuleItemSource {
    /// A declaration statement without `export`.
    Decl(DeclSource),
    /// `export` before a declaration.
    ExportDecl(DeclSource),
    /// `export { ... }`, with the module it re-exports from, if any.
    ExportNamed { source: Option<String>, specifiers: Vec<ExportSpecifierSource> },
    /// `export default function ...`; `at` spans the whole export.
    ExportDefaultFunction { ident: Option<String>, function: FunctionSource, at: SourceSpan },
    /// `export default class ...`; `at` spans the whole export.
    ExportDefaultClass { ident: Option<String>, class: ClassSource, at: SourceSpan },
    /// `export default interface ...`.
    ExportDefaultInterface(InterfaceSource),
    /// `export default` before a function expression.
    ExportDefaultFunctionExpr { ident: Option<String>, function: FunctionSource, at: SourceSpan },
    /// `export default` before a class expression.
    ExportDefaultClassExpr { ident: Option<String>, class: ClassSource, at: SourceSpan },
    /// `export default` before any other expression.
    ExportDefaultExpr,
    /// `export * from ...`.
    ExportAll { module: String, type_only: bool },
    /// Any other item (an import, a statement that declares nothing).
    Other,
}

} // verus!
