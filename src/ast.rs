use vstd::prelude::*;

verus! {

/// A name in the source text.
pub type Ident = String;

/// A whole source file: its top-level definitions in declaration order.
#[derive(Debug, PartialEq)]
pub struct File {
    pub definitions: Vec<TopLevelDefinition>,
}

#[derive(Debug, PartialEq)]
pub enum TopLevelDefinition {
    Binding { lhs: BindingLeftHand, rhs: Literal },
    Extern { name: Ident, rhs: TypeName },
}

/// The name being bound and its generic parameters (none: not generic).
#[derive(Debug, PartialEq)]
pub struct BindingLeftHand {
    pub name: Ident,
    pub type_args: Vec<ConstrainedType>,
}

/// A generic parameter and the names it must satisfy, all of them.
#[derive(Debug, PartialEq)]
pub struct ConstrainedType {
    pub name: Ident,
    pub constraints: Vec<Ident>,
}

/// A literal value. A number that does not fit in `i64` is a `Float`, kept as
/// the decimal text it was written as.
#[derive(Debug, PartialEq)]
pub enum Literal {
    String(String),
    Int(i64),
    Float(String),
    Bool(bool),
    Function { args: Vec<AnnotatedIdent>, ret_type: TypeName, body: Vec<Expr> },
}

#[derive(Debug, PartialEq)]
pub enum Expr {
    FunctionCall(Box<Expr>, Vec<Expr>),
    Literal(Literal),
    Ident(Ident),
    BinaryOp { op: BinaryOperator, lhs: Box<Expr>, rhs: Box<Expr> },
    Match { target: Box<Expr>, conditions: Vec<(Literal, Expr)> },
    Binding { ident: Ident, value: Box<Expr> },
}

#[derive(Clone, Copy, Debug, PartialEq, Eq, Structural)]
pub enum BinaryOperator {
    Add,
    Multiply,
    Divide,
    Subtract,
}

#[derive(Debug, PartialEq)]
pub enum TypeName {
    Named(Ident),
    Slice(Box<TypeName>),
    Function { args: Vec<TypeName>, ret: Box<TypeName> },
}

#[derive(Debug, PartialEq)]
pub struct AnnotatedIdent {
    pub name: Ident,
    pub ty: TypeName,
}

// ---------------------------------------------------------------------------
// Abstract syntax: the same trees with sequences, texts and integers.
pub enum TypeNameM {
    Named(Seq<char>),
    Slice(Box<TypeNameM>),
    Function { args: Seq<TypeNameM>, ret: Box<TypeNameM> },
}

pub struct AnnotatedIdentM {
    pub name: Seq<char>,
    pub ty: TypeNameM,
}

pub enum LiteralM {
    String(Seq<char>),
    Int(int),
    Float(Seq<char>),
    Bool(bool),
    Function { args: Seq<AnnotatedIdentM>, ret_type: TypeNameM, body: Seq<ExprM> },
}

pub enum ExprM {
    FunctionCall(Box<ExprM>, Seq<ExprM>),
    Literal(LiteralM),
    Ident(Seq<char>),
    BinaryOp { op: BinaryOperator, lhs: Box<ExprM>, rhs: Box<ExprM> },
    Match { target: Box<ExprM>, conditions: Seq<(LiteralM, ExprM)> },
    Binding { ident: Seq<char>, value: Box<ExprM> },
}

pub struct ConstrainedTypeM {
    pub name: Seq<char>,
    pub constraints: Seq<Seq<char>>,
}

pub struct BindingLeftHandM {
    pub name: Seq<char>,
    pub type_args: Seq<ConstrainedTypeM>,
}

pub enum TopLevelDefinitionM {
    Binding { lhs: BindingLeftHandM, rhs: LiteralM },
    Extern { name: Seq<char>, rhs: TypeNameM },
}

pub struct FileM {
    pub definitions: Seq<TopLevelDefinitionM>,
}

pub open spec fn type_name_m(t: TypeName) -> TypeNameM
    decreases t,
{
    match t {
        TypeName::Named(n) => TypeNameM::Named(n@),
        TypeName::Slice(inner) => TypeNameM::Slice(Box::new(type_name_m(*inner))),
        TypeName::Function { args, ret } => TypeNameM::Function {
            args: type_names_m(args@),
            ret: Box::new(type_name_m(*ret)),
        },
    }
}

pub open spec fn type_names_m(s: Seq<TypeName>) -> Seq<TypeNameM>
    decreases s,
{
    if s.len() == 0 {
        Seq::empty()
    } else {
        type_names_m(s.subrange(0, s.len() - 1)).push(type_name_m(s[s.len() - 1]))
    }
}

pub open spec fn annotated_m(a: AnnotatedIdent) -> AnnotatedIdentM {
    AnnotatedIdentM { name: a.name@, ty: type_name_m(a.ty) }
}

pub open spec fn annotated_list_m(s: Seq<AnnotatedIdent>) -> Seq<AnnotatedIdentM> {
    s.map_values(|a: AnnotatedIdent| annotated_m(a))
}

pub open spec fn literal_m(l: Literal) -> LiteralM
    decreases l,
{
    match l {
        Literal::String(s) => LiteralM::String(s@),
        Literal::Int(n) => LiteralM::Int(n as int),
        Literal::Float(s) => LiteralM::Float(s@),
        Literal::Bool(b) => LiteralM::Bool(b),
        Literal::Function { args, ret_type, body } => LiteralM::Function {
            args: annotated_list_m(args@),
            ret_type: type_name_m(ret_type),
            body: exprs_m(body@),
        },
    }
}

pub open spec fn expr_m(e: Expr) -> ExprM
    decreases e,
{
    match e {
        Expr::FunctionCall(f, args) => ExprM::FunctionCall(Box::new(expr_m(*f)), exprs_m(args@)),
        Expr::Literal(l) => ExprM::Literal(literal_m(l)),
        Expr::Ident(n) => ExprM::Ident(n@),
        Expr::BinaryOp { op, lhs, rhs } => ExprM::BinaryOp {
            op,
            lhs: Box::new(expr_m(*lhs)),
            rhs: Box::new(expr_m(*rhs)),
        },
        Expr::Match { target, conditions } => ExprM::Match {
            target: Box::new(expr_m(*target)),
            conditions: arms_m(conditions@),
        },
        Expr::Binding { ident, value } => ExprM::Binding {
            ident: ident@,
            value: Box::new(expr_m(*value)),
        },
    }
}

pub open spec fn exprs_m(s: Seq<Expr>) -> Seq<ExprM>
    decreases s,
{
    if s.len() == 0 {
        Seq::empty()
    } else {
        exprs_m(s.subrange(0, s.len() - 1)).push(expr_m(s[s.len() - 1]))
    }
}

pub open spec fn arms_m(s: Seq<(Literal, Expr)>) -> Seq<(LiteralM, ExprM)>
    decreases s,
{
    if s.len() == 0 {
        Seq::empty()
    } else {
        let last = s[s.len() - 1];
        arms_m(s.subrange(0, s.len() - 1)).push((literal_m(last.0), expr_m(last.1)))
    }
}

pub open spec fn idents_m(s: Seq<Ident>) -> Seq<Seq<char>> {
    s.map_values(|n: Ident| n@)
}

pub open spec fn constrained_m(c: ConstrainedType) -> ConstrainedTypeM {
    ConstrainedTypeM { name: c.name@, constraints: idents_m(c.constraints@) }
}

pub open spec fn constrained_list_m(s: Seq<ConstrainedType>) -> Seq<ConstrainedTypeM> {
    s.map_values(|c: ConstrainedType| constrained_m(c))
}

pub open spec fn lhs_m(l: BindingLeftHand) -> BindingLeftHandM {
    BindingLeftHandM { name: l.name@, type_args: constrained_list_m(l.type_args@) }
}

pub open spec fn definition_m(d: TopLevelDefinition) -> TopLevelDefinitionM {
    match d {
        TopLevelDefinition::Binding { lhs, rhs } => TopLevelDefinitionM::Binding {
            lhs: lhs_m(lhs),
            rhs: literal_m(rhs),
        },
        TopLevelDefinition::Extern { name, rhs } => TopLevelDefinitionM::Extern {
            name: name@,
            rhs: type_name_m(rhs),
        },
    }
}

pub open spec fn file_m(f: File) -> FileM {
    FileM { definitions: definitions_m(f.definitions@) }
}

pub proof fn lemma_type_names_push(s: Seq<TypeName>, x: TypeName)
    ensures
        type_names_m(s.push(x)) == type_names_m(s).push(type_name_m(x)),
{
    assert(s.push(x).subrange(0, s.len() as int) =~= s);
}

pub proof fn lemma_exprs_push(s: Seq<Expr>, x: Expr)
    ensures
        exprs_m(s.push(x)) == exprs_m(s).push(expr_m(x)),
{
    assert(s.push(x).subrange(0, s.len() as int) =~= s);
}

pub proof fn lemma_arms_push(s: Seq<(Literal, Expr)>, x: (Literal, Expr))
    ensures
        arms_m(s.push(x)) == arms_m(s).push((literal_m(x.0), expr_m(x.1))),
{
    assert(s.push(x).subrange(0, s.len() as int) =~= s);
}

pub open spec fn definitions_m(s: Seq<TopLevelDefinition>) -> Seq<TopLevelDefinitionM> {
    s.map_values(|d: TopLevelDefinition| definition_m(d))
}

pub proof fn lemma_annotated_push(s: Seq<AnnotatedIdent>, x: AnnotatedIdent)
    ensures
        annotated_list_m(s.push(x)) == annotated_list_m(s).push(annotated_m(x)),
{
    assert(annotated_list_m(s.push(x)) =~= annotated_list_m(s).push(annotated_m(x)));
}

pub proof fn lemma_idents_push(s: Seq<Ident>, x: Ident)
    ensures
        idents_m(s.push(x)) == idents_m(s).push(x@),
{
    assert(idents_m(s.push(x)) =~= idents_m(s).push(x@));
}

pub proof fn lemma_constrained_push(s: Seq<ConstrainedType>, x: ConstrainedType)
    ensures
        constrained_list_m(s.push(x)) == constrained_list_m(s).push(constrained_m(x)),
{
    assert(constrained_list_m(s.push(x)) =~= constrained_list_m(s).push(constrained_m(x)));
}

pub proof fn lemma_definitions_push(s: Seq<TopLevelDefinition>, x: TopLevelDefinition)
    ensures
        definitions_m(s.push(x)) == definitions_m(s).push(definition_m(x)),
{
    assert(definitions_m(s.push(x)) =~= definitions_m(s).push(definition_m(x)));
}

} // verus!
