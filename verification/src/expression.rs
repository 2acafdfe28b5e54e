//! The expression tree: boolean composition of comparisons over literals.

use vstd::prelude::*;

use crate::schema::{SpecValue, Value};

verus! {

broadcast use vstd::std_specs::vec::group_vec_axioms;

/// A boolean predicate over a target record.
#[derive(Debug)]
pub enum Expression {
    And(And),
    Or(Or),
    Not(Not),
    Operation(Operation),
}

/// Conjunction of two or more subexpressions (two or more when built by the
/// parser; any non-zero arity when built programmatically).
#[derive(Debug)]
pub struct And(pub Vec<Expression>);

/// Disjunction, dual to [`And`].
#[derive(Debug)]
pub struct Or(pub Vec<Expression>);

/// Negation of a single subexpression.
#[derive(Debug)]
pub struct Not(pub Box<Expression>);

/// One comparison: left operand, operator, right operand.
#[derive(Debug)]
pub struct Operation {
    pub lhs: Literal,
    pub op: Operator,
    pub rhs: Literal,
}

/// An operand: either an inline value or a reference to a schema field,
/// named by its (possibly colon-separated) path.
#[derive(Debug)]
pub enum Literal {
    LiteralValue(Value),
    LiteralField(Vec<u8>),
}

/// The closed set of comparison operators.
#[derive(Clone, Copy, Debug, PartialEq, Eq, Structural)]
pub enum Operator {
    Eq,
    Ne,
    Gt,
    Gte,
    Lt,
    Lte,
    In,
}

/// Mathematical model of an [`Expression`]: the same tree over `Seq`-valued
/// payloads, used by every contract in this crate.
pub enum SpecExpression {
    And(Seq<SpecExpression>),
    Or(Seq<SpecExpression>),
    Not(Box<SpecExpression>),
    Operation(SpecOperation),
}

/// Model of an [`Operation`].
pub struct SpecOperation {
    pub lhs: SpecLiteral,
    pub op: Operator,
    pub rhs: SpecLiteral,
}

/// Model of a [`Literal`].
pub enum SpecLiteral {
    Value(SpecValue),
    Field(Seq<u8>),
}

impl DeepView for Literal {
    type V = SpecLiteral;

    open spec fn deep_view(&self) -> SpecLiteral {
        match self {
            Literal::LiteralValue(v) => SpecLiteral::Value(v.deep_view()),
            Literal::LiteralField(name) => SpecLiteral::Field(name@),
        }
    }
}

impl DeepView for Operation {
    type V = SpecOperation;

    open spec fn deep_view(&self) -> SpecOperation {
        SpecOperation { lhs: self.lhs.deep_view(), op: self.op, rhs: self.rhs.deep_view() }
    }
}

impl DeepView for Expression {
    type V = SpecExpression;

    open spec fn deep_view(&self) -> SpecExpression
        decreases self,
    {
        match self {
            Expression::And(and) => SpecExpression::And(deep_view_seq(and.0@)),
            Expression::Or(or) => SpecExpression::Or(deep_view_seq(or.0@)),
            Expression::Not(not) => SpecExpression::Not(Box::new((*not.0).deep_view())),
            Expression::Operation(op) => SpecExpression::Operation(op.deep_view()),
        }
    }
}

/// The models of a sequence of subexpressions, elementwise.
pub open spec fn deep_view_seq(s: Seq<Expression>) -> Seq<SpecExpression>
    decreases s,
{
    if s.len() == 0 {
        Seq::empty()
    } else {
        seq![s.first().deep_view()] + deep_view_seq(s.drop_first())
    }
}

/// `deep_view_seq` is the elementwise model of its argument.
pub broadcast proof fn lemma_deep_view_seq(s: Seq<Expression>)
    ensures
        (#[trigger] deep_view_seq(s)).len() == s.len(),
        forall|i: int| 0 <= i < s.len() ==> deep_view_seq(s)[i] == s[i].deep_view(),
    decreases s.len(),
{
    if s.len() > 0 {
        lemma_deep_view_seq(s.drop_first());
        assert(deep_view_seq(s) == seq![s.first().deep_view()] + deep_view_seq(s.drop_first()));
        assert forall|i: int| 0 <= i < s.len() implies deep_view_seq(s)[i]
            == s[i].deep_view() by {
            if i > 0 {
                assert(deep_view_seq(s)[i] == deep_view_seq(s.drop_first())[i - 1]);
                assert(s.drop_first()[i - 1] == s[i]);
            }
        }
    }
}

impl And {
    pub fn new(subexpressions: Vec<Expression>) -> (r: Self)
        ensures
            r.deep_view() == SpecExpression::And(deep_view_seq(subexpressions@)),
            r@ == subexpressions@,
    {
        Self(subexpressions)
    }

    pub fn get_subexpressions(&self) -> (r: &Vec<Expression>)
        ensures
            r@ == self@,
            deep_view_seq(r@) == self.deep_view()->And_0,
    {
        &self.0
    }
}

impl View for And {
    type V = Seq<Expression>;

    open spec fn view(&self) -> Seq<Expression> {
        self.0@
    }
}

impl DeepView for And {
    type V = SpecExpression;

    open spec fn deep_view(&self) -> SpecExpression {
        Expression::And(*self).deep_view()
    }
}

impl Or {
    pub fn new(subexpressions: Vec<Expression>) -> (r: Self)
        ensures
            r.deep_view() == SpecExpression::Or(deep_view_seq(subexpressions@)),
            r@ == subexpressions@,
    {
        Self(subexpressions)
    }

    pub fn get_subexpressions(&self) -> (r: &Vec<Expression>)
        ensures
            r@ == self@,
            deep_view_seq(r@) == self.deep_view()->Or_0,
    {
        &self.0
    }
}

impl View for Or {
    type V = Seq<Expression>;

    open spec fn view(&self) -> Seq<Expression> {
        self.0@
    }
}

impl DeepView for Or {
    type V = SpecExpression;

    open spec fn deep_view(&self) -> SpecExpression {
        Expression::Or(*self).deep_view()
    }
}

impl Not {
    pub fn new(subexpression: Expression) -> (r: Self)
        ensures
            r.deep_view() == SpecExpression::Not(Box::new(subexpression.deep_view())),
            *r@ == subexpression,
    {
        Self(Box::new(subexpression))
    }

    pub fn get_subexpression(&self) -> (r: &Expression)
        ensures
            r == self@,
            r.deep_view() == *self.deep_view()->Not_0,
    {
        &self.0
    }
}

impl View for Not {
    type V = Box<Expression>;

    open spec fn view(&self) -> Box<Expression> {
        self.0
    }
}

impl DeepView for Not {
    type V = SpecExpression;

    open spec fn deep_view(&self) -> SpecExpression {
        Expression::Not(*self).deep_view()
    }
}

/// Clones a subexpression list, with its model pinned down.
fn clone_exprs(v: &Vec<Expression>) -> (r: Vec<Expression>)
    ensures
        deep_view_seq(r@) == deep_view_seq(v@),
    decreases v,
{
    let mut out: Vec<Expression> = Vec::new();
    let mut k: usize = 0;
    while k < v.len()
        invariant
            k <= v@.len(),
            out@.len() == k,
            forall|i: int| 0 <= i < k ==> out@[i].deep_view() == #[trigger] v@[i].deep_view(),
        decreases v@.len() - k,
    {
        out.push(v[k].clone());
        k = k + 1;
    }
    proof {
        lemma_deep_view_seq(out@);
        lemma_deep_view_seq(v@);
        assert(deep_view_seq(out@) =~= deep_view_seq(v@));
    }
    out
}

impl Clone for Expression {
    /// A clone keeps the whole tree's model.
    fn clone(&self) -> (r: Self)
        ensures
            r.deep_view() == self.deep_view(),
        decreases self,
    {
        match self {
            Expression::And(and) => Expression::And(And(clone_exprs(&and.0))),
            Expression::Or(or) => Expression::Or(Or(clone_exprs(&or.0))),
            Expression::Not(not) => Expression::Not(Not(Box::new((*not.0).clone()))),
            Expression::Operation(op) => Expression::Operation(op.clone()),
        }
    }
}

impl Clone for And {
    fn clone(&self) -> (r: Self)
        ensures
            r.deep_view() == self.deep_view(),
    {
        And(clone_exprs(&self.0))
    }
}

impl Clone for Or {
    fn clone(&self) -> (r: Self)
        ensures
            r.deep_view() == self.deep_view(),
    {
        Or(clone_exprs(&self.0))
    }
}

impl Clone for Not {
    fn clone(&self) -> (r: Self)
        ensures
            r.deep_view() == self.deep_view(),
    {
        Not(Box::new((*self.0).clone()))
    }
}

impl Clone for Operation {
    fn clone(&self) -> (r: Self)
        ensures
            r.deep_view() == self.deep_view(),
    {
        Operation { lhs: self.lhs.clone(), op: self.op, rhs: self.rhs.clone() }
    }
}

impl Clone for Literal {
    fn clone(&self) -> (r: Self)
        ensures
            r.deep_view() == self.deep_view(),
    {
        match self {
            Literal::LiteralValue(v) => Literal::LiteralValue(v.clone()),
            Literal::LiteralField(name) => Literal::LiteralField(crate::schema::clone_bytes(name)),
        }
    }
}

impl Operation {
    pub fn new(lhs: Literal, op: Operator, rhs: Literal) -> (r: Self)
        ensures
            r.lhs == lhs,
            r.op == op,
            r.rhs == rhs,
    {
        Self { lhs, op, rhs }
    }
}

impl Operator {
    /// The canonical source token of this operator.
    pub fn fmt_static(&self) -> (r: &'static str)
        ensures
            r@ == spec_operator_text(*self),
    {
        match self {
            Operator::Eq => "==",
            Operator::Ne => "!=",
            Operator::Gt => ">",
            Operator::Gte => ">=",
            Operator::Lt => "<",
            Operator::Lte => "<=",
            Operator::In => "IN",
        }
    }
}

/// The canonical token of each operator, as characters.
pub open spec fn spec_operator_text(op: Operator) -> Seq<char> {
    match op {
        Operator::Eq => "=="@,
        Operator::Ne => "!="@,
        Operator::Gt => ">"@,
        Operator::Gte => ">="@,
        Operator::Lt => "<"@,
        Operator::Lte => "<="@,
        Operator::In => "IN"@,
    }
}

} // verus!
