//! The validator and executor: type-checking an expression against a
//! schema, and evaluating it against a target record.

use vstd::prelude::*;

use crate::expression::{
    deep_view_seq, Expression, Literal, Operation, Operator, SpecExpression, SpecLiteral,
    SpecOperation,
};
use crate::misc::{is_sublist, spec_contains_sublist};
use crate::number::{num_eq, num_le, num_lt, spec_num_eq, spec_num_le, spec_num_lt};
use crate::pattern::{regex_find, regex_match, regex_ok, regex_valid};
use crate::schema::{
    bytes_equal, clone_bytes, Schema, SchemaTarget, SpecValue, spec_value_type, Type, Value,
};
use vstd::string::StringExecFns;

verus! {

broadcast use {vstd::std_specs::vec::group_vec_axioms, crate::expression::lemma_deep_view_seq};

/// An operator applied to a pair of operand types it does not accept.
#[derive(Clone, Copy, Debug, PartialEq, Eq, Structural)]
pub struct InvalidOperatorError(pub Type, pub Operator, pub Type);

impl InvalidOperatorError {
    /// The diagnostic line for this rejection, as in
    /// `Cannot check if Number > String`.
    pub fn message(&self) -> (r: String)
        ensures
            r@ == "Cannot check if "@ + crate::schema::spec_type_name(self.0) + " "@
                + crate::expression::spec_operator_text(self.1) + " "@
                + crate::schema::spec_type_name(self.2),
    {
        let mut out = String::from_str("Cannot check if ");
        out.append(self.0.variant_name());
        out.append(" ");
        out.append(self.1.fmt_static());
        out.append(" ");
        out.append(self.2.variant_name());
        out
    }
}

/// Why validation rejected an expression.
#[derive(Debug)]
pub enum ValidationError {
    /// No field with this path is registered.
    InvalidFieldError(Vec<u8>),
    InvalidOperatorError(InvalidOperatorError),
}

/// Model of a [`ValidationError`].
pub enum SpecValidationError {
    InvalidFieldError(Seq<u8>),
    InvalidOperatorError(InvalidOperatorError),
}

impl DeepView for ValidationError {
    type V = SpecValidationError;

    open spec fn deep_view(&self) -> SpecValidationError {
        match self {
            ValidationError::InvalidFieldError(name) => SpecValidationError::InvalidFieldError(
                name@,
            ),
            ValidationError::InvalidOperatorError(e) => SpecValidationError::InvalidOperatorError(
                *e,
            ),
        }
    }
}

/// Why execution of an expression failed.
#[derive(Debug)]
pub enum ExecutionError {
    /// No field with this path is registered.
    InvalidFieldError(Vec<u8>),
    InvalidOperatorError(InvalidOperatorError),
    /// A datetime range must have exactly two elements.
    InvalidDateRangeError,
    /// The pattern of a regex literal does not compile.
    InvalidRegexError,
}

/// Model of an [`ExecutionError`].
pub enum SpecExecutionError {
    InvalidFieldError(Seq<u8>),
    InvalidOperatorError(InvalidOperatorError),
    InvalidDateRangeError,
    InvalidRegexError,
}

impl DeepView for ExecutionError {
    type V = SpecExecutionError;

    open spec fn deep_view(&self) -> SpecExecutionError {
        match self {
            ExecutionError::InvalidFieldError(name) => SpecExecutionError::InvalidFieldError(
                name@,
            ),
            ExecutionError::InvalidOperatorError(e) => SpecExecutionError::InvalidOperatorError(
                *e,
            ),
            ExecutionError::InvalidDateRangeError => SpecExecutionError::InvalidDateRangeError,
            ExecutionError::InvalidRegexError => SpecExecutionError::InvalidRegexError,
        }
    }
}

/// The operator-compatibility table: which operators are allowed on a
/// pair of operand types. A null operand admits `Eq`, `Ne` and `In`
/// whatever the other side is.
pub open spec fn spec_op_allowed(lhs: Type, op: Operator, rhs: Type) -> bool {
    if lhs is Null || rhs is Null {
        op is Eq || op is Ne || op is In
    } else {
        match lhs {
            Type::String => match rhs {
                Type::String => op is Eq || op is Ne || op is In,
                Type::StringList => op is In,
                _ => false,
            },
            Type::Regex => match rhs {
                Type::String => op is In,
                Type::StringList => op is In,
                _ => false,
            },
            Type::Number => match rhs {
                Type::Number => !(op is In),
                Type::NumberList => op is In,
                _ => false,
            },
            Type::Boolean => match rhs {
                Type::Boolean => op is Eq || op is Ne,
                Type::BooleanList => op is In,
                _ => false,
            },
            Type::Raw => match rhs {
                Type::Raw => op is Eq || op is Ne || op is In,
                Type::RawList => op is In,
                _ => false,
            },
            Type::DateTime => match rhs {
                Type::DateTime => !(op is In),
                Type::DateTimeList => op is In,
                _ => false,
            },
            Type::StringList => rhs is StringList && (op is Eq || op is Ne),
            Type::NumberList => rhs is NumberList && (op is Eq || op is Ne),
            Type::BooleanList => rhs is BooleanList && (op is Eq || op is Ne),
            Type::RawList => rhs is RawList && (op is Eq || op is Ne),
            Type::DateTimeList => rhs is DateTimeList && (op is Eq || op is Ne),
            Type::Null => true,
        }
    }
}

/// The type of a literal under a schema: inline values carry their own
/// type; a field reference has the registered type, or is an error.
pub open spec fn spec_literal_type(schema: Map<Seq<u8>, Type>, lit: SpecLiteral) -> Result<
    Type,
    SpecValidationError,
> {
    match lit {
        SpecLiteral::Value(v) => Ok(spec_value_type(v)),
        SpecLiteral::Field(name) => if schema.contains_key(name) {
            Ok(schema[name])
        } else {
            Err(SpecValidationError::InvalidFieldError(name))
        },
    }
}

/// Validation of one operation: resolve both operand types, then consult
/// the compatibility table.
pub open spec fn spec_validate_operation(schema: Map<Seq<u8>, Type>, op: SpecOperation) -> Result<
    (),
    SpecValidationError,
> {
    match spec_literal_type(schema, op.lhs) {
        Err(e) => Err(e),
        Ok(lt) => match spec_literal_type(schema, op.rhs) {
            Err(e) => Err(e),
            Ok(rt) => if spec_op_allowed(lt, op.op, rt) {
                Ok(())
            } else {
                Err(SpecValidationError::InvalidOperatorError(InvalidOperatorError(lt, op.op, rt)))
            },
        },
    }
}

/// Validation: a depth-first, left-to-right walk that stops at the first
/// violation.
pub open spec fn spec_validate(schema: Map<Seq<u8>, Type>, e: SpecExpression) -> Result<
    (),
    SpecValidationError,
>
    decreases e,
{
    match e {
        SpecExpression::And(subs) => spec_validate_seq(schema, subs),
        SpecExpression::Or(subs) => spec_validate_seq(schema, subs),
        SpecExpression::Not(inner) => spec_validate(schema, *inner),
        SpecExpression::Operation(op) => spec_validate_operation(schema, op),
    }
}

/// Validation of subexpressions in order, stopping at the first error.
pub open spec fn spec_validate_seq(schema: Map<Seq<u8>, Type>, subs: Seq<SpecExpression>) -> Result<
    (),
    SpecValidationError,
>
    decreases subs,
{
    if subs.len() == 0 {
        Ok(())
    } else {
        match spec_validate(schema, subs.first()) {
            Err(e) => Err(e),
            Ok(u) => spec_validate_seq(schema, subs.drop_first()),
        }
    }
}

/// What a target's extraction yields for every field path.
pub open spec fn spec_target_map<T: SchemaTarget>(target: &T) -> Map<Seq<u8>, Option<SpecValue>> {
    Map::total(|p: Seq<u8>| target.field_value(p))
}

/// The value of a literal at execution time: inline values stand for
/// themselves; a registered field's value comes from the target, with an
/// absent value read as null; an unregistered field is an error.
pub open spec fn spec_extract(
    schema: Map<Seq<u8>, Type>,
    vals: Map<Seq<u8>, Option<SpecValue>>,
    lit: SpecLiteral,
) -> Result<SpecValue, SpecExecutionError> {
    match lit {
        SpecLiteral::Value(v) => Ok(v),
        SpecLiteral::Field(name) => if schema.contains_key(name) {
            match vals[name] {
                Some(v) => Ok(v),
                None => Ok(SpecValue::Null),
            }
        } else {
            Err(SpecExecutionError::InvalidFieldError(name))
        },
    }
}

/// The invalid-operator error for a pair of values.
pub open spec fn spec_value_op_error(lv: SpecValue, op: Operator, rv: SpecValue) -> Result<
    bool,
    SpecExecutionError,
> {
    Err(
        SpecExecutionError::InvalidOperatorError(
            InvalidOperatorError(spec_value_type(lv), op, spec_value_type(rv)),
        ),
    )
}

/// One comparison on two non-null values, per the dispatch table.
pub open spec fn spec_apply_op(lv: SpecValue, op: Operator, rv: SpecValue) -> Result<
    bool,
    SpecExecutionError,
> {
    match lv {
        SpecValue::String(a) => match rv {
            SpecValue::String(b) => match op {
                Operator::Eq => Ok(a == b),
                Operator::Ne => Ok(a != b),
                Operator::In => Ok(spec_contains_sublist(b, a)),
                _ => spec_value_op_error(lv, op, rv),
            },
            SpecValue::StringList(l) => match op {
                Operator::In => Ok(l.contains(a)),
                _ => spec_value_op_error(lv, op, rv),
            },
            _ => spec_value_op_error(lv, op, rv),
        },
        SpecValue::Regex(p) => match rv {
            SpecValue::String(b) => match op {
                Operator::In => if regex_valid(p) {
                    Ok(regex_match(p, b))
                } else {
                    Err(SpecExecutionError::InvalidRegexError)
                },
                _ => spec_value_op_error(lv, op, rv),
            },
            SpecValue::StringList(l) => match op {
                Operator::In => if regex_valid(p) {
                    Ok(spec_regex_match_any(p, l))
                } else {
                    Err(SpecExecutionError::InvalidRegexError)
                },
                _ => spec_value_op_error(lv, op, rv),
            },
            _ => spec_value_op_error(lv, op, rv),
        },
        SpecValue::Number(a) => match rv {
            SpecValue::Number(b) => match op {
                Operator::Eq => Ok(spec_num_eq(a, b)),
                Operator::Ne => Ok(!spec_num_eq(a, b)),
                Operator::Gt => Ok(spec_num_lt(b, a)),
                Operator::Gte => Ok(spec_num_le(b, a)),
                Operator::Lt => Ok(spec_num_lt(a, b)),
                Operator::Lte => Ok(spec_num_le(a, b)),
                Operator::In => spec_value_op_error(lv, op, rv),
            },
            SpecValue::NumberList(l) => match op {
                Operator::In => Ok(spec_num_list_contains(l, a)),
                _ => spec_value_op_error(lv, op, rv),
            },
            _ => spec_value_op_error(lv, op, rv),
        },
        SpecValue::Boolean(a) => match rv {
            SpecValue::Boolean(b) => match op {
                Operator::Eq => Ok(a == b),
                Operator::Ne => Ok(a != b),
                _ => spec_value_op_error(lv, op, rv),
            },
            SpecValue::BooleanList(l) => match op {
                Operator::In => Ok(l.contains(a)),
                _ => spec_value_op_error(lv, op, rv),
            },
            _ => spec_value_op_error(lv, op, rv),
        },
        SpecValue::Raw(a) => match rv {
            SpecValue::Raw(b) => match op {
                Operator::Eq => Ok(a == b),
                Operator::Ne => Ok(a != b),
                Operator::In => Ok(spec_contains_sublist(b, a)),
                _ => spec_value_op_error(lv, op, rv),
            },
            SpecValue::RawList(l) => match op {
                Operator::In => Ok(l.contains(a)),
                _ => spec_value_op_error(lv, op, rv),
            },
            _ => spec_value_op_error(lv, op, rv),
        },
        SpecValue::DateTime(a) => match rv {
            SpecValue::DateTime(b) => match op {
                Operator::Eq => Ok(a == b),
                Operator::Ne => Ok(a != b),
                Operator::Gt => Ok(a > b),
                Operator::Gte => Ok(a >= b),
                Operator::Lt => Ok(a < b),
                Operator::Lte => Ok(a <= b),
                Operator::In => spec_value_op_error(lv, op, rv),
            },
            SpecValue::DateTimeList(l) => match op {
                Operator::In => if l.len() != 2 {
                    Err(SpecExecutionError::InvalidDateRangeError)
                } else {
                    Ok(l[0] <= a && a < l[1])
                },
                _ => spec_value_op_error(lv, op, rv),
            },
            _ => spec_value_op_error(lv, op, rv),
        },
        SpecValue::StringList(a) => match rv {
            SpecValue::StringList(b) => match op {
                Operator::Eq => Ok(a == b),
                Operator::Ne => Ok(a != b),
                _ => spec_value_op_error(lv, op, rv),
            },
            _ => spec_value_op_error(lv, op, rv),
        },
        SpecValue::NumberList(a) => match rv {
            SpecValue::NumberList(b) => match op {
                Operator::Eq => Ok(spec_num_lists_eq(a, b)),
                Operator::Ne => Ok(!spec_num_lists_eq(a, b)),
                _ => spec_value_op_error(lv, op, rv),
            },
            _ => spec_value_op_error(lv, op, rv),
        },
        SpecValue::BooleanList(a) => match rv {
            SpecValue::BooleanList(b) => match op {
                Operator::Eq => Ok(a == b),
                Operator::Ne => Ok(a != b),
                _ => spec_value_op_error(lv, op, rv),
            },
            _ => spec_value_op_error(lv, op, rv),
        },
        SpecValue::RawList(a) => match rv {
            SpecValue::RawList(b) => match op {
                Operator::Eq => Ok(a == b),
                Operator::Ne => Ok(a != b),
                _ => spec_value_op_error(lv, op, rv),
            },
            _ => spec_value_op_error(lv, op, rv),
        },
        SpecValue::DateTimeList(a) => match rv {
            SpecValue::DateTimeList(b) => match op {
                Operator::Eq => Ok(a == b),
                Operator::Ne => Ok(a != b),
                _ => spec_value_op_error(lv, op, rv),
            },
            _ => spec_value_op_error(lv, op, rv),
        },
        SpecValue::Null => Ok(false),
    }
}

/// The (valid) pattern matches at least one element.
pub open spec fn spec_regex_match_any(p: Seq<u8>, l: Seq<Seq<u8>>) -> bool {
    exists|i: int| 0 <= i < l.len() && regex_match(p, #[trigger] l[i])
}

/// Some element is IEEE-equal to `a`.
pub open spec fn spec_num_list_contains(l: Seq<u64>, a: u64) -> bool {
    exists|i: int| 0 <= i < l.len() && spec_num_eq(a, #[trigger] l[i])
}

/// Elementwise IEEE equality of two number lists: bitwise-different
/// values can be equal (the zeroes) and bitwise-equal NaNs are not.
pub open spec fn spec_num_lists_eq(a: Seq<u64>, b: Seq<u64>) -> bool {
    a.len() == b.len() && forall|i: int| 0 <= i < a.len() ==> spec_num_eq(a[i], #[trigger] b[i])
}

/// One operation at execution time: extract both sides, handle null, then
/// dispatch on the value types.
pub open spec fn spec_execute_operation(
    schema: Map<Seq<u8>, Type>,
    vals: Map<Seq<u8>, Option<SpecValue>>,
    op: SpecOperation,
) -> Result<bool, SpecExecutionError> {
    match spec_extract(schema, vals, op.lhs) {
        Err(e) => Err(e),
        Ok(lv) => match spec_extract(schema, vals, op.rhs) {
            Err(e) => Err(e),
            Ok(rv) => if lv is Null {
                if rv is Null {
                    Ok(op.op is Eq)
                } else {
                    Ok(op.op is Ne)
                }
            } else if rv is Null {
                Ok(op.op is Ne)
            } else {
                spec_apply_op(lv, op.op, rv)
            },
        },
    }
}

/// Execution: `And` and `Or` evaluate children left to right and
/// short-circuit; errors surface in evaluation order.
pub open spec fn spec_execute(
    schema: Map<Seq<u8>, Type>,
    vals: Map<Seq<u8>, Option<SpecValue>>,
    e: SpecExpression,
) -> Result<bool, SpecExecutionError>
    decreases e,
{
    match e {
        SpecExpression::And(subs) => spec_execute_and(schema, vals, subs),
        SpecExpression::Or(subs) => spec_execute_or(schema, vals, subs),
        SpecExpression::Not(inner) => match spec_execute(schema, vals, *inner) {
            Err(e) => Err(e),
            Ok(b) => Ok(!b),
        },
        SpecExpression::Operation(op) => spec_execute_operation(schema, vals, op),
    }
}

/// Conjunction: false at the first false child, errors in order.
pub open spec fn spec_execute_and(
    schema: Map<Seq<u8>, Type>,
    vals: Map<Seq<u8>, Option<SpecValue>>,
    subs: Seq<SpecExpression>,
) -> Result<bool, SpecExecutionError>
    decreases subs,
{
    if subs.len() == 0 {
        Ok(true)
    } else {
        match spec_execute(schema, vals, subs.first()) {
            Err(e) => Err(e),
            Ok(false) => Ok(false),
            Ok(b) => spec_execute_and(schema, vals, subs.drop_first()),
        }
    }
}

/// Disjunction: true at the first true child, errors in order.
pub open spec fn spec_execute_or(
    schema: Map<Seq<u8>, Type>,
    vals: Map<Seq<u8>, Option<SpecValue>>,
    subs: Seq<SpecExpression>,
) -> Result<bool, SpecExecutionError>
    decreases subs,
{
    if subs.len() == 0 {
        Ok(false)
    } else {
        match spec_execute(schema, vals, subs.first()) {
            Err(e) => Err(e),
            Ok(true) => Ok(true),
            Ok(b) => spec_execute_or(schema, vals, subs.drop_first()),
        }
    }
}

/// A schema-bound evaluator. Immutable once built: `validate` and
/// `execute` are functions of the schema, the expression and the target.
pub struct Engine {
    schema: Schema,
}

impl View for Engine {
    type V = Map<Seq<u8>, Type>;

    closed spec fn view(&self) -> Map<Seq<u8>, Type> {
        self.schema@
    }
}

impl Engine {
    pub fn new(schema: Schema) -> (r: Self)
        ensures
            r@ == schema@,
    {
        Self { schema }
    }

    /// Type-checks the expression against the schema: every field path
    /// must be registered and every operator admitted by the table, else
    /// the first violation (depth-first, left-to-right) is returned.
    pub fn validate(&self, expression: &Expression) -> (r: Result<(), ValidationError>)
        ensures
            (match r {
                Ok(u) => spec_validate(self@, expression.deep_view()) is Ok,
                Err(e) => spec_validate(self@, expression.deep_view()) == Err::<
                    (),
                    SpecValidationError,
                >(e.deep_view()),
            }),
        decreases expression,
    {
        match expression {
            Expression::And(and) => self.validate_all(&and.0),
            Expression::Or(or) => self.validate_all(&or.0),
            Expression::Not(not) => self.validate(&not.0),
            Expression::Operation(operation) => self.validate_operation(operation),
        }
    }

    /// Validates a list of subexpressions in order.
    fn validate_all(&self, subs: &Vec<Expression>) -> (r: Result<(), ValidationError>)
        ensures
            (match r {
                Ok(u) => spec_validate_seq(self@, deep_view_seq(subs@)) is Ok,
                Err(e) => spec_validate_seq(self@, deep_view_seq(subs@)) == Err::<
                    (),
                    SpecValidationError,
                >(e.deep_view()),
            }),
        decreases subs,
    {
        let ghost dvs = deep_view_seq(subs@);
        proof {
            assert(dvs.skip(0) =~= dvs);
        }
        let mut k: usize = 0;
        while k < subs.len()
            invariant
                k <= subs@.len(),
                dvs == deep_view_seq(subs@),
                dvs.len() == subs@.len(),
                spec_validate_seq(self@, dvs) == spec_validate_seq(self@, dvs.skip(k as int)),
            decreases subs@.len() - k,
        {
            proof {
                assert(dvs.skip(k as int).first() == dvs[k as int]);
            }
            match self.validate(&subs[k]) {
                Err(e) => {
                    return Err(e);
                },
                Ok(u) => {},
            }
            proof {
                assert(dvs.skip(k as int).drop_first() =~= dvs.skip(k + 1 as int));
            }
            k = k + 1;
        }
        proof {
            assert(dvs.skip(subs@.len() as int).len() == 0);
        }
        Ok(())
    }

    /// Validates one operation.
    fn validate_operation(&self, operation: &Operation) -> (r: Result<(), ValidationError>)
        ensures
            (match r {
                Ok(u) => spec_validate_operation(self@, operation.deep_view()) is Ok,
                Err(e) => spec_validate_operation(self@, operation.deep_view()) == Err::<
                    (),
                    SpecValidationError,
                >(e.deep_view()),
            }),
    {
        let lhs = match self.extract_literal_type(&operation.lhs) {
            Ok(t) => t,
            Err(e) => {
                return Err(e);
            },
        };
        let rhs = match self.extract_literal_type(&operation.rhs) {
            Ok(t) => t,
            Err(e) => {
                return Err(e);
            },
        };
        if op_allowed(lhs, operation.op, rhs) {
            Ok(())
        } else {
            Err(ValidationError::InvalidOperatorError(InvalidOperatorError(lhs, operation.op, rhs)))
        }
    }

    /// The type of a literal under this engine's schema.
    fn extract_literal_type(&self, literal: &Literal) -> (r: Result<Type, ValidationError>)
        ensures
            (match r {
                Ok(t) => spec_literal_type(self@, literal.deep_view()) == Ok::<
                    Type,
                    SpecValidationError,
                >(t),
                Err(e) => spec_literal_type(self@, literal.deep_view()) == Err::<
                    Type,
                    SpecValidationError,
                >(e.deep_view()),
            }),
    {
        match literal {
            Literal::LiteralValue(value) => Ok(value.get_type()),
            Literal::LiteralField(field_name) => match self.schema.get_field_bytes(
                field_name.as_slice(),
            ) {
                Some(field) => Ok(field.field_type),
                None => Err(ValidationError::InvalidFieldError(clone_bytes(field_name))),
            },
        }
    }

    /// Evaluates the expression against a target record, under this
    /// engine's schema.
    pub fn execute<T: SchemaTarget>(&self, expression: &Expression, target: &T) -> (r: Result<
        bool,
        ExecutionError,
    >)
        ensures
            (match r {
                Ok(b) => spec_execute(self@, spec_target_map(target), expression.deep_view())
                    == Ok::<bool, SpecExecutionError>(b),
                Err(e) => spec_execute(self@, spec_target_map(target), expression.deep_view())
                    == Err::<bool, SpecExecutionError>(e.deep_view()),
            }),
        decreases expression,
    {
        match expression {
            Expression::And(and) => self.execute_and(&and.0, target),
            Expression::Or(or) => self.execute_or(&or.0, target),
            Expression::Not(not) => match self.execute(&not.0, target) {
                Ok(result) => Ok(!result),
                Err(e) => Err(e),
            },
            Expression::Operation(operation) => self.execute_operation(operation, target),
        }
    }

    /// Evaluates a conjunction left to right.
    fn execute_and<T: SchemaTarget>(&self, subs: &Vec<Expression>, target: &T) -> (r: Result<
        bool,
        ExecutionError,
    >)
        ensures
            (match r {
                Ok(b) => spec_execute_and(self@, spec_target_map(target), deep_view_seq(subs@))
                    == Ok::<bool, SpecExecutionError>(b),
                Err(e) => spec_execute_and(self@, spec_target_map(target), deep_view_seq(subs@))
                    == Err::<bool, SpecExecutionError>(e.deep_view()),
            }),
        decreases subs,
    {
        let ghost dvs = deep_view_seq(subs@);
        let ghost vals = spec_target_map(target);
        proof {
            assert(dvs.skip(0) =~= dvs);
        }
        let mut k: usize = 0;
        while k < subs.len()
            invariant
                k <= subs@.len(),
                dvs == deep_view_seq(subs@),
                vals == spec_target_map(target),
                dvs.len() == subs@.len(),
                spec_execute_and(self@, vals, dvs) == spec_execute_and(
                    self@,
                    vals,
                    dvs.skip(k as int),
                ),
            decreases subs@.len() - k,
        {
            proof {
                assert(dvs.skip(k as int).first() == dvs[k as int]);
            }
            match self.execute(&subs[k], target) {
                Err(e) => {
                    return Err(e);
                },
                Ok(false) => {
                    return Ok(false);
                },
                Ok(b) => {},
            }
            proof {
                assert(dvs.skip(k as int).drop_first() =~= dvs.skip(k + 1 as int));
            }
            k = k + 1;
        }
        proof {
            assert(dvs.skip(subs@.len() as int).len() == 0);
        }
        Ok(true)
    }

    /// Evaluates a disjunction left to right.
    fn execute_or<T: SchemaTarget>(&self, subs: &Vec<Expression>, target: &T) -> (r: Result<
        bool,
        ExecutionError,
    >)
        ensures
            (match r {
                Ok(b) => spec_execute_or(self@, spec_target_map(target), deep_view_seq(subs@))
                    == Ok::<bool, SpecExecutionError>(b),
                Err(e) => spec_execute_or(self@, spec_target_map(target), deep_view_seq(subs@))
                    == Err::<bool, SpecExecutionError>(e.deep_view()),
            }),
        decreases subs,
    {
        let ghost dvs = deep_view_seq(subs@);
        let ghost vals = spec_target_map(target);
        proof {
            assert(dvs.skip(0) =~= dvs);
        }
        let mut k: usize = 0;
        while k < subs.len()
            invariant
                k <= subs@.len(),
                dvs == deep_view_seq(subs@),
                vals == spec_target_map(target),
                dvs.len() == subs@.len(),
                spec_execute_or(self@, vals, dvs) == spec_execute_or(
                    self@,
                    vals,
                    dvs.skip(k as int),
                ),
            decreases subs@.len() - k,
        {
            proof {
                assert(dvs.skip(k as int).first() == dvs[k as int]);
            }
            match self.execute(&subs[k], target) {
                Err(e) => {
                    return Err(e);
                },
                Ok(true) => {
                    return Ok(true);
                },
                Ok(b) => {},
            }
            proof {
                assert(dvs.skip(k as int).drop_first() =~= dvs.skip(k + 1 as int));
            }
            k = k + 1;
        }
        proof {
            assert(dvs.skip(subs@.len() as int).len() == 0);
        }
        Ok(false)
    }

    /// Evaluates one operation against the target.
    fn execute_operation<T: SchemaTarget>(&self, operation: &Operation, target: &T) -> (r: Result<
        bool,
        ExecutionError,
    >)
        ensures
            (match r {
                Ok(b) => spec_execute_operation(
                    self@,
                    spec_target_map(target),
                    operation.deep_view(),
                ) == Ok::<bool, SpecExecutionError>(b),
                Err(e) => spec_execute_operation(
                    self@,
                    spec_target_map(target),
                    operation.deep_view(),
                ) == Err::<bool, SpecExecutionError>(e.deep_view()),
            }),
    {
        let lhs = match self.extract_literal(&operation.lhs, target) {
            Ok(v) => v,
            Err(e) => {
                return Err(e);
            },
        };
        let rhs = match self.extract_literal(&operation.rhs, target) {
            Ok(v) => v,
            Err(e) => {
                return Err(e);
            },
        };
        if lhs.is_null() {
            if rhs.is_null() {
                Ok(matches!(operation.op, Operator::Eq))
            } else {
                Ok(matches!(operation.op, Operator::Ne))
            }
        } else if rhs.is_null() {
            Ok(matches!(operation.op, Operator::Ne))
        } else {
            apply_op(&lhs, operation.op, &rhs)
        }
    }

    /// The value of a literal at execution time.
    fn extract_literal<T: SchemaTarget>(&self, literal: &Literal, target: &T) -> (r: Result<
        Value,
        ExecutionError,
    >)
        ensures
            (match r {
                Ok(v) => spec_extract(self@, spec_target_map(target), literal.deep_view())
                    == Ok::<SpecValue, SpecExecutionError>(v.deep_view()),
                Err(e) => spec_extract(self@, spec_target_map(target), literal.deep_view())
                    == Err::<SpecValue, SpecExecutionError>(e.deep_view()),
            }),
    {
        match literal {
            Literal::LiteralValue(value) => Ok(value.clone()),
            Literal::LiteralField(field_name) => match self.schema.get_field_bytes(
                field_name.as_slice(),
            ) {
                None => Err(ExecutionError::InvalidFieldError(clone_bytes(field_name))),
                Some(field) => match target.extract(field_name.as_slice()) {
                    Some(v) => Ok(v),
                    None => Ok(Value::Null),
                },
            },
        }
    }
}

/// The compatibility table, exec side.
fn op_allowed(lhs: Type, op: Operator, rhs: Type) -> (r: bool)
    ensures
        r == spec_op_allowed(lhs, op, rhs),
{
    if lhs.is_null() || rhs.is_null() {
        return matches!(op, Operator::Eq | Operator::Ne | Operator::In);
    }
    match lhs {
        Type::String => match rhs {
            Type::String => matches!(op, Operator::Eq | Operator::Ne | Operator::In),
            Type::StringList => matches!(op, Operator::In),
            _ => false,
        },
        Type::Regex => match rhs {
            Type::String => matches!(op, Operator::In),
            Type::StringList => matches!(op, Operator::In),
            _ => false,
        },
        Type::Number => match rhs {
            Type::Number => !matches!(op, Operator::In),
            Type::NumberList => matches!(op, Operator::In),
            _ => false,
        },
        Type::Boolean => match rhs {
            Type::Boolean => matches!(op, Operator::Eq | Operator::Ne),
            Type::BooleanList => matches!(op, Operator::In),
            _ => false,
        },
        Type::Raw => match rhs {
            Type::Raw => matches!(op, Operator::Eq | Operator::Ne | Operator::In),
            Type::RawList => matches!(op, Operator::In),
            _ => false,
        },
        Type::DateTime => match rhs {
            Type::DateTime => !matches!(op, Operator::In),
            Type::DateTimeList => matches!(op, Operator::In),
            _ => false,
        },
        Type::StringList => matches!(rhs, Type::StringList) && matches!(
            op,
            Operator::Eq | Operator::Ne,
        ),
        Type::NumberList => matches!(rhs, Type::NumberList) && matches!(
            op,
            Operator::Eq | Operator::Ne,
        ),
        Type::BooleanList => matches!(rhs, Type::BooleanList) && matches!(
            op,
            Operator::Eq | Operator::Ne,
        ),
        Type::RawList => matches!(rhs, Type::RawList) && matches!(op, Operator::Eq | Operator::Ne),
        Type::DateTimeList => matches!(rhs, Type::DateTimeList) && matches!(
            op,
            Operator::Eq | Operator::Ne,
        ),
        Type::Null => true,
    }
}

/// One comparison on two non-null values, exec side.
fn apply_op(lhs: &Value, op: Operator, rhs: &Value) -> (r: Result<bool, ExecutionError>)
    requires
        !(lhs.deep_view() is Null),
        !(rhs.deep_view() is Null),
    ensures
        (match r {
            Ok(b) => spec_apply_op(lhs.deep_view(), op, rhs.deep_view()) == Ok::<
                bool,
                SpecExecutionError,
            >(b),
            Err(e) => spec_apply_op(lhs.deep_view(), op, rhs.deep_view()) == Err::<
                bool,
                SpecExecutionError,
            >(e.deep_view()),
        }),
{
    let err = Err(
        ExecutionError::InvalidOperatorError(
            InvalidOperatorError(lhs.get_type(), op, rhs.get_type()),
        ),
    );
    match lhs {
        Value::String(a) => match rhs {
            Value::String(b) => match op {
                Operator::Eq => Ok(bytes_equal(a, b.as_slice())),
                Operator::Ne => Ok(!bytes_equal(a, b.as_slice())),
                Operator::In => Ok(is_sublist(b, a)),
                _ => err,
            },
            Value::StringList(l) => match op {
                Operator::In => Ok(list_contains_bytes(l, a)),
                _ => err,
            },
            _ => err,
        },
        Value::Regex(p) => match rhs {
            Value::String(b) => match op {
                Operator::In => if regex_ok(p.as_slice()) {
                    Ok(regex_find(p.as_slice(), b.as_slice()))
                } else {
                    Err(ExecutionError::InvalidRegexError)
                },
                _ => err,
            },
            Value::StringList(l) => match op {
                Operator::In => if regex_ok(p.as_slice()) {
                    Ok(regex_find_any(p, l))
                } else {
                    Err(ExecutionError::InvalidRegexError)
                },
                _ => err,
            },
            _ => err,
        },
        Value::Number(a) => match rhs {
            Value::Number(b) => match op {
                Operator::Eq => Ok(num_eq(*a, *b)),
                Operator::Ne => Ok(!num_eq(*a, *b)),
                Operator::Gt => Ok(num_lt(*b, *a)),
                Operator::Gte => Ok(num_le(*b, *a)),
                Operator::Lt => Ok(num_lt(*a, *b)),
                Operator::Lte => Ok(num_le(*a, *b)),
                Operator::In => err,
            },
            Value::NumberList(l) => match op {
                Operator::In => Ok(list_contains_num(l, *a)),
                _ => err,
            },
            _ => err,
        },
        Value::Boolean(a) => match rhs {
            Value::Boolean(b) => match op {
                Operator::Eq => Ok(*a == *b),
                Operator::Ne => Ok(*a != *b),
                _ => err,
            },
            Value::BooleanList(l) => match op {
                Operator::In => Ok(list_contains_bool(l, *a)),
                _ => err,
            },
            _ => err,
        },
        Value::Raw(a) => match rhs {
            Value::Raw(b) => match op {
                Operator::Eq => Ok(bytes_equal(a, b.as_slice())),
                Operator::Ne => Ok(!bytes_equal(a, b.as_slice())),
                Operator::In => Ok(is_sublist(b, a)),
                _ => err,
            },
            Value::RawList(l) => match op {
                Operator::In => Ok(list_contains_bytes(l, a)),
                _ => err,
            },
            _ => err,
        },
        Value::DateTime(a) => match rhs {
            Value::DateTime(b) => match op {
                Operator::Eq => Ok(*a == *b),
                Operator::Ne => Ok(*a != *b),
                Operator::Gt => Ok(*a > *b),
                Operator::Gte => Ok(*a >= *b),
                Operator::Lt => Ok(*a < *b),
                Operator::Lte => Ok(*a <= *b),
                Operator::In => err,
            },
            Value::DateTimeList(l) => match op {
                Operator::In => if l.len() != 2 {
                    Err(ExecutionError::InvalidDateRangeError)
                } else {
                    Ok(l[0] <= *a && *a < l[1])
                },
                _ => err,
            },
            _ => err,
        },
        Value::StringList(a) => match rhs {
            Value::StringList(b) => match op {
                Operator::Eq => Ok(byte_lists_equal(a, b)),
                Operator::Ne => Ok(!byte_lists_equal(a, b)),
                _ => err,
            },
            _ => err,
        },
        Value::NumberList(a) => match rhs {
            Value::NumberList(b) => match op {
                Operator::Eq => Ok(num_lists_equal(a, b)),
                Operator::Ne => Ok(!num_lists_equal(a, b)),
                _ => err,
            },
            _ => err,
        },
        Value::BooleanList(a) => match rhs {
            Value::BooleanList(b) => match op {
                Operator::Eq => Ok(bool_lists_equal(a, b)),
                Operator::Ne => Ok(!bool_lists_equal(a, b)),
                _ => err,
            },
            _ => err,
        },
        Value::RawList(a) => match rhs {
            Value::RawList(b) => match op {
                Operator::Eq => Ok(byte_lists_equal(a, b)),
                Operator::Ne => Ok(!byte_lists_equal(a, b)),
                _ => err,
            },
            _ => err,
        },
        Value::DateTimeList(a) => match rhs {
            Value::DateTimeList(b) => match op {
                Operator::Eq => Ok(i64_lists_equal(a, b)),
                Operator::Ne => Ok(!i64_lists_equal(a, b)),
                _ => err,
            },
            _ => err,
        },
        Value::Null => Ok(false),
    }
}

/// Whether a list of byte strings holds one equal to `x`.
fn list_contains_bytes(l: &Vec<Vec<u8>>, x: &Vec<u8>) -> (r: bool)
    ensures
        r == l.deep_view().contains(x@),
{
    let mut k: usize = 0;
    while k < l.len()
        invariant
            k <= l@.len(),
            forall|i: int| 0 <= i < k ==> l.deep_view()[i] != x@,
        decreases l@.len() - k,
    {
        proof {
            assert(l.deep_view()[k as int] == l@[k as int]@);
        }
        if bytes_equal(&l[k], x.as_slice()) {
            return true;
        }
        k = k + 1;
    }
    proof {
        if l.deep_view().contains(x@) {
            let i = choose|i: int| 0 <= i < l.deep_view().len() && l.deep_view()[i] == x@;
            assert(l.deep_view()[i] != x@);
        }
    }
    false
}

/// Whether a number list holds an IEEE-equal element.
fn list_contains_num(l: &Vec<u64>, x: u64) -> (r: bool)
    ensures
        r == spec_num_list_contains(l@, x),
{
    let mut k: usize = 0;
    while k < l.len()
        invariant
            k <= l@.len(),
            forall|i: int| 0 <= i < k ==> !spec_num_eq(x, #[trigger] l@[i]),
        decreases l@.len() - k,
    {
        if num_eq(x, l[k]) {
            return true;
        }
        k = k + 1;
    }
    false
}

/// Whether a boolean list holds `x`.
fn list_contains_bool(l: &Vec<bool>, x: bool) -> (r: bool)
    ensures
        r == l@.contains(x),
{
    let mut k: usize = 0;
    while k < l.len()
        invariant
            k <= l@.len(),
            forall|i: int| 0 <= i < k ==> l@[i] != x,
        decreases l@.len() - k,
    {
        if l[k] == x {
            return true;
        }
        k = k + 1;
    }
    proof {
        if l@.contains(x) {
            let i = choose|i: int| 0 <= i < l@.len() && l@[i] == x;
            assert(l@[i] != x);
        }
    }
    false
}

/// Whether the (valid) pattern matches some element of the list.
fn regex_find_any(p: &Vec<u8>, l: &Vec<Vec<u8>>) -> (r: bool)
    requires
        regex_valid(p@),
    ensures
        r == spec_regex_match_any(p@, l.deep_view()),
{
    let mut k: usize = 0;
    while k < l.len()
        invariant
            regex_valid(p@),
            k <= l@.len(),
            forall|i: int| 0 <= i < k ==> !regex_match(p@, #[trigger] l.deep_view()[i]),
        decreases l@.len() - k,
    {
        proof {
            assert(l.deep_view()[k as int] == l@[k as int]@);
        }
        if regex_find(p.as_slice(), l[k].as_slice()) {
            return true;
        }
        k = k + 1;
    }
    false
}

/// Elementwise equality of two lists of byte strings.
fn byte_lists_equal(a: &Vec<Vec<u8>>, b: &Vec<Vec<u8>>) -> (r: bool)
    ensures
        r == (a.deep_view() == b.deep_view()),
{
    if a.len() != b.len() {
        proof {
            assert(a.deep_view().len() == a@.len());
            assert(b.deep_view().len() == b@.len());
        }
        return false;
    }
    let mut k: usize = 0;
    while k < a.len()
        invariant
            k <= a@.len(),
            a@.len() == b@.len(),
            forall|i: int| 0 <= i < k ==> a.deep_view()[i] == b.deep_view()[i],
        decreases a@.len() - k,
    {
        proof {
            assert(a.deep_view()[k as int] == a@[k as int]@);
            assert(b.deep_view()[k as int] == b@[k as int]@);
        }
        if !bytes_equal(&a[k], b[k].as_slice()) {
            return false;
        }
        k = k + 1;
    }
    proof {
        assert(a.deep_view() =~= b.deep_view());
    }
    true
}

/// Elementwise IEEE equality of two number lists.
fn num_lists_equal(a: &Vec<u64>, b: &Vec<u64>) -> (r: bool)
    ensures
        r == spec_num_lists_eq(a@, b@),
{
    if a.len() != b.len() {
        return false;
    }
    let mut k: usize = 0;
    while k < a.len()
        invariant
            k <= a@.len(),
            a@.len() == b@.len(),
            forall|i: int| 0 <= i < k ==> spec_num_eq(a@[i], #[trigger] b@[i]),
        decreases a@.len() - k,
    {
        if !num_eq(a[k], b[k]) {
            return false;
        }
        k = k + 1;
    }
    true
}

/// Elementwise equality of two boolean lists.
fn bool_lists_equal(a: &Vec<bool>, b: &Vec<bool>) -> (r: bool)
    ensures
        r == (a@ == b@),
{
    if a.len() != b.len() {
        proof {
            assert(a@ != b@);
        }
        return false;
    }
    let mut k: usize = 0;
    while k < a.len()
        invariant
            k <= a@.len(),
            a@.len() == b@.len(),
            forall|i: int| 0 <= i < k ==> a@[i] == b@[i],
        decreases a@.len() - k,
    {
        if a[k] != b[k] {
            return false;
        }
        k = k + 1;
    }
    proof {
        assert(a@ =~= b@);
    }
    true
}

/// Elementwise equality of two instant lists.
fn i64_lists_equal(a: &Vec<i64>, b: &Vec<i64>) -> (r: bool)
    ensures
        r == (a@ == b@),
{
    if a.len() != b.len() {
        proof {
            assert(a@ != b@);
        }
        return false;
    }
    let mut k: usize = 0;
    while k < a.len()
        invariant
            k <= a@.len(),
            a@.len() == b@.len(),
            forall|i: int| 0 <= i < k ==> a@[i] == b@[i],
        decreases a@.len() - k,
    {
        if a[k] != b[k] {
            return false;
        }
        k = k + 1;
    }
    proof {
        assert(a@ =~= b@);
    }
    true
}

} // verus!
