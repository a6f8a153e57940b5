//! The primitive operations: arithmetic, comparison, logic, pairs and lists.
use vstd::prelude::*;
use vstd::string::StringExecFns;
use crate::ast::PrimitiveOperation;
use crate::numeric::{
    answer, negated, number_negated, number_related, related, ArithOp, Oracle, Query, QueryView,
    Relation, ONE_BITS, ZERO_BITS,
};
use crate::substitution::push_decimal;
use crate::value::{debug_text, SExprView, SExpression, Value, ValueView};
use crate::{failure, outcome, ErrorView, Halt, HaltView, Outcome, SchemeError};

verus! {

/// The views of a sequence of values.
pub open spec fn value_views(args: Seq<Value>) -> Seq<ValueView> {
    Seq::new(args.len(), |i: int| args[i]@)
}

/// Every value but the boolean false counts as true.
pub open spec fn truthy(v: ValueView) -> bool {
    v != ValueView::Boolean(false)
}

/// Whether every operand is a number.
pub open spec fn all_numbers(args: Seq<ValueView>) -> bool {
    forall|i: int| 0 <= i < args.len() ==> (#[trigger] args[i]) is Number
}

/// Whether every operand counts as true.
pub open spec fn all_truthy(args: Seq<ValueView>) -> bool {
    forall|i: int| 0 <= i < args.len() ==> truthy(#[trigger] args[i])
}

/// The outcome that is a boolean.
pub open spec fn truth(b: bool) -> Outcome {
    Ok(ValueView::Boolean(b))
}

/// The operands folded from the left with an operation of the host, starting
/// from `acc`: the bits of the result, or the first question that the host
/// has not answered.
pub open spec fn fold_arith(
    op: ArithOp,
    acc: u64,
    rest: Seq<ValueView>,
    host: Map<QueryView, u64>,
) -> Outcome
    decreases rest.len(),
{
    if rest.len() == 0 {
        Ok(ValueView::Number(acc))
    } else {
        match rest[0] {
            ValueView::Number(x) => match answer(host, QueryView::Arith(op, acc, x)) {
                Some(y) => fold_arith(op, y, rest.drop_first(), host),
                None => Err(HaltView::Ask(QueryView::Arith(op, acc, x))),
            },
            _ => failure(ErrorView::TypeMismatch),
        }
    }
}

/// `+` and `*`: the operands folded from the left, starting from `unit`.
pub open spec fn fold_from_unit(
    op: ArithOp,
    unit: u64,
    args: Seq<ValueView>,
    host: Map<QueryView, u64>,
) -> Outcome {
    if !all_numbers(args) {
        failure(ErrorView::TypeMismatch)
    } else {
        fold_arith(op, unit, args, host)
    }
}

/// `+`: the sum of the operands, starting from zero.
pub open spec fn add_spec(args: Seq<ValueView>, host: Map<QueryView, u64>) -> Outcome {
    fold_from_unit(ArithOp::Add, ZERO_BITS, args, host)
}

/// `*`: the product of the operands, starting from one.
pub open spec fn mul_spec(args: Seq<ValueView>, host: Map<QueryView, u64>) -> Outcome {
    fold_from_unit(ArithOp::Mul, ONE_BITS, args, host)
}

/// `-`: the negation of a single operand, else the first operand less each
/// of the others in turn.
pub open spec fn sub_spec(args: Seq<ValueView>, host: Map<QueryView, u64>) -> Outcome {
    if args.len() == 0 {
        failure(ErrorView::ArgumentMismatch)
    } else if !all_numbers(args) {
        failure(ErrorView::TypeMismatch)
    } else if args.len() == 1 {
        Ok(ValueView::Number(negated(args[0]->Number_0)))
    } else {
        fold_arith(ArithOp::Sub, args[0]->Number_0, args.drop_first(), host)
    }
}

/// `/`: the reciprocal of a single operand, else the first operand divided
/// by each of the others in turn.
pub open spec fn div_spec(args: Seq<ValueView>, host: Map<QueryView, u64>) -> Outcome {
    if args.len() == 0 {
        failure(ErrorView::ArgumentMismatch)
    } else if !all_numbers(args) {
        failure(ErrorView::TypeMismatch)
    } else if args.len() == 1 {
        fold_arith(ArithOp::Div, ONE_BITS, args, host)
    } else {
        fold_arith(ArithOp::Div, args[0]->Number_0, args.drop_first(), host)
    }
}

/// Whether each number stands in `relation` to the one after it.
pub open spec fn chained(relation: Relation, args: Seq<ValueView>) -> bool {
    forall|i: int|
        0 <= i < args.len() - 1 ==> related(
            relation,
            (#[trigger] args[i])->Number_0,
            args[i + 1]->Number_0,
        )
}

/// A comparison of one number or more: whether each stands in the relation
/// to the next, which is true of a single number.
pub open spec fn compare_spec(relation: Relation, args: Seq<ValueView>) -> Outcome {
    if args.len() == 0 {
        failure(ErrorView::ArgumentMismatch)
    } else if !all_numbers(args) {
        failure(ErrorView::TypeMismatch)
    } else {
        truth(chained(relation, args))
    }
}

/// `not`: whether its one operand counts as false.
pub open spec fn not_spec(args: Seq<ValueView>) -> Outcome {
    if args.len() == 1 {
        truth(!truthy(args[0]))
    } else {
        failure(ErrorView::ArgumentMismatch)
    }
}

/// `and`: false as soon as an operand counts as false, else the last
/// operand, and true without operands.
pub open spec fn and_spec(args: Seq<ValueView>) -> Outcome {
    if !all_truthy(args) {
        truth(false)
    } else if args.len() == 0 {
        truth(true)
    } else {
        Ok(args.last())
    }
}

/// The first operand that counts as true.
pub open spec fn first_truthy(args: Seq<ValueView>) -> Option<ValueView>
    decreases args.len(),
{
    if args.len() == 0 {
        None
    } else if truthy(args[0]) {
        Some(args[0])
    } else {
        first_truthy(args.drop_first())
    }
}

/// `or`: the first operand that counts as true, else false.
pub open spec fn or_spec(args: Seq<ValueView>) -> Outcome {
    match first_truthy(args) {
        Some(v) => Ok(v),
        None => truth(false),
    }
}

/// Whether `eq?` holds of two values: of equal numbers, of equal booleans and
/// of two empty lists, and of nothing else.
pub open spec fn identical(a: ValueView, b: ValueView) -> bool {
    match (a, b) {
        (ValueView::Number(x), ValueView::Number(y)) => related(Relation::Equal, x, y),
        (ValueView::Boolean(x), ValueView::Boolean(y)) => x == y,
        (ValueView::SExpression(x), ValueView::SExpression(y)) => *x is Nil && *y is Nil,
        _ => false,
    }
}

/// `eq?`: of exactly two operands.
pub open spec fn is_eq_spec(args: Seq<ValueView>) -> Outcome {
    if args.len() != 2 {
        failure(ErrorView::ArgumentMismatch)
    } else {
        truth(identical(args[0], args[1]))
    }
}

/// The pair of two values.
pub open spec fn pair_of(first: ValueView, second: ValueView) -> ValueView {
    ValueView::SExpression(Box::new(SExprView::Compound(Box::new(first), Box::new(second))))
}

/// The empty list.
pub open spec fn nil() -> ValueView {
    ValueView::SExpression(Box::new(SExprView::Nil))
}

/// `cons`: the pair of its two operands.
pub open spec fn cons_spec(args: Seq<ValueView>) -> Outcome {
    if args.len() == 2 {
        Ok(pair_of(args[0], args[1]))
    } else {
        failure(ErrorView::ArgumentMismatch)
    }
}

/// Whether the value is a pair.
pub open spec fn is_compound(v: ValueView) -> bool {
    v matches ValueView::SExpression(s) && *s is Compound
}

/// `car` and `cdr`: a half of the pair that is the one operand.
pub open spec fn half_spec(args: Seq<ValueView>, second: bool) -> Outcome {
    if args.len() != 1 {
        failure(ErrorView::ArgumentMismatch)
    } else {
        match args[0] {
            ValueView::SExpression(s) => match *s {
                SExprView::Compound(a, b) => Ok(
                    if second {
                        *b
                    } else {
                        *a
                    },
                ),
                _ => failure(ErrorView::TypeMismatch),
            },
            _ => failure(ErrorView::TypeMismatch),
        }
    }
}

/// The list of the values: pairs nested to the right, ended by the empty list.
pub open spec fn list_of(args: Seq<ValueView>) -> ValueView
    decreases args.len(),
{
    if args.len() == 0 {
        nil()
    } else {
        pair_of(args[0], list_of(args.drop_first()))
    }
}

/// A predicate on the type of a value.
pub open spec fn type_test(primop: PrimitiveOperation, v: ValueView) -> bool {
    match primop {
        PrimitiveOperation::IsPair => is_compound(v),
        PrimitiveOperation::IsNumber => v is Number,
        PrimitiveOperation::IsBoolean => v is Boolean,
        PrimitiveOperation::IsSymbol => v matches ValueView::SExpression(s) && *s is Symbol,
        _ => false,
    }
}

/// `pair?`, `number?`, `boolean?`, `symbol?`: of exactly one operand.
pub open spec fn type_test_spec(primop: PrimitiveOperation, args: Seq<ValueView>) -> Outcome {
    if args.len() == 1 {
        truth(type_test(primop, args[0]))
    } else {
        failure(ErrorView::ArgumentMismatch)
    }
}

/// What a primitive makes of its operands.
pub open spec fn apply_primitive_spec(
    primop: PrimitiveOperation,
    args: Seq<ValueView>,
    host: Map<QueryView, u64>,
) -> Outcome {
    match primop {
        PrimitiveOperation::Add => add_spec(args, host),
        PrimitiveOperation::Sub => sub_spec(args, host),
        PrimitiveOperation::Mul => mul_spec(args, host),
        PrimitiveOperation::Div => div_spec(args, host),
        PrimitiveOperation::Equal => compare_spec(Relation::Equal, args),
        PrimitiveOperation::LessThan => compare_spec(Relation::Less, args),
        PrimitiveOperation::LessThanOrEqual => compare_spec(Relation::LessOrEqual, args),
        PrimitiveOperation::GreaterThan => compare_spec(Relation::Greater, args),
        PrimitiveOperation::GreaterThanOrEqual => compare_spec(Relation::GreaterOrEqual, args),
        PrimitiveOperation::Not => not_spec(args),
        PrimitiveOperation::And => and_spec(args),
        PrimitiveOperation::Or => or_spec(args),
        PrimitiveOperation::IsEq => is_eq_spec(args),
        PrimitiveOperation::Cons => cons_spec(args),
        PrimitiveOperation::Car => half_spec(args, false),
        PrimitiveOperation::Cdr => half_spec(args, true),
        PrimitiveOperation::List => Ok(list_of(args)),
        PrimitiveOperation::IsPair => type_test_spec(primop, args),
        PrimitiveOperation::IsNumber => type_test_spec(primop, args),
        PrimitiveOperation::IsBoolean => type_test_spec(primop, args),
        PrimitiveOperation::IsSymbol => type_test_spec(primop, args),
    }
}

/// The error for an operand that is no number.
fn not_a_number(value: &Value) -> (r: Halt)
    ensures
        r@ == HaltView::Error(ErrorView::TypeMismatch),
{
    let mut text = String::from_str("Value ");
    text.append(debug_text(value).as_str());
    text.append(" not a number");
    Halt::Error(SchemeError::TypeMismatch(text))
}

/// The error for an operand that is no pair.
fn not_a_pair(value: &Value) -> (r: Halt)
    ensures
        r@ == HaltView::Error(ErrorView::TypeMismatch),
{
    let mut text = String::from_str("Expected a compound s-expression, got ");
    text.append(debug_text(value).as_str());
    Halt::Error(SchemeError::TypeMismatch(text))
}

/// The error for a wrong number of operands.
pub(crate) fn wrong_count(expected: &str, got: usize) -> (r: Halt)
    ensures
        r@ == HaltView::Error(ErrorView::ArgumentMismatch),
{
    let mut text = String::from_str("Expected ");
    text.append(expected);
    text.append(", got ");
    push_decimal(&mut text, got as u64);
    Halt::Error(SchemeError::ArgumentMismatch(text))
}

/// Whether a value counts as true.
pub fn is_true(v: &Value) -> (r: bool)
    ensures
        r == truthy(v@),
{
    match v {
        Value::Boolean(b) => *b,
        _ => true,
    }
}

/// The first operand that is no number.
fn find_non_number(args: &[Value]) -> (r: Option<usize>)
    ensures
        match r {
            Some(i) => i < args.len() && !(args[i as int]@ is Number),
            None => all_numbers(value_views(args@)),
        },
{
    let mut i: usize = 0;
    while i < args.len()
        invariant
            i <= args.len(),
            forall|k: int| 0 <= k < i ==> args[k]@ is Number,
        decreases args.len() - i,
    {
        match &args[i] {
            Value::Number(_) => {},
            _ => {
                return Some(i);
            },
        }
        i = i + 1;
    }
    None
}

/// The bits of an operand that is a number.
fn bits_of(v: &Value) -> (r: u64)
    requires
        v@ is Number,
    ensures
        r == v@->Number_0,
{
    match v {
        Value::Number(n) => *n,
        _ => 0,
    }
}

/// Folds the operands from `from` on with an operation of the host.
fn fold(op: ArithOp, start: u64, args: &[Value], from: usize, host: &Oracle) -> (r: Result<
    Value,
    Halt,
>)
    requires
        from <= args.len(),
        all_numbers(value_views(args@)),
    ensures
        outcome(r) == fold_arith(op, start, value_views(args@).skip(from as int), host@),
{
    let mut acc: u64 = start;
    let mut i: usize = from;
    while i < args.len()
        invariant
            from <= i <= args.len(),
            all_numbers(value_views(args@)),
            fold_arith(op, start, value_views(args@).skip(from as int), host@) == fold_arith(
                op,
                acc,
                value_views(args@).skip(i as int),
                host@,
            ),
        decreases args.len() - i,
    {
        proof {
            let rest = value_views(args@).skip(i as int);
            assert(rest.drop_first() =~= value_views(args@).skip(i + 1));
        }
        let x = bits_of(&args[i]);
        let query = Query::Arith(op, acc, x);
        match host.lookup(&query) {
            Some(y) => {
                acc = y;
            },
            None => {
                return Err(Halt::Ask(query));
            },
        }
        i = i + 1;
    }
    Ok(Value::Number(acc))
}

/// `+` and `*`: the operands folded from a unit.
fn fold_all(op: ArithOp, unit: u64, args: &[Value], host: &Oracle) -> (r: Result<Value, Halt>)
    ensures
        outcome(r) == fold_from_unit(op, unit, value_views(args@), host@),
{
    match find_non_number(args) {
        Some(i) => {
            assert(!(value_views(args@)[i as int] is Number));
            Err(not_a_number(&args[i]))
        },
        None => {
            assert(value_views(args@).skip(0) =~= value_views(args@));
            fold(op, unit, args, 0, host)
        },
    }
}

/// `+`.
pub fn add(args: &[Value], host: &Oracle) -> (r: Result<Value, Halt>)
    ensures
        outcome(r) == add_spec(value_views(args@), host@),
{
    fold_all(ArithOp::Add, ZERO_BITS, args, host)
}

/// `*`.
pub fn mul(args: &[Value], host: &Oracle) -> (r: Result<Value, Halt>)
    ensures
        outcome(r) == mul_spec(value_views(args@), host@),
{
    fold_all(ArithOp::Mul, ONE_BITS, args, host)
}

/// `-`.
pub fn sub(args: &[Value], host: &Oracle) -> (r: Result<Value, Halt>)
    ensures
        outcome(r) == sub_spec(value_views(args@), host@),
{
    if args.len() == 0 {
        return Err(wrong_count("at least 1 argument", 0));
    }
    match find_non_number(args) {
        Some(i) => {
            assert(!(value_views(args@)[i as int] is Number));
            Err(not_a_number(&args[i]))
        },
        None => {
            let first = bits_of(&args[0]);
            if args.len() == 1 {
                Ok(Value::Number(number_negated(first)))
            } else {
                fold(ArithOp::Sub, first, args, 1, host)
            }
        },
    }
}

/// `/`.
pub fn div(args: &[Value], host: &Oracle) -> (r: Result<Value, Halt>)
    ensures
        outcome(r) == div_spec(value_views(args@), host@),
{
    if args.len() == 0 {
        return Err(wrong_count("at least 1 argument", 0));
    }
    match find_non_number(args) {
        Some(i) => {
            assert(!(value_views(args@)[i as int] is Number));
            Err(not_a_number(&args[i]))
        },
        None => {
            if args.len() == 1 {
                assert(value_views(args@).skip(0) =~= value_views(args@));
                fold(ArithOp::Div, ONE_BITS, args, 0, host)
            } else {
                let first = bits_of(&args[0]);
                fold(ArithOp::Div, first, args, 1, host)
            }
        },
    }
}

/// A comparison of the operands, each with the next.
pub fn compare(args: &[Value], relation: Relation) -> (r: Result<Value, Halt>)
    ensures
        outcome(r) == compare_spec(relation, value_views(args@)),
{
    if args.len() == 0 {
        return Err(wrong_count("at least 1 argument", 0));
    }
    match find_non_number(args) {
        Some(i) => {
            assert(!(value_views(args@)[i as int] is Number));
            Err(not_a_number(&args[i]))
        },
        None => {
            let mut holds = true;
            let mut i: usize = 0;
            while i + 1 < args.len()
                invariant
                    i + 1 <= args.len(),
                    all_numbers(value_views(args@)),
                    holds == forall|k: int|
                        0 <= k < i ==> related(
                            relation,
                            (#[trigger] value_views(args@)[k])->Number_0,
                            value_views(args@)[k + 1]->Number_0,
                        ),
                decreases args.len() - i,
            {
                assert(value_views(args@)[i as int] is Number);
                assert(value_views(args@)[i + 1] is Number);
                let x = bits_of(&args[i]);
                let y = bits_of(&args[i + 1]);
                if !number_related(relation, x, y) {
                    holds = false;
                }
                i = i + 1;
            }
            Ok(Value::Boolean(holds))
        },
    }
}

/// `not`.
pub fn not(args: &[Value]) -> (r: Result<Value, Halt>)
    ensures
        outcome(r) == not_spec(value_views(args@)),
{
    if args.len() == 1 {
        Ok(Value::Boolean(!is_true(&args[0])))
    } else {
        Err(wrong_count("1 argument", args.len()))
    }
}

/// `and`.
pub fn and(args: &[Value]) -> (r: Result<Value, Halt>)
    ensures
        outcome(r) == and_spec(value_views(args@)),
{
    let mut i: usize = 0;
    while i < args.len()
        invariant
            i <= args.len(),
            forall|k: int| 0 <= k < i ==> truthy(#[trigger] value_views(args@)[k]),
        decreases args.len() - i,
    {
        if !is_true(&args[i]) {
            assert(!truthy(value_views(args@)[i as int]));
            return Ok(Value::Boolean(false));
        }
        i = i + 1;
    }
    if args.len() == 0 {
        Ok(Value::Boolean(true))
    } else {
        Ok(args[args.len() - 1].duplicate())
    }
}

/// `or`.
pub fn or(args: &[Value]) -> (r: Result<Value, Halt>)
    ensures
        outcome(r) == or_spec(value_views(args@)),
{
    let mut i: usize = 0;
    proof {
        assert(value_views(args@).skip(0) =~= value_views(args@));
    }
    while i < args.len()
        invariant
            i <= args.len(),
            first_truthy(value_views(args@)) == first_truthy(value_views(args@).skip(i as int)),
        decreases args.len() - i,
    {
        proof {
            let rest = value_views(args@).skip(i as int);
            assert(rest.drop_first() =~= value_views(args@).skip(i + 1));
        }
        if is_true(&args[i]) {
            return Ok(args[i].duplicate());
        }
        i = i + 1;
    }
    Ok(Value::Boolean(false))
}

/// `eq?`.
pub fn is_eq(args: &[Value]) -> (r: Result<Value, Halt>)
    ensures
        outcome(r) == is_eq_spec(value_views(args@)),
{
    if args.len() != 2 {
        Err(wrong_count("2 arguments", args.len()))
    } else {
        let equal = match &args[0] {
            Value::Number(x) => match &args[1] {
                Value::Number(y) => number_related(Relation::Equal, *x, *y),
                _ => false,
            },
            Value::Boolean(x) => match &args[1] {
                Value::Boolean(y) => *x == *y,
                _ => false,
            },
            Value::SExpression(x) => match &args[1] {
                Value::SExpression(y) => x.is_empty() && y.is_empty(),
                _ => false,
            },
            _ => false,
        };
        Ok(Value::Boolean(equal))
    }
}

/// `cons`.
pub fn cons(args: &[Value]) -> (r: Result<Value, Halt>)
    ensures
        outcome(r) == cons_spec(value_views(args@)),
{
    if args.len() == 2 {
        Ok(
            Value::SExpression(
                Box::new(SExpression::Compound(args[0].duplicate(), args[1].duplicate())),
            ),
        )
    } else {
        Err(wrong_count("2 arguments", args.len()))
    }
}

/// A half of the pair that is the one operand.
fn half(args: &[Value], second: bool) -> (r: Result<Value, Halt>)
    ensures
        outcome(r) == half_spec(value_views(args@), second),
{
    if args.len() != 1 {
        return Err(wrong_count("1 argument", args.len()));
    }
    match &args[0] {
        Value::SExpression(sexpr) => match &**sexpr {
            SExpression::Compound(first, rest) => {
                if second {
                    Ok(rest.duplicate())
                } else {
                    Ok(first.duplicate())
                }
            },
            _ => Err(not_a_pair(&args[0])),
        },
        _ => Err(not_a_pair(&args[0])),
    }
}

/// `car`.
pub fn car(args: &[Value]) -> (r: Result<Value, Halt>)
    ensures
        outcome(r) == half_spec(value_views(args@), false),
{
    half(args, false)
}

/// `cdr`.
pub fn cdr(args: &[Value]) -> (r: Result<Value, Halt>)
    ensures
        outcome(r) == half_spec(value_views(args@), true),
{
    half(args, true)
}

/// `list`.
pub fn list(args: &[Value]) -> (r: Result<Value, Halt>)
    ensures
        outcome(r) == Ok::<ValueView, HaltView>(list_of(value_views(args@))),
{
    let mut acc = Value::SExpression(Box::new(SExpression::Nil));
    let mut i: usize = args.len();
    while i > 0
        invariant
            i <= args.len(),
            acc@ == list_of(value_views(args@).skip(i as int)),
        decreases i,
    {
        i = i - 1;
        proof {
            let rest = value_views(args@).skip(i as int);
            assert(rest.drop_first() =~= value_views(args@).skip(i + 1));
        }
        acc = Value::SExpression(Box::new(SExpression::Compound(args[i].duplicate(), acc)));
    }
    proof {
        assert(value_views(args@).skip(0) =~= value_views(args@));
    }
    Ok(acc)
}

/// Decides a predicate on the type of a value.
fn has_type(primop: PrimitiveOperation, v: &Value) -> (r: bool)
    ensures
        r == type_test(primop, v@),
{
    match primop {
        PrimitiveOperation::IsPair => match v {
            Value::SExpression(sexpr) => match &**sexpr {
                SExpression::Compound(_, _) => true,
                _ => false,
            },
            _ => false,
        },
        PrimitiveOperation::IsNumber => match v {
            Value::Number(_) => true,
            _ => false,
        },
        PrimitiveOperation::IsBoolean => match v {
            Value::Boolean(_) => true,
            _ => false,
        },
        PrimitiveOperation::IsSymbol => match v {
            Value::SExpression(sexpr) => match &**sexpr {
                SExpression::Symbol(_) => true,
                _ => false,
            },
            _ => false,
        },
        _ => false,
    }
}

/// A predicate on the type of the one operand.
fn test_type(primop: PrimitiveOperation, args: &[Value]) -> (r: Result<Value, Halt>)
    ensures
        outcome(r) == type_test_spec(primop, value_views(args@)),
{
    if args.len() == 1 {
        Ok(Value::Boolean(has_type(primop, &args[0])))
    } else {
        Err(wrong_count("1 argument", args.len()))
    }
}

/// `pair?`.
pub fn is_pair(args: &[Value]) -> (r: Result<Value, Halt>)
    ensures
        outcome(r) == type_test_spec(PrimitiveOperation::IsPair, value_views(args@)),
{
    test_type(PrimitiveOperation::IsPair, args)
}

/// `number?`.
pub fn is_number(args: &[Value]) -> (r: Result<Value, Halt>)
    ensures
        outcome(r) == type_test_spec(PrimitiveOperation::IsNumber, value_views(args@)),
{
    test_type(PrimitiveOperation::IsNumber, args)
}

/// `boolean?`.
pub fn is_boolean(args: &[Value]) -> (r: Result<Value, Halt>)
    ensures
        outcome(r) == type_test_spec(PrimitiveOperation::IsBoolean, value_views(args@)),
{
    test_type(PrimitiveOperation::IsBoolean, args)
}

/// `symbol?`.
pub fn is_symbol(args: &[Value]) -> (r: Result<Value, Halt>)
    ensures
        outcome(r) == type_test_spec(PrimitiveOperation::IsSymbol, value_views(args@)),
{
    test_type(PrimitiveOperation::IsSymbol, args)
}

/// Applies a primitive to its operands. Arithmetic is looked up in `host`.
pub fn apply_primitive(primop: &PrimitiveOperation, args: &[Value], host: &Oracle) -> (r: Result<
    Value,
    Halt,
>)
    ensures
        outcome(r) == apply_primitive_spec(*primop, value_views(args@), host@),
{
    match primop {
        PrimitiveOperation::Add => self::add(args, host),
        PrimitiveOperation::Sub => self::sub(args, host),
        PrimitiveOperation::Mul => self::mul(args, host),
        PrimitiveOperation::Div => div(args, host),
        PrimitiveOperation::Equal => compare(args, Relation::Equal),
        PrimitiveOperation::LessThan => compare(args, Relation::Less),
        PrimitiveOperation::LessThanOrEqual => compare(args, Relation::LessOrEqual),
        PrimitiveOperation::GreaterThan => compare(args, Relation::Greater),
        PrimitiveOperation::GreaterThanOrEqual => compare(args, Relation::GreaterOrEqual),
        PrimitiveOperation::Not => not(args),
        PrimitiveOperation::And => and(args),
        PrimitiveOperation::Or => or(args),
        PrimitiveOperation::IsEq => is_eq(args),
        PrimitiveOperation::Cons => cons(args),
        PrimitiveOperation::Car => car(args),
        PrimitiveOperation::Cdr => cdr(args),
        PrimitiveOperation::List => list(args),
        PrimitiveOperation::IsPair => is_pair(args),
        PrimitiveOperation::IsNumber => is_number(args),
        PrimitiveOperation::IsBoolean => is_boolean(args),
        PrimitiveOperation::IsSymbol => is_symbol(args),
    }
}

} // verus!
