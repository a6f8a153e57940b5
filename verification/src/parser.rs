//! The grammar of L3, on the bytes of a text.
//!
//! ```text
//! program     := '(' "L3" form+ ')'
//! form        := define | expr
//! define      := '(' "define" name expr ')'
//! expr        := operator | boolean | number | name
//!              | if | lambda | let | application | quoted
//! if          := '(' "if" expr expr expr ')'
//! lambda      := '(' "lambda" '(' name* ')' expr+ ')'
//! let         := '(' "let" '(' binding* ')' expr+ ')'
//! binding     := '(' name expr ')'
//! application := '(' expr expr* ')'
//! ```
//!
//! `quoted` has no rule: an expression that starts with a quote ends the parse.
//!
//! An operator is the longest of the operator tokens that stands at the
//! position, whatever follows it: `<=` is read whole, and `carnation` is `car`
//! followed by the name `nation`. A name equal to the word of an operator, or
//! starting with one, can therefore not be read as a variable.
//!
//! Spaces, tabs, carriage returns and line feeds may stand between tokens, and
//! at least one must follow a keyword. The alternatives of `expr` are tried in
//! the order given. Once a keyword is read, the form must be well formed: no
//! other alternative is tried for it.
//!
//! The grammar is given as functions from a text and a position to what stands
//! there. Where such a function compares a position that was found with the one
//! it searched from, this only makes it plain that the definition ends: what is
//! found never lies before the position searched from, as the lemmas on
//! consuming show.
use vstd::prelude::*;
use vstd::slice::slice_subrange;
use vstd::string::StringSliceAdditionalSpecFns;
use crate::ast::{
    exprs_view, forms_view, names_view, Application, Boolean, ConstituentExpression, Define,
    Expression, ExprView, FormView, If, Let, Number, NumberView, PrimitiveOperation, Procedure,
    Program, VariableDeclaration, VariableReference, binding_names, binding_values,
};
use crate::{ErrorView, SchemeError};

verus! {

/// The opening parenthesis.
pub const OPEN: u8 = 40;

/// The closing parenthesis.
pub const CLOSE: u8 = 41;

/// The sign that starts a boolean.
pub const HASH: u8 = 35;

/// The sign that would start a quoted literal.
pub const QUOTE: u8 = 39;

/// Whether the byte is a space, a tab, a line feed or a carriage return.
pub open spec fn is_space(b: u8) -> bool {
    b == 32 || b == 9 || b == 10 || b == 13
}

/// Whether the byte may stand in a name: an ASCII letter or digit, or one of
/// `-`, `?` and `!`.
pub open spec fn is_name_byte(b: u8) -> bool {
    (48 <= b <= 57) || (65 <= b <= 90) || (97 <= b <= 122) || b == 45 || b == 63 || b == 33
}

/// The first position from `i` on that holds no space.
pub open spec fn skip_spaces(s: Seq<u8>, i: int) -> int
    decreases s.len() - i,
{
    if 0 <= i < s.len() && is_space(s[i]) {
        skip_spaces(s, i + 1)
    } else {
        i
    }
}

/// The first position from `i` on that holds no byte of a name.
pub open spec fn name_end(s: Seq<u8>, i: int) -> int
    decreases s.len() - i,
{
    if 0 <= i < s.len() && is_name_byte(s[i]) {
        name_end(s, i + 1)
    } else {
        i
    }
}

/// `skip_spaces` passes over spaces only, and stops at the first byte that
/// is none.
pub proof fn lemma_skip_spaces(s: Seq<u8>, i: int)
    requires
        0 <= i <= s.len(),
    ensures
        i <= skip_spaces(s, i) <= s.len(),
        forall|k: int| i <= k < skip_spaces(s, i) ==> is_space(s[k]),
        skip_spaces(s, i) < s.len() ==> !is_space(s[skip_spaces(s, i)]),
    decreases s.len() - i,
{
    if i < s.len() && is_space(s[i]) {
        lemma_skip_spaces(s, i + 1);
    }
}

/// `name_end` passes over bytes of a name only, and stops at the first byte
/// that is none.
pub proof fn lemma_name_end(s: Seq<u8>, i: int)
    requires
        0 <= i <= s.len(),
    ensures
        i <= name_end(s, i) <= s.len(),
        forall|k: int| i <= k < name_end(s, i) ==> is_name_byte(s[k]),
        name_end(s, i) < s.len() ==> !is_name_byte(s[name_end(s, i)]),
    decreases s.len() - i,
{
    if i < s.len() && is_name_byte(s[i]) {
        lemma_name_end(s, i + 1);
    }
}

/// The bytes as characters, one for one.
pub open spec fn ascii_text(bytes: Seq<u8>) -> Seq<char> {
    Seq::new(bytes.len(), |i: int| bytes[i] as char)
}

/// Whether `word` stands in `s` at `at`.
pub open spec fn has_prefix(s: Seq<u8>, at: int, word: Seq<u8>) -> bool {
    0 <= at && at + word.len() <= s.len() && s.subrange(at, at + word.len()) == word
}

/// Whether the keyword stands at `at` with a space after it.
pub open spec fn keyword_at(s: Seq<u8>, at: int, word: Seq<u8>) -> bool {
    has_prefix(s, at, word) && at + word.len() < s.len() && is_space(s[at + word.len()])
}

/// The position after the closing parenthesis that follows `i`, spaces apart.
pub open spec fn close_at(s: Seq<u8>, i: int) -> Option<int> {
    let p = skip_spaces(s, i);
    if 0 <= p < s.len() && s[p] == CLOSE {
        Some(p + 1)
    } else {
        None
    }
}

/// The position after the opening parenthesis that follows `i`, spaces apart.
pub open spec fn open_at(s: Seq<u8>, i: int) -> Option<int> {
    let p = skip_spaces(s, i);
    if 0 <= p < s.len() && s[p] == OPEN {
        Some(p + 1)
    } else {
        None
    }
}

/// What the grammar finds at a position: a result and the position after it;
/// nothing, so that another alternative may be tried; or a form that is
/// malformed after its keyword, or a malformed number, which ends the parse.
pub enum Parsed<T> {
    Done(T, int),
    Miss,
    Fail,
}

/// After a keyword nothing else is tried.
pub open spec fn commit<T>(p: Parsed<T>) -> Parsed<T> {
    match p {
        Parsed::Miss => Parsed::Fail,
        _ => p,
    }
}

/// An operator written with signs, at `p`. `<=` and `>=` are read whole.
pub open spec fn sign_operator_at(s: Seq<u8>, p: int) -> Option<(PrimitiveOperation, int)> {
    if !(0 <= p < s.len()) {
        None
    } else if s[p] == 43 {
        Some((PrimitiveOperation::Add, p + 1))
    } else if s[p] == 45 {
        Some((PrimitiveOperation::Sub, p + 1))
    } else if s[p] == 42 {
        Some((PrimitiveOperation::Mul, p + 1))
    } else if s[p] == 47 {
        Some((PrimitiveOperation::Div, p + 1))
    } else if s[p] == 61 {
        Some((PrimitiveOperation::Equal, p + 1))
    } else if s[p] == 60 {
        if p + 1 < s.len() && s[p + 1] == 61 {
            Some((PrimitiveOperation::LessThanOrEqual, p + 2))
        } else {
            Some((PrimitiveOperation::LessThan, p + 1))
        }
    } else if s[p] == 62 {
        if p + 1 < s.len() && s[p + 1] == 61 {
            Some((PrimitiveOperation::GreaterThanOrEqual, p + 2))
        } else {
            Some((PrimitiveOperation::GreaterThan, p + 1))
        }
    } else {
        None
    }
}

/// The operator at `p` whose word stands there, and the end of the word. What
/// follows the word does not matter: `carnation` starts with `car`. No word
/// of an operator starts another.
pub open spec fn word_operator_at(s: Seq<u8>, p: int) -> Option<(PrimitiveOperation, int)> {
    if has_prefix(s, p, "not".spec_bytes()) {
        Some((PrimitiveOperation::Not, p + "not".spec_bytes().len()))
    } else if has_prefix(s, p, "and".spec_bytes()) {
        Some((PrimitiveOperation::And, p + "and".spec_bytes().len()))
    } else if has_prefix(s, p, "or".spec_bytes()) {
        Some((PrimitiveOperation::Or, p + "or".spec_bytes().len()))
    } else if has_prefix(s, p, "cons".spec_bytes()) {
        Some((PrimitiveOperation::Cons, p + "cons".spec_bytes().len()))
    } else if has_prefix(s, p, "car".spec_bytes()) {
        Some((PrimitiveOperation::Car, p + "car".spec_bytes().len()))
    } else if has_prefix(s, p, "cdr".spec_bytes()) {
        Some((PrimitiveOperation::Cdr, p + "cdr".spec_bytes().len()))
    } else if has_prefix(s, p, "list".spec_bytes()) {
        Some((PrimitiveOperation::List, p + "list".spec_bytes().len()))
    } else if has_prefix(s, p, "eq?".spec_bytes()) {
        Some((PrimitiveOperation::IsEq, p + "eq?".spec_bytes().len()))
    } else if has_prefix(s, p, "pair?".spec_bytes()) {
        Some((PrimitiveOperation::IsPair, p + "pair?".spec_bytes().len()))
    } else if has_prefix(s, p, "number?".spec_bytes()) {
        Some((PrimitiveOperation::IsNumber, p + "number?".spec_bytes().len()))
    } else if has_prefix(s, p, "boolean?".spec_bytes()) {
        Some((PrimitiveOperation::IsBoolean, p + "boolean?".spec_bytes().len()))
    } else if has_prefix(s, p, "symbol?".spec_bytes()) {
        Some((PrimitiveOperation::IsSymbol, p + "symbol?".spec_bytes().len()))
    } else {
        None
    }
}

/// The token of an operator, as the text has it.
pub open spec fn operator_token(op: PrimitiveOperation) -> Seq<u8> {
    match op {
        PrimitiveOperation::Add => "+".spec_bytes(),
        PrimitiveOperation::Sub => "-".spec_bytes(),
        PrimitiveOperation::Mul => "*".spec_bytes(),
        PrimitiveOperation::Div => "/".spec_bytes(),
        PrimitiveOperation::Equal => "=".spec_bytes(),
        PrimitiveOperation::LessThan => "<".spec_bytes(),
        PrimitiveOperation::LessThanOrEqual => "<=".spec_bytes(),
        PrimitiveOperation::GreaterThan => ">".spec_bytes(),
        PrimitiveOperation::GreaterThanOrEqual => ">=".spec_bytes(),
        PrimitiveOperation::Not => "not".spec_bytes(),
        PrimitiveOperation::And => "and".spec_bytes(),
        PrimitiveOperation::Or => "or".spec_bytes(),
        PrimitiveOperation::IsEq => "eq?".spec_bytes(),
        PrimitiveOperation::Cons => "cons".spec_bytes(),
        PrimitiveOperation::Car => "car".spec_bytes(),
        PrimitiveOperation::Cdr => "cdr".spec_bytes(),
        PrimitiveOperation::List => "list".spec_bytes(),
        PrimitiveOperation::IsPair => "pair?".spec_bytes(),
        PrimitiveOperation::IsNumber => "number?".spec_bytes(),
        PrimitiveOperation::IsBoolean => "boolean?".spec_bytes(),
        PrimitiveOperation::IsSymbol => "symbol?".spec_bytes(),
    }
}

/// The operator at `p`: the longest of the operator tokens that stands
/// there, written with signs or as a word.
pub open spec fn operator_at(s: Seq<u8>, p: int) -> Option<(PrimitiveOperation, int)> {
    match sign_operator_at(s, p) {
        Some(found) => Some(found),
        None => word_operator_at(s, p),
    }
}

/// The boolean at `p`: `#t` or `#f`.
pub open spec fn boolean_at(s: Seq<u8>, p: int) -> Option<bool> {
    if 0 <= p && p + 1 < s.len() && s[p] == HASH && s[p + 1] == 116 {
        Some(true)
    } else if 0 <= p && p + 1 < s.len() && s[p] == HASH && s[p + 1] == 102 {
        Some(false)
    } else {
        None
    }
}

/// What a scan for a number finds at the start of a text.
#[derive(Debug, Clone, Copy, PartialEq, Eq, Structural)]
pub enum NumberScan {
    /// A number of this many bytes.
    Token(usize),
    /// No number.
    Absent,
    /// The start of a number that cannot be completed: an exponent letter
    /// without digits after it.
    Malformed,
}

/// What nom's scan for a floating-point number finds at the start of `input`.
pub uninterp spec fn number_scan(input: Seq<u8>) -> NumberScan;

/// Whether a number can start with the byte: a sign, a point, a digit, or the
/// first letter of `nan`, `inf` and `infinity` in either case.
pub open spec fn starts_number(b: u8) -> bool {
    b == 43 || b == 45 || b == 46 || (48 <= b <= 57) || b == 110 || b == 78 || b == 105 || b == 73
}

/// Scans the start of `input` for a number with
/// `nom::number::complete::recognize_float_or_exceptions`, the scan that
/// nom's `double` makes before it converts: a decimal number with an optional
/// sign, fraction and exponent, or `nan`, `inf` or `infinity` in either case.
/// The contract names what the scan finds. It claims of it that a token is
/// not empty and lies within the input, since the scan returns a part of its
/// input that holds a digit or one of the three words; and that nothing is
/// found where the input is empty or starts with a byte that none of the
/// scan's alternatives takes first.
#[verifier::external_body]
pub(crate) fn scan_number(input: &[u8]) -> (r: NumberScan)
    ensures
        r == number_scan(input@),
        r matches NumberScan::Token(n) ==> 0 < n <= input@.len(),
        input@.len() == 0 || !starts_number(input@[0]) ==> r == NumberScan::Absent,
{
    match nom::number::complete::recognize_float_or_exceptions::<&[u8], nom::error::Error<&[u8]>>(
        input,
    ) {
        Ok((_, token)) => NumberScan::Token(token.len()),
        Err(nom::Err::Failure(_)) => NumberScan::Malformed,
        Err(nom::Err::Error(_)) => NumberScan::Absent,
        Err(nom::Err::Incomplete(_)) => NumberScan::Absent,
    }
}

/// What the scan for a number finds at `p`: nothing where no number can
/// start, else what nom's scan finds in the text from `p` on.
pub open spec fn number_at(s: Seq<u8>, p: int) -> NumberScan {
    if !(0 <= p < s.len()) || !starts_number(s[p]) {
        NumberScan::Absent
    } else {
        match number_scan(s.subrange(p, s.len() as int)) {
            NumberScan::Token(n) => if 0 < n && p + n <= s.len() {
                NumberScan::Token(n)
            } else {
                NumberScan::Absent
            },
            other => other,
        }
    }
}

/// `String::push` appends one character.
pub assume_specification[ String::push ](text: &mut String, c: char)
    ensures
        final(text)@ == old(text)@.push(c),
;

/// An expression that is a single token, at `p`, where `scan` is what the
/// scan for a number finds there: an operator, a boolean, a number or a name,
/// tried in this order. A number that is empty or runs over the end of the
/// text counts as none.
pub open spec fn atom_given(s: Seq<u8>, p: int, scan: NumberScan) -> Parsed<ExprView> {
    if !(0 <= p <= s.len()) {
        Parsed::Miss
    } else {
        match operator_at(s, p) {
            Some((op, next)) => Parsed::Done(ExprView::PrimitiveOperation(op), next),
            None => match boolean_at(s, p) {
                Some(b) => Parsed::Done(ExprView::Boolean(b), p + 2),
                None => match scan {
                    NumberScan::Token(n) if 0 < n && p + n <= s.len() => Parsed::Done(
                        ExprView::Number(NumberView::Literal(ascii_text(s.subrange(p, p + n)))),
                        p + n,
                    ),
                    NumberScan::Malformed => Parsed::Fail,
                    _ => {
                        let e = name_end(s, p);
                        if e > p {
                            Parsed::Done(
                                ExprView::VariableReference(ascii_text(s.subrange(p, e))),
                                e,
                            )
                        } else {
                            Parsed::Miss
                        }
                    },
                },
            },
        }
    }
}

/// An expression that is a single token, at `p`.
pub open spec fn atom_at(s: Seq<u8>, p: int) -> Parsed<ExprView> {
    atom_given(s, p, number_at(s, p))
}

/// The names from `i` on, spaces apart, and the position after the last.
pub open spec fn names_at(s: Seq<u8>, i: int) -> (Seq<Seq<char>>, int)
    decreases s.len() - i,
{
    if !(0 <= i <= s.len()) {
        (Seq::empty(), i)
    } else {
        let p = skip_spaces(s, i);
        let e = name_end(s, p);
        if e > p {
            proof {
                lemma_skip_spaces(s, i);
                lemma_name_end(s, p);
            }
            let (rest, next) = names_at(s, e);
            (seq![ascii_text(s.subrange(p, e))] + rest, next)
        } else {
            (Seq::empty(), i)
        }
    }
}

/// Whether a quoted literal starts at `p`. The grammar has a place for it
/// and no rule: a quote ends the parse.
pub open spec fn quoted_at(s: Seq<u8>, p: int) -> bool {
    0 <= p < s.len() && s[p] == QUOTE
}

/// The expression at `i`, spaces apart.
pub open spec fn expr_at(s: Seq<u8>, i: int) -> Parsed<ExprView>
    decreases s.len() - i, 1int,
{
    if !(0 <= i <= s.len()) {
        Parsed::Miss
    } else {
        let p = skip_spaces(s, i);
        match atom_at(s, p) {
            Parsed::Miss => {
                if i <= p < s.len() && s[p] == OPEN {
                    compound_at(s, p)
                } else if quoted_at(s, p) {
                    Parsed::Fail
                } else {
                    Parsed::Miss
                }
            },
            found => found,
        }
    }
}

/// The parenthesized expression whose opening parenthesis stands at `p`.
pub open spec fn compound_at(s: Seq<u8>, p: int) -> Parsed<ExprView>
    decreases s.len() - p, 0int,
{
    if !(0 <= p < s.len()) {
        Parsed::Miss
    } else {
        let k = skip_spaces(s, p + 1);
        if k <= p {
            Parsed::Miss
        } else if keyword_at(s, k, "if".spec_bytes()) {
            commit(if_tail(s, k + "if".spec_bytes().len()))
        } else if keyword_at(s, k, "lambda".spec_bytes()) {
            commit(lambda_tail(s, k + "lambda".spec_bytes().len()))
        } else if keyword_at(s, k, "let".spec_bytes()) {
            commit(let_tail(s, k + "let".spec_bytes().len()))
        } else {
            application_tail(s, p + 1)
        }
    }
}

/// After `(if`: three expressions and the closing parenthesis.
pub open spec fn if_tail(s: Seq<u8>, i: int) -> Parsed<ExprView>
    decreases s.len() - i, 3int,
{
    match exprs_at(s, i) {
        Parsed::Done(es, j) => match close_at(s, j) {
            Some(next) if es.len() == 3 => Parsed::Done(
                ExprView::If {
                    cond: Box::new(es[0]),
                    then_branch: Box::new(es[1]),
                    alt: Box::new(es[2]),
                },
                next,
            ),
            _ => Parsed::Miss,
        },
        Parsed::Miss => Parsed::Miss,
        Parsed::Fail => Parsed::Fail,
    }
}

/// After `(lambda`: the parameters in parentheses, one expression or more,
/// and the closing parenthesis.
pub open spec fn lambda_tail(s: Seq<u8>, i: int) -> Parsed<ExprView>
    decreases s.len() - i, 3int,
{
    match open_at(s, i) {
        Some(q) => {
            let (params, j) = names_at(s, q);
            match close_at(s, j) {
                Some(b) if b >= i => match exprs_at(s, b) {
                    Parsed::Done(body, m) => match close_at(s, m) {
                        Some(next) if body.len() >= 1 => Parsed::Done(
                            ExprView::Procedure { params, body },
                            next,
                        ),
                        _ => Parsed::Miss,
                    },
                    Parsed::Miss => Parsed::Miss,
                    Parsed::Fail => Parsed::Fail,
                },
                _ => Parsed::Miss,
            }
        },
        None => Parsed::Miss,
    }
}

/// After `(let`: the bindings in parentheses, one expression or more, and
/// the closing parenthesis.
pub open spec fn let_tail(s: Seq<u8>, i: int) -> Parsed<ExprView>
    decreases s.len() - i, 3int,
{
    match open_at(s, i) {
        Some(q) if q >= i => match bindings_at(s, q) {
            Parsed::Done((names, values), j) => match close_at(s, j) {
                Some(b) if b >= i => match exprs_at(s, b) {
                    Parsed::Done(body, m) => match close_at(s, m) {
                        Some(next) if body.len() >= 1 => Parsed::Done(
                            ExprView::Let { names, values, body },
                            next,
                        ),
                        _ => Parsed::Miss,
                    },
                    Parsed::Miss => Parsed::Miss,
                    Parsed::Fail => Parsed::Fail,
                },
                _ => Parsed::Miss,
            },
            Parsed::Miss => Parsed::Miss,
            Parsed::Fail => Parsed::Fail,
        },
        _ => Parsed::Miss,
    }
}

/// After `(`: the operator, the operands and the closing parenthesis.
pub open spec fn application_tail(s: Seq<u8>, i: int) -> Parsed<ExprView>
    decreases s.len() - i, 3int,
{
    match exprs_at(s, i) {
        Parsed::Done(es, j) => match close_at(s, j) {
            Some(next) if es.len() >= 1 => Parsed::Done(
                ExprView::Applic { operator: Box::new(es[0]), operands: es.drop_first() },
                next,
            ),
            _ => Parsed::Miss,
        },
        Parsed::Miss => Parsed::Miss,
        Parsed::Fail => Parsed::Fail,
    }
}

/// The expressions from `i` on, as many as there are, and the position after
/// the last.
pub open spec fn exprs_at(s: Seq<u8>, i: int) -> Parsed<Seq<ExprView>>
    decreases s.len() - i, 2int,
{
    match expr_at(s, i) {
        Parsed::Done(e, j) => {
            if i < j <= s.len() {
                match exprs_at(s, j) {
                    Parsed::Done(rest, next) => Parsed::Done(seq![e] + rest, next),
                    _ => Parsed::Fail,
                }
            } else {
                Parsed::Done(Seq::empty(), i)
            }
        },
        Parsed::Miss => Parsed::Done(Seq::empty(), i),
        Parsed::Fail => Parsed::Fail,
    }
}

/// The binding at `i`: a name and an expression in parentheses.
pub open spec fn binding_at(s: Seq<u8>, i: int) -> Parsed<(Seq<char>, ExprView)>
    decreases s.len() - i, 1int,
{
    match open_at(s, i) {
        Some(q) if 0 <= i <= s.len() => {
            let p = skip_spaces(s, q);
            let e = name_end(s, p);
            if e > p {
                proof {
                    lemma_skip_spaces(s, i);
                    lemma_skip_spaces(s, q);
                    lemma_name_end(s, p);
                }
                match expr_at(s, e) {
                    Parsed::Done(value, j) => match close_at(s, j) {
                        Some(next) => Parsed::Done((ascii_text(s.subrange(p, e)), value), next),
                        None => Parsed::Miss,
                    },
                    Parsed::Miss => Parsed::Miss,
                    Parsed::Fail => Parsed::Fail,
                }
            } else {
                Parsed::Miss
            }
        },
        _ => Parsed::Miss,
    }
}

/// The bindings from `i` on, as many as there are: their names, the
/// expressions bound, and the position after the last.
pub open spec fn bindings_at(s: Seq<u8>, i: int) -> Parsed<(Seq<Seq<char>>, Seq<ExprView>)>
    decreases s.len() - i, 2int,
{
    match binding_at(s, i) {
        Parsed::Done((name, value), j) => {
            if i < j <= s.len() {
                match bindings_at(s, j) {
                    Parsed::Done((names, values), next) => Parsed::Done(
                        (seq![name] + names, seq![value] + values),
                        next,
                    ),
                    _ => Parsed::Fail,
                }
            } else {
                Parsed::Done((Seq::empty(), Seq::empty()), i)
            }
        },
        Parsed::Miss => Parsed::Done((Seq::empty(), Seq::empty()), i),
        Parsed::Fail => Parsed::Fail,
    }
}

/// After `(define`: a name, an expression and the closing parenthesis.
pub open spec fn define_tail(s: Seq<u8>, i: int) -> Parsed<FormView> {
    let p = skip_spaces(s, i);
    let e = name_end(s, p);
    if e > p {
        match expr_at(s, e) {
            Parsed::Done(value, j) => match close_at(s, j) {
                Some(next) => Parsed::Done(
                    FormView::Define { name: ascii_text(s.subrange(p, e)), value },
                    next,
                ),
                None => Parsed::Miss,
            },
            Parsed::Miss => Parsed::Miss,
            Parsed::Fail => Parsed::Fail,
        }
    } else {
        Parsed::Miss
    }
}

/// The form at `i`: a definition, or an expression.
pub open spec fn form_at(s: Seq<u8>, i: int) -> Parsed<FormView> {
    let defines = match open_at(s, i) {
        Some(q) => keyword_at(s, skip_spaces(s, q), "define".spec_bytes()),
        None => false,
    };
    if defines {
        commit(
            define_tail(
                s,
                skip_spaces(s, open_at(s, i).unwrap()) + "define".spec_bytes().len(),
            ),
        )
    } else {
        match expr_at(s, i) {
            Parsed::Done(e, next) => Parsed::Done(FormView::Plain(e), next),
            Parsed::Miss => Parsed::Miss,
            Parsed::Fail => Parsed::Fail,
        }
    }
}

/// The forms from `i` on, as many as there are.
pub open spec fn forms_at(s: Seq<u8>, i: int) -> Parsed<Seq<FormView>>
    decreases s.len() - i,
{
    match form_at(s, i) {
        Parsed::Done(form, j) => {
            if i < j <= s.len() {
                match forms_at(s, j) {
                    Parsed::Done(rest, next) => Parsed::Done(seq![form] + rest, next),
                    _ => Parsed::Fail,
                }
            } else {
                Parsed::Done(Seq::empty(), i)
            }
        },
        Parsed::Miss => Parsed::Done(Seq::empty(), i),
        Parsed::Fail => Parsed::Fail,
    }
}

/// The program that a text is: `(L3`, one form or more, `)`, and nothing but
/// spaces around them.
pub open spec fn program_of(s: Seq<u8>) -> Option<Seq<FormView>> {
    match open_at(s, 0) {
        Some(q) => {
            let k = skip_spaces(s, q);
            if keyword_at(s, k, "L3".spec_bytes()) {
                match forms_at(s, k + "L3".spec_bytes().len()) {
                    Parsed::Done(forms, j) => match close_at(s, j) {
                        Some(end) if forms.len() >= 1 && skip_spaces(s, end) == s.len() => Some(
                            forms,
                        ),
                        _ => None,
                    },
                    _ => None,
                }
            } else {
                None
            }
        },
        None => None,
    }
}

/// The expression that a text is, with nothing but spaces around it.
pub open spec fn expression_of(s: Seq<u8>) -> Option<ExprView> {
    match expr_at(s, 0) {
        Parsed::Done(e, j) if skip_spaces(s, j) == s.len() => Some(e),
        _ => None,
    }
}

/// The word of an operator that is found is not empty and ends within the
/// text.
#[verifier::rlimit(40)]
pub proof fn lemma_word_operator(s: Seq<u8>, p: int)
    requires
        0 <= p <= s.len(),
    ensures
        word_operator_at(s, p) matches Some((_, n)) ==> p < n <= s.len(),
{
    broadcast use vstd::string::is_ascii_spec_bytes;

    reveal_strlit("not");
    reveal_strlit("and");
    reveal_strlit("or");
    reveal_strlit("cons");
    reveal_strlit("car");
    reveal_strlit("cdr");
    reveal_strlit("list");
    reveal_strlit("eq?");
    reveal_strlit("pair?");
    reveal_strlit("number?");
    reveal_strlit("boolean?");
    reveal_strlit("symbol?");
    assert(vstd::string::is_ascii("not"));
    assert(vstd::string::is_ascii("and"));
    assert(vstd::string::is_ascii("or"));
    assert(vstd::string::is_ascii("cons"));
    assert(vstd::string::is_ascii("car"));
    assert(vstd::string::is_ascii("cdr"));
    assert(vstd::string::is_ascii("list"));
    assert(vstd::string::is_ascii("eq?"));
    assert(vstd::string::is_ascii("pair?"));
    assert(vstd::string::is_ascii("number?"));
    assert(vstd::string::is_ascii("boolean?"));
    assert(vstd::string::is_ascii("symbol?"));
}

/// A word that stands at a position stands there byte for byte.
pub proof fn lemma_prefix_bytes(s: Seq<u8>, p: int, word: Seq<u8>)
    requires
        has_prefix(s, p, word),
    ensures
        forall|k: int| 0 <= k < word.len() ==> s[p + k] == #[trigger] word[k],
{
    assert forall|k: int| 0 <= k < word.len() implies s[p + k] == #[trigger] word[k] by {
        assert(s.subrange(p, p + word.len())[k] == s[p + k]);
    }
}

/// The bytes of the operator tokens.
#[verifier::rlimit(40)]
pub proof fn lemma_operator_tokens()
    ensures
        operator_token(PrimitiveOperation::Add) == seq![43u8],
        operator_token(PrimitiveOperation::Sub) == seq![45u8],
        operator_token(PrimitiveOperation::Mul) == seq![42u8],
        operator_token(PrimitiveOperation::Div) == seq![47u8],
        operator_token(PrimitiveOperation::Equal) == seq![61u8],
        operator_token(PrimitiveOperation::LessThan) == seq![60u8],
        operator_token(PrimitiveOperation::LessThanOrEqual) == seq![60u8, 61u8],
        operator_token(PrimitiveOperation::GreaterThan) == seq![62u8],
        operator_token(PrimitiveOperation::GreaterThanOrEqual) == seq![62u8, 61u8],
        operator_token(PrimitiveOperation::Not) == seq![110u8, 111u8, 116u8],
        operator_token(PrimitiveOperation::And) == seq![97u8, 110u8, 100u8],
        operator_token(PrimitiveOperation::Or) == seq![111u8, 114u8],
        operator_token(PrimitiveOperation::IsEq) == seq![101u8, 113u8, 63u8],
        operator_token(PrimitiveOperation::Cons) == seq![99u8, 111u8, 110u8, 115u8],
        operator_token(PrimitiveOperation::Car) == seq![99u8, 97u8, 114u8],
        operator_token(PrimitiveOperation::Cdr) == seq![99u8, 100u8, 114u8],
        operator_token(PrimitiveOperation::List) == seq![108u8, 105u8, 115u8, 116u8],
        operator_token(PrimitiveOperation::IsPair) == seq![112u8, 97u8, 105u8, 114u8, 63u8],
        operator_token(PrimitiveOperation::IsNumber) == seq![110u8, 117u8, 109u8, 98u8, 101u8, 114u8, 63u8],
        operator_token(PrimitiveOperation::IsBoolean) == seq![98u8, 111u8, 111u8, 108u8, 101u8, 97u8, 110u8, 63u8],
        operator_token(PrimitiveOperation::IsSymbol) == seq![115u8, 121u8, 109u8, 98u8, 111u8, 108u8, 63u8],
{
    broadcast use vstd::string::is_ascii_spec_bytes;

    reveal_strlit("+");
    reveal_strlit("-");
    reveal_strlit("*");
    reveal_strlit("/");
    reveal_strlit("=");
    reveal_strlit("<");
    reveal_strlit("<=");
    reveal_strlit(">");
    reveal_strlit(">=");
    reveal_strlit("not");
    reveal_strlit("and");
    reveal_strlit("or");
    reveal_strlit("eq?");
    reveal_strlit("cons");
    reveal_strlit("car");
    reveal_strlit("cdr");
    reveal_strlit("list");
    reveal_strlit("pair?");
    reveal_strlit("number?");
    reveal_strlit("boolean?");
    reveal_strlit("symbol?");
    assert(vstd::string::is_ascii("+"));
    assert(vstd::string::is_ascii("-"));
    assert(vstd::string::is_ascii("*"));
    assert(vstd::string::is_ascii("/"));
    assert(vstd::string::is_ascii("="));
    assert(vstd::string::is_ascii("<"));
    assert(vstd::string::is_ascii("<="));
    assert(vstd::string::is_ascii(">"));
    assert(vstd::string::is_ascii(">="));
    assert(vstd::string::is_ascii("not"));
    assert(vstd::string::is_ascii("and"));
    assert(vstd::string::is_ascii("or"));
    assert(vstd::string::is_ascii("eq?"));
    assert(vstd::string::is_ascii("cons"));
    assert(vstd::string::is_ascii("car"));
    assert(vstd::string::is_ascii("cdr"));
    assert(vstd::string::is_ascii("list"));
    assert(vstd::string::is_ascii("pair?"));
    assert(vstd::string::is_ascii("number?"));
    assert(vstd::string::is_ascii("boolean?"));
    assert(vstd::string::is_ascii("symbol?"));
    assert("+".spec_bytes() =~= seq![43u8]);
    assert("-".spec_bytes() =~= seq![45u8]);
    assert("*".spec_bytes() =~= seq![42u8]);
    assert("/".spec_bytes() =~= seq![47u8]);
    assert("=".spec_bytes() =~= seq![61u8]);
    assert("<".spec_bytes() =~= seq![60u8]);
    assert("<=".spec_bytes() =~= seq![60u8, 61u8]);
    assert(">".spec_bytes() =~= seq![62u8]);
    assert(">=".spec_bytes() =~= seq![62u8, 61u8]);
    assert("not".spec_bytes() =~= seq![110u8, 111u8, 116u8]);
    assert("and".spec_bytes() =~= seq![97u8, 110u8, 100u8]);
    assert("or".spec_bytes() =~= seq![111u8, 114u8]);
    assert("eq?".spec_bytes() =~= seq![101u8, 113u8, 63u8]);
    assert("cons".spec_bytes() =~= seq![99u8, 111u8, 110u8, 115u8]);
    assert("car".spec_bytes() =~= seq![99u8, 97u8, 114u8]);
    assert("cdr".spec_bytes() =~= seq![99u8, 100u8, 114u8]);
    assert("list".spec_bytes() =~= seq![108u8, 105u8, 115u8, 116u8]);
    assert("pair?".spec_bytes() =~= seq![112u8, 97u8, 105u8, 114u8, 63u8]);
    assert("number?".spec_bytes() =~= seq![110u8, 117u8, 109u8, 98u8, 101u8, 114u8, 63u8]);
    assert("boolean?".spec_bytes() =~= seq![98u8, 111u8, 111u8, 108u8, 101u8, 97u8, 110u8, 63u8]);
    assert("symbol?".spec_bytes() =~= seq![115u8, 121u8, 109u8, 98u8, 111u8, 108u8, 63u8]);
}

/// Where the token of an operator stands, the text starts with its bytes.
#[verifier::rlimit(40)]
pub proof fn lemma_token_starts(s: Seq<u8>, p: int, op: PrimitiveOperation)
    requires
        has_prefix(s, p, operator_token(op)),
    ensures
        p < s.len(),
        s[p] == operator_token(op)[0],
        operator_token(op).len() >= 2 ==> p + 1 < s.len() && s[p + 1] == operator_token(op)[1],
{
    lemma_operator_tokens();
    lemma_prefix_bytes(s, p, operator_token(op));
    let word = operator_token(op);
    assert(word.len() >= 1);
    assert(s[p + 0] == word[0]);
    if word.len() >= 2 {
        assert(s[p + 1] == word[1]);
    }
}

/// An operator token that stands at a position is read, or a longer one is.
#[verifier::rlimit(40)]
pub proof fn lemma_token_is_read(s: Seq<u8>, p: int, other: PrimitiveOperation)
    requires
        0 <= p <= s.len(),
        has_prefix(s, p, operator_token(other)),
    ensures
        operator_at(s, p) matches Some((op, next)) && p + operator_token(other).len() <= next,
{
    lemma_operator_tokens();
    lemma_token_starts(s, p, other);
    lemma_found_operator(s, p);
    if sign_operator_at(s, p) is None {
        match word_operator_at(s, p) {
            Some((op, next)) => {
                lemma_token_starts(s, p, op);
            },
            None => {},
        }
    }
}

/// Whether an operator token starts with the byte.
pub open spec fn starts_operator(b: u8) -> bool {
    b == 42 || b == 43 || b == 45 || b == 47 || b == 60 || b == 61 || b == 62 || b == 97 || b == 98 || b == 99 || b == 101 || b == 108 || b == 110 || b == 111 || b == 112 || b == 115
}

/// The bytes of the token of one operator.
#[verifier::rlimit(40)]
pub proof fn lemma_token_bytes(op: PrimitiveOperation)
    ensures
        match op {
            PrimitiveOperation::Add => operator_token(op) == seq![43u8],
            PrimitiveOperation::Sub => operator_token(op) == seq![45u8],
            PrimitiveOperation::Mul => operator_token(op) == seq![42u8],
            PrimitiveOperation::Div => operator_token(op) == seq![47u8],
            PrimitiveOperation::Equal => operator_token(op) == seq![61u8],
            PrimitiveOperation::LessThan => operator_token(op) == seq![60u8],
            PrimitiveOperation::LessThanOrEqual => operator_token(op) == seq![60u8, 61u8],
            PrimitiveOperation::GreaterThan => operator_token(op) == seq![62u8],
            PrimitiveOperation::GreaterThanOrEqual => operator_token(op) == seq![62u8, 61u8],
            PrimitiveOperation::Not => operator_token(op) == seq![110u8, 111u8, 116u8],
            PrimitiveOperation::And => operator_token(op) == seq![97u8, 110u8, 100u8],
            PrimitiveOperation::Or => operator_token(op) == seq![111u8, 114u8],
            PrimitiveOperation::IsEq => operator_token(op) == seq![101u8, 113u8, 63u8],
            PrimitiveOperation::Cons => operator_token(op) == seq![99u8, 111u8, 110u8, 115u8],
            PrimitiveOperation::Car => operator_token(op) == seq![99u8, 97u8, 114u8],
            PrimitiveOperation::Cdr => operator_token(op) == seq![99u8, 100u8, 114u8],
            PrimitiveOperation::List => operator_token(op) == seq![108u8, 105u8, 115u8, 116u8],
            PrimitiveOperation::IsPair => operator_token(op) == seq![112u8, 97u8, 105u8, 114u8, 63u8],
            PrimitiveOperation::IsNumber => operator_token(op) == seq![110u8, 117u8, 109u8, 98u8, 101u8, 114u8, 63u8],
            PrimitiveOperation::IsBoolean => operator_token(op) == seq![98u8, 111u8, 111u8, 108u8, 101u8, 97u8, 110u8, 63u8],
            PrimitiveOperation::IsSymbol => operator_token(op) == seq![115u8, 121u8, 109u8, 98u8, 111u8, 108u8, 63u8],
        },
{
    lemma_operator_tokens();
}

/// An operator is read only where an operator token can start.
#[verifier::rlimit(40)]
pub proof fn lemma_operator_starts(s: Seq<u8>, p: int)
    requires
        0 <= p <= s.len(),
    ensures
        operator_at(s, p) is Some ==> p < s.len() && starts_operator(s[p]),
{
    lemma_found_operator(s, p);
    match operator_at(s, p) {
        Some((op, next)) => {
            lemma_token_starts(s, p, op);
            lemma_operator_tokens();
        },
        None => {},
    }
}

/// Two operator tokens differ in their first two bytes, but for `<` and `<=`
/// and for `>` and `>=`, where the one starts the other.
#[verifier::rlimit(40)]
pub proof fn lemma_tokens_apart(a: PrimitiveOperation, b: PrimitiveOperation)
    ensures
        a == b || operator_token(a)[0] != operator_token(b)[0] || (operator_token(a).len() >= 2
            && operator_token(b).len() >= 2 && operator_token(a)[1] != operator_token(b)[1]) || (a
            is LessThan && b is LessThanOrEqual) || (a is LessThanOrEqual && b is LessThan) || (a
            is GreaterThan && b is GreaterThanOrEqual) || (a is GreaterThanOrEqual && b
            is GreaterThan),
{
    lemma_token_bytes(a);
    lemma_token_bytes(b);
}

/// The operator whose token stands at a position is the one read there,
/// unless the token is `<` or `>` and `=` follows it.
#[verifier::rlimit(40)]
pub proof fn lemma_operator_read(s: Seq<u8>, p: int, op: PrimitiveOperation)
    requires
        0 <= p <= s.len(),
        has_prefix(s, p, operator_token(op)),
        (op is LessThan || op is GreaterThan) ==> !(p + 1 < s.len() && s[p + 1] == 61),
    ensures
        operator_at(s, p) == Some((op, p + operator_token(op).len())),
{
    lemma_token_is_read(s, p, op);
    lemma_found_operator(s, p);
    let found = operator_at(s, p)->Some_0.0;
    lemma_token_starts(s, p, op);
    lemma_token_starts(s, p, found);
    lemma_tokens_apart(op, found);
    if op != found {
        lemma_token_bytes(op);
        lemma_token_bytes(found);
    }
}

/// The operator read at a position is the longest operator token that
/// stands there, and none is read where none stands.
pub proof fn lemma_operator_is_longest_token(s: Seq<u8>, p: int)
    requires
        0 <= p <= s.len(),
    ensures
        match operator_at(s, p) {
            Some((op, next)) => has_prefix(s, p, operator_token(op)) && next == p
                + operator_token(op).len() && forall|other: PrimitiveOperation|
                has_prefix(s, p, #[trigger] operator_token(other)) ==> operator_token(other).len()
                    <= operator_token(op).len(),
            None => forall|other: PrimitiveOperation|
                !has_prefix(s, p, #[trigger] operator_token(other)),
        },
{
    lemma_found_operator(s, p);
    assert forall|other: PrimitiveOperation|
        has_prefix(s, p, #[trigger] operator_token(other)) implies (operator_at(s, p) matches Some(
        (op, next),
    ) && p + operator_token(other).len() <= next) by {
        lemma_token_is_read(s, p, other);
    }
}

/// The operator read at a position stands there.
#[verifier::rlimit(40)]
pub proof fn lemma_found_operator(s: Seq<u8>, p: int)
    requires
        0 <= p <= s.len(),
    ensures
        operator_at(s, p) matches Some((op, next)) ==> has_prefix(s, p, operator_token(op))
            && next == p + operator_token(op).len(),
{
    lemma_operator_tokens();
    match sign_operator_at(s, p) {
        Some((op, next)) => {
            assert(s.subrange(p, next) =~= operator_token(op));
        },
        None => {},
    }
}

/// A parenthesis that is found stands after the position searched from.
pub proof fn lemma_parenthesis(s: Seq<u8>, i: int)
    requires
        0 <= i <= s.len(),
    ensures
        close_at(s, i) matches Some(n) ==> i < n <= s.len(),
        open_at(s, i) matches Some(n) ==> i < n <= s.len(),
{
    lemma_skip_spaces(s, i);
}

/// A token that is found is not empty and ends within the text.
pub proof fn lemma_atom_consumes(s: Seq<u8>, p: int, scan: NumberScan)
    requires
        0 <= p <= s.len(),
    ensures
        atom_given(s, p, scan) matches Parsed::Done(_, n) ==> p < n <= s.len(),
{
    lemma_name_end(s, p);
    lemma_word_operator(s, p);
}

/// The names found end within the text, at or after the position searched
/// from.
pub proof fn lemma_names_advance(s: Seq<u8>, i: int)
    requires
        0 <= i <= s.len(),
    ensures
        i <= names_at(s, i).1 <= s.len(),
    decreases s.len() - i,
{
    let p = skip_spaces(s, i);
    lemma_skip_spaces(s, i);
    lemma_name_end(s, p);
    if name_end(s, p) > p {
        lemma_names_advance(s, name_end(s, p));
    }
}

/// An expression that is found is not empty and ends within the text.
pub proof fn lemma_expr_consumes(s: Seq<u8>, i: int)
    requires
        0 <= i <= s.len(),
    ensures
        expr_at(s, i) matches Parsed::Done(_, n) ==> i < n <= s.len(),
    decreases s.len() - i, 1int,
{
    let p = skip_spaces(s, i);
    lemma_skip_spaces(s, i);
    lemma_atom_consumes(s, p, number_at(s, p));
    if atom_at(s, p) is Miss && p < s.len() && s[p] == OPEN {
        lemma_compound_consumes(s, p);
    }
}

/// A parenthesized expression that is found ends within the text, after its
/// opening parenthesis.
pub proof fn lemma_compound_consumes(s: Seq<u8>, p: int)
    requires
        0 <= p < s.len(),
    ensures
        compound_at(s, p) matches Parsed::Done(_, n) ==> p < n <= s.len(),
    decreases s.len() - p, 0int,
{
    let k = skip_spaces(s, p + 1);
    lemma_skip_spaces(s, p + 1);
    if keyword_at(s, k, "if".spec_bytes()) {
        lemma_tail_consumes(s, k + "if".spec_bytes().len());
    } else if keyword_at(s, k, "lambda".spec_bytes()) {
        lemma_tail_consumes(s, k + "lambda".spec_bytes().len());
    } else if keyword_at(s, k, "let".spec_bytes()) {
        lemma_tail_consumes(s, k + "let".spec_bytes().len());
    } else {
        lemma_tail_consumes(s, p + 1);
    }
}

/// What follows a keyword or an opening parenthesis, where it is found, ends
/// within the text and after the position searched from.
pub proof fn lemma_tail_consumes(s: Seq<u8>, i: int)
    requires
        0 <= i <= s.len(),
    ensures
        if_tail(s, i) matches Parsed::Done(_, n) ==> i < n <= s.len(),
        lambda_tail(s, i) matches Parsed::Done(_, n) ==> i < n <= s.len(),
        let_tail(s, i) matches Parsed::Done(_, n) ==> i < n <= s.len(),
        application_tail(s, i) matches Parsed::Done(_, n) ==> i < n <= s.len(),
    decreases s.len() - i, 3int,
{
    lemma_exprs_advance(s, i);
    match exprs_at(s, i) {
        Parsed::Done(es, j) => {
            lemma_parenthesis(s, j);
        },
        _ => {},
    }
    lemma_parenthesis(s, i);
    match open_at(s, i) {
        Some(q) => {
            lemma_names_advance(s, q);
            let j = names_at(s, q).1;
            lemma_parenthesis(s, j);
            match close_at(s, j) {
                Some(b) => {
                    lemma_exprs_advance(s, b);
                    match exprs_at(s, b) {
                        Parsed::Done(body, m) => {
                            lemma_parenthesis(s, m);
                        },
                        _ => {},
                    }
                },
                None => {},
            }
            lemma_bindings_advance(s, q);
            match bindings_at(s, q) {
                Parsed::Done(found, j2) => {
                    lemma_parenthesis(s, j2);
                    match close_at(s, j2) {
                        Some(b) => {
                            lemma_exprs_advance(s, b);
                            match exprs_at(s, b) {
                                Parsed::Done(body, m) => {
                                    lemma_parenthesis(s, m);
                                },
                                _ => {},
                            }
                        },
                        None => {},
                    }
                },
                _ => {},
            }
        },
        None => {},
    }
}

/// The expressions found end within the text, at or after the position
/// searched from.
pub proof fn lemma_exprs_advance(s: Seq<u8>, i: int)
    requires
        0 <= i <= s.len(),
    ensures
        exprs_at(s, i) matches Parsed::Done(_, n) ==> i <= n <= s.len(),
    decreases s.len() - i, 2int,
{
    lemma_expr_consumes(s, i);
    match expr_at(s, i) {
        Parsed::Done(e, j) => {
            lemma_exprs_advance(s, j);
        },
        _ => {},
    }
}

/// A binding that is found is not empty and ends within the text.
pub proof fn lemma_binding_consumes(s: Seq<u8>, i: int)
    requires
        0 <= i <= s.len(),
    ensures
        binding_at(s, i) matches Parsed::Done(_, n) ==> i < n <= s.len(),
    decreases s.len() - i, 1int,
{
    lemma_parenthesis(s, i);
    match open_at(s, i) {
        Some(q) => {
            let p = skip_spaces(s, q);
            lemma_skip_spaces(s, q);
            lemma_name_end(s, p);
            let e = name_end(s, p);
            if e > p {
                lemma_expr_consumes(s, e);
                match expr_at(s, e) {
                    Parsed::Done(value, j) => {
                        lemma_parenthesis(s, j);
                    },
                    _ => {},
                }
            }
        },
        None => {},
    }
}

/// The bindings found end within the text, at or after the position searched
/// from.
pub proof fn lemma_bindings_advance(s: Seq<u8>, i: int)
    requires
        0 <= i <= s.len(),
    ensures
        bindings_at(s, i) matches Parsed::Done(_, n) ==> i <= n <= s.len(),
    decreases s.len() - i, 2int,
{
    lemma_binding_consumes(s, i);
    match binding_at(s, i) {
        Parsed::Done(found, j) => {
            lemma_bindings_advance(s, j);
        },
        _ => {},
    }
}

/// After a keyword nothing else is tried: a parenthesized expression that
/// starts with `if`, `lambda` or `let` and a space is that form, or the parse
/// ends there.
pub proof fn lemma_keyword_commits(s: Seq<u8>, p: int)
    requires
        0 <= p < s.len(),
        keyword_at(s, skip_spaces(s, p + 1), "if".spec_bytes()) || keyword_at(
            s,
            skip_spaces(s, p + 1),
            "lambda".spec_bytes(),
        ) || keyword_at(s, skip_spaces(s, p + 1), "let".spec_bytes()),
    ensures
        !(compound_at(s, p) is Miss),
        compound_at(s, p) matches Parsed::Done(e, _) ==> e is If || e is Procedure || e is Let,
{
    lemma_skip_spaces(s, p + 1);
}

/// Nothing but spaces follows a program: a text is a program only where it
/// holds a closing parenthesis with nothing but spaces after it.
pub proof fn lemma_nothing_after_program(s: Seq<u8>)
    requires
        program_of(s) is Some,
    ensures
        exists|end: int|
            0 < end <= s.len() && #[trigger] s[end - 1] == CLOSE && forall|k: int|
                end <= k < s.len() ==> is_space(s[k]),
{
    let q = open_at(s, 0)->Some_0;
    let k = skip_spaces(s, q);
    let j = forms_at(s, k + "L3".spec_bytes().len())->Done_1;
    let end = close_at(s, j)->Some_0;
    lemma_skip_spaces(s, 0);
    lemma_skip_spaces(s, q);
    lemma_forms_advance(s, k + "L3".spec_bytes().len());
    lemma_skip_spaces(s, j);
    lemma_skip_spaces(s, end);
    assert(s[end - 1] == CLOSE);
}

/// Nothing but spaces follows an expression that is a whole text.
pub proof fn lemma_nothing_after_expression(s: Seq<u8>)
    requires
        expression_of(s) is Some,
    ensures
        expr_at(s, 0) matches Parsed::Done(_, end) && 0 < end <= s.len() && forall|k: int|
            end <= k < s.len() ==> is_space(s[k]),
{
    lemma_expr_consumes(s, 0);
    let end = expr_at(s, 0)->Done_1;
    lemma_skip_spaces(s, end);
}

/// The forms found end within the text, at or after the position searched
/// from.
pub proof fn lemma_forms_advance(s: Seq<u8>, i: int)
    requires
        0 <= i <= s.len(),
    ensures
        forms_at(s, i) matches Parsed::Done(_, n) ==> i <= n <= s.len(),
    decreases s.len() - i,
{
    match form_at(s, i) {
        Parsed::Done(form, j) => {
            if i < j <= s.len() {
                lemma_forms_advance(s, j);
            }
        },
        _ => {},
    }
}

/// What a parser finds at a position: as `Parsed`, with the value built.
pub enum Scan<T> {
    Done(T, usize),
    Miss,
    Fail,
}

/// What a scan for an expression stands for.
pub open spec fn scanned_expr(r: Scan<ConstituentExpression>) -> Parsed<ExprView> {
    match r {
        Scan::Done(e, next) => Parsed::Done(e@, next as int),
        Scan::Miss => Parsed::Miss,
        Scan::Fail => Parsed::Fail,
    }
}

/// What a scan for a sequence of expressions stands for.
pub open spec fn scanned_exprs(r: Scan<Vec<Box<ConstituentExpression>>>) -> Parsed<Seq<ExprView>> {
    match r {
        Scan::Done(es, next) => Parsed::Done(exprs_view(es@), next as int),
        Scan::Miss => Parsed::Miss,
        Scan::Fail => Parsed::Fail,
    }
}

/// What a scan for a binding stands for.
pub open spec fn scanned_binding(r: Scan<(VariableDeclaration, Box<ConstituentExpression>)>) -> Parsed<
    (Seq<char>, ExprView),
> {
    match r {
        Scan::Done(b, next) => Parsed::Done((b.0.0@, (*b.1)@), next as int),
        Scan::Miss => Parsed::Miss,
        Scan::Fail => Parsed::Fail,
    }
}

/// What a scan for a sequence of bindings stands for.
pub open spec fn scanned_bindings(
    r: Scan<Vec<(VariableDeclaration, Box<ConstituentExpression>)>>,
) -> Parsed<(Seq<Seq<char>>, Seq<ExprView>)> {
    match r {
        Scan::Done(bs, next) => Parsed::Done(
            (binding_names(bs@), binding_values(bs@)),
            next as int,
        ),
        Scan::Miss => Parsed::Miss,
        Scan::Fail => Parsed::Fail,
    }
}

/// What a scan for a form stands for.
pub open spec fn scanned_form(r: Scan<Expression>) -> Parsed<FormView> {
    match r {
        Scan::Done(form, next) => Parsed::Done(form@, next as int),
        Scan::Miss => Parsed::Miss,
        Scan::Fail => Parsed::Fail,
    }
}

/// What a scan for a sequence of forms stands for.
pub open spec fn scanned_forms(r: Scan<Vec<Expression>>) -> Parsed<Seq<FormView>> {
    match r {
        Scan::Done(forms, next) => Parsed::Done(forms_view(forms@), next as int),
        Scan::Miss => Parsed::Miss,
        Scan::Fail => Parsed::Fail,
    }
}

/// Whether a scan ended within `len` bytes.
pub open spec fn within<T>(r: Scan<T>, len: int) -> bool {
    r matches Scan::Done(_, next) ==> next <= len
}

/// A sequence in front of what is found after it.
pub open spec fn prepend<T>(front: Seq<T>, found: Parsed<Seq<T>>) -> Parsed<Seq<T>> {
    match found {
        Parsed::Done(rest, next) => Parsed::Done(front + rest, next),
        Parsed::Miss => Parsed::Miss,
        Parsed::Fail => Parsed::Fail,
    }
}

/// Names and expressions in front of the bindings found after them.
pub open spec fn prepend_bindings(
    names: Seq<Seq<char>>,
    values: Seq<ExprView>,
    found: Parsed<(Seq<Seq<char>>, Seq<ExprView>)>,
) -> Parsed<(Seq<Seq<char>>, Seq<ExprView>)> {
    match found {
        Parsed::Done((more_names, more_values), next) => Parsed::Done(
            (names + more_names, values + more_values),
            next,
        ),
        Parsed::Miss => Parsed::Miss,
        Parsed::Fail => Parsed::Fail,
    }
}

/// Whether the byte is a space.
fn space(b: u8) -> (r: bool)
    ensures
        r == is_space(b),
{
    b == 32 || b == 9 || b == 10 || b == 13
}

/// Whether the byte may stand in a name.
fn name_byte(b: u8) -> (r: bool)
    ensures
        r == is_name_byte(b),
{
    (48 <= b && b <= 57) || (65 <= b && b <= 90) || (97 <= b && b <= 122) || b == 45 || b == 63
        || b == 33
}

/// The first position from `at` on that holds no space.
pub fn skip_whitespace(bytes: &[u8], at: usize) -> (r: usize)
    requires
        at <= bytes.len(),
    ensures
        r == skip_spaces(bytes@, at as int),
        at <= r <= bytes.len(),
{
    let mut i: usize = at;
    while i < bytes.len() && space(bytes[i])
        invariant
            at <= i <= bytes.len(),
            skip_spaces(bytes@, at as int) == skip_spaces(bytes@, i as int),
        decreases bytes.len() - i,
    {
        i = i + 1;
    }
    i
}

/// The end of the name that starts at `at`: `at` itself where none does.
pub fn parse_identifier(bytes: &[u8], at: usize) -> (r: usize)
    requires
        at <= bytes.len(),
    ensures
        r == name_end(bytes@, at as int),
        at <= r <= bytes.len(),
{
    let mut i: usize = at;
    while i < bytes.len() && name_byte(bytes[i])
        invariant
            at <= i <= bytes.len(),
            name_end(bytes@, at as int) == name_end(bytes@, i as int),
        decreases bytes.len() - i,
    {
        i = i + 1;
    }
    i
}

/// The bytes from `from` up to `to` as a text.
pub fn text_of(bytes: &[u8], from: usize, to: usize) -> (r: String)
    requires
        from <= to <= bytes.len(),
    ensures
        r@ == ascii_text(bytes@.subrange(from as int, to as int)),
{
    let mut out = String::new();
    let mut i: usize = from;
    while i < to
        invariant
            from <= i <= to <= bytes.len(),
            out@ == ascii_text(bytes@.subrange(from as int, i as int)),
        decreases to - i,
    {
        out.push(bytes[i] as char);
        i = i + 1;
    }
    out
}

/// Whether `word` stands in `bytes` at `at`.
pub fn starts_with(bytes: &[u8], at: usize, word: &[u8]) -> (r: bool)
    requires
        at <= bytes.len(),
    ensures
        r == has_prefix(bytes@, at as int, word@),
{
    if word.len() > bytes.len() - at {
        return false;
    }
    let mut i: usize = 0;
    while i < word.len()
        invariant
            i <= word.len(),
            at + word.len() <= bytes.len(),
            forall|k: int| 0 <= k < i ==> bytes[at + k] == word[k],
        decreases word.len() - i,
    {
        if bytes[at + i] != word[i] {
            return false;
        }
        i = i + 1;
    }
    assert(bytes@.subrange(at as int, at + word.len()) =~= word@);
    true
}

/// Whether the keyword stands at `at` with a space after it.
pub fn keyword(bytes: &[u8], at: usize, word: &str) -> (r: bool)
    requires
        at <= bytes.len(),
    ensures
        r == keyword_at(bytes@, at as int, word.spec_bytes()),
        r ==> at + word.spec_bytes().len() < bytes.len(),
{
    let w = word.as_bytes();
    if starts_with(bytes, at, w) {
        let after = at + w.len();
        after < bytes.len() && space(bytes[after])
    } else {
        false
    }
}

/// The position after a closing parenthesis at `at`, spaces apart.
pub fn closing(bytes: &[u8], at: usize) -> (r: Option<usize>)
    requires
        at <= bytes.len(),
    ensures
        match r {
            Some(next) => close_at(bytes@, at as int) == Some(next as int) && at < next
                <= bytes.len(),
            None => close_at(bytes@, at as int) is None,
        },
{
    let p = skip_whitespace(bytes, at);
    if p < bytes.len() && bytes[p] == CLOSE {
        Some(p + 1)
    } else {
        None
    }
}

/// The position after an opening parenthesis at `at`, spaces apart.
pub fn opening(bytes: &[u8], at: usize) -> (r: Option<usize>)
    requires
        at <= bytes.len(),
    ensures
        match r {
            Some(next) => open_at(bytes@, at as int) == Some(next as int) && at < next
                <= bytes.len(),
            None => open_at(bytes@, at as int) is None,
        },
{
    let p = skip_whitespace(bytes, at);
    if p < bytes.len() && bytes[p] == OPEN {
        Some(p + 1)
    } else {
        None
    }
}

/// The end of the word, where it stands at `at`.
fn word_end(bytes: &[u8], at: usize, word: &str) -> (r: Option<usize>)
    requires
        at <= bytes.len(),
    ensures
        match r {
            Some(next) => has_prefix(bytes@, at as int, word.spec_bytes()) && next == at
                + word.spec_bytes().len() && next <= bytes.len(),
            None => !has_prefix(bytes@, at as int, word.spec_bytes()),
        },
{
    let w = word.as_bytes();
    if starts_with(bytes, at, w) {
        Some(at + w.len())
    } else {
        None
    }
}

/// The operator whose word stands at `at`, and the end of the word.
fn parse_word_operator(bytes: &[u8], at: usize) -> (r: Option<(PrimitiveOperation, usize)>)
    requires
        at <= bytes.len(),
    ensures
        match r {
            Some((op, next)) => word_operator_at(bytes@, at as int) == Some((op, next as int))
                && next <= bytes.len(),
            None => word_operator_at(bytes@, at as int) is None,
        },
{
    if let Some(next) = word_end(bytes, at, "not") {
        Some((PrimitiveOperation::Not, next))
    } else if let Some(next) = word_end(bytes, at, "and") {
        Some((PrimitiveOperation::And, next))
    } else if let Some(next) = word_end(bytes, at, "or") {
        Some((PrimitiveOperation::Or, next))
    } else if let Some(next) = word_end(bytes, at, "cons") {
        Some((PrimitiveOperation::Cons, next))
    } else if let Some(next) = word_end(bytes, at, "car") {
        Some((PrimitiveOperation::Car, next))
    } else if let Some(next) = word_end(bytes, at, "cdr") {
        Some((PrimitiveOperation::Cdr, next))
    } else if let Some(next) = word_end(bytes, at, "list") {
        Some((PrimitiveOperation::List, next))
    } else if let Some(next) = word_end(bytes, at, "eq?") {
        Some((PrimitiveOperation::IsEq, next))
    } else if let Some(next) = word_end(bytes, at, "pair?") {
        Some((PrimitiveOperation::IsPair, next))
    } else if let Some(next) = word_end(bytes, at, "number?") {
        Some((PrimitiveOperation::IsNumber, next))
    } else if let Some(next) = word_end(bytes, at, "boolean?") {
        Some((PrimitiveOperation::IsBoolean, next))
    } else if let Some(next) = word_end(bytes, at, "symbol?") {
        Some((PrimitiveOperation::IsSymbol, next))
    } else {
        None
    }
}

/// The operator at `at`, and the position after it: the longest operator
/// token that stands at `at` is read, whatever follows it.
pub fn parse_primop(bytes: &[u8], at: usize) -> (r: Option<(PrimitiveOperation, usize)>)
    requires
        at <= bytes.len(),
    ensures
        match r {
            Some((op, next)) => operator_at(bytes@, at as int) == Some((op, next as int)) && at
                < next <= bytes.len(),
            None => operator_at(bytes@, at as int) is None,
        },
        match r {
            Some((op, next)) => has_prefix(bytes@, at as int, operator_token(op)) && next == at
                + operator_token(op).len() && forall|other: PrimitiveOperation|
                has_prefix(bytes@, at as int, #[trigger] operator_token(other))
                    ==> operator_token(other).len() <= operator_token(op).len(),
            None => forall|other: PrimitiveOperation|
                !has_prefix(bytes@, at as int, #[trigger] operator_token(other)),
        },
        r is Some ==> at < bytes.len() && starts_operator(bytes[at as int]),
{
    proof {
        lemma_operator_is_longest_token(bytes@, at as int);
        lemma_operator_starts(bytes@, at as int);
    }
    if at < bytes.len() {
        let b = bytes[at];
        let followed = at + 1 < bytes.len() && bytes[at + 1] == 61;
        if b == 43 {
            return Some((PrimitiveOperation::Add, at + 1));
        } else if b == 45 {
            return Some((PrimitiveOperation::Sub, at + 1));
        } else if b == 42 {
            return Some((PrimitiveOperation::Mul, at + 1));
        } else if b == 47 {
            return Some((PrimitiveOperation::Div, at + 1));
        } else if b == 61 {
            return Some((PrimitiveOperation::Equal, at + 1));
        } else if b == 60 {
            if followed {
                return Some((PrimitiveOperation::LessThanOrEqual, at + 2));
            } else {
                return Some((PrimitiveOperation::LessThan, at + 1));
            }
        } else if b == 62 {
            if followed {
                return Some((PrimitiveOperation::GreaterThanOrEqual, at + 2));
            } else {
                return Some((PrimitiveOperation::GreaterThan, at + 1));
            }
        }
    }
    proof {
        lemma_word_operator(bytes@, at as int);
    }
    parse_word_operator(bytes, at)
}

/// The boolean at `at`.
pub fn parse_boolean(bytes: &[u8], at: usize) -> (r: Option<bool>)
    requires
        at <= bytes.len(),
    ensures
        r == boolean_at(bytes@, at as int),
{
    if at < bytes.len() && bytes.len() - at >= 2 && bytes[at] == HASH {
        if bytes[at + 1] == 116 {
            Some(true)
        } else if bytes[at + 1] == 102 {
            Some(false)
        } else {
            None
        }
    } else {
        None
    }
}

/// The number at `at`: its length, as nom scans it.
pub fn parse_number(bytes: &[u8], at: usize) -> (r: NumberScan)
    requires
        at <= bytes.len(),
    ensures
        r == number_at(bytes@, at as int),
        r matches NumberScan::Token(n) ==> 0 < n && at + n <= bytes.len(),
{
    let rest = slice_subrange(bytes, at, bytes.len());
    proof {
        if at < bytes.len() {
            assert(rest@[0] == bytes@[at as int]);
        }
    }
    scan_number(rest)
}

/// The variable at `at`: a name.
pub fn parse_var(bytes: &[u8], at: usize) -> (r: Scan<ConstituentExpression>)
    requires
        at <= bytes.len(),
    ensures
        within(r, bytes@.len() as int),
        scanned_expr(r) == if name_end(bytes@, at as int) > at {
            Parsed::Done(
                ExprView::VariableReference(
                    ascii_text(bytes@.subrange(at as int, name_end(bytes@, at as int))),
                ),
                name_end(bytes@, at as int),
            )
        } else {
            Parsed::Miss
        },
{
    let end = parse_identifier(bytes, at);
    if end > at {
        Scan::Done(
            ConstituentExpression::VariableReference(VariableReference(text_of(bytes, at, end))),
            end,
        )
    } else {
        Scan::Miss
    }
}

/// The expression of a single token at `at`, where `scan` is what the scan
/// for a number found there.
pub fn parse_atom_given(bytes: &[u8], at: usize, scan: NumberScan) -> (r: Scan<
    ConstituentExpression,
>)
    requires
        at <= bytes.len(),
    ensures
        within(r, bytes@.len() as int),
        scanned_expr(r) == atom_given(bytes@, at as int, scan),
        r matches Scan::Done(_, next) ==> at <= next,
{
    match parse_primop(bytes, at) {
        Some((op, next)) => Scan::Done(ConstituentExpression::PrimitiveOperation(op), next),
        None => match parse_boolean(bytes, at) {
            Some(b) => Scan::Done(ConstituentExpression::Boolean(Boolean(b)), at + 2),
            None => match scan {
                NumberScan::Token(n) => {
                    if 0 < n && n <= bytes.len() - at {
                        Scan::Done(
                            ConstituentExpression::Number(
                                Number::Literal(text_of(bytes, at, at + n)),
                            ),
                            at + n,
                        )
                    } else {
                        parse_var(bytes, at)
                    }
                },
                NumberScan::Malformed => Scan::Fail,
                NumberScan::Absent => parse_var(bytes, at),
            },
        },
    }
}

/// The expression of a single token at `at`.
pub fn parse_atom(bytes: &[u8], at: usize) -> (r: Scan<ConstituentExpression>)
    requires
        at <= bytes.len(),
    ensures
        within(r, bytes@.len() as int),
        scanned_expr(r) == atom_at(bytes@, at as int),
        r matches Scan::Done(_, next) ==> at <= next,
{
    parse_atom_given(bytes, at, parse_number(bytes, at))
}

/// The names from `at` on, and the position after the last.
pub fn parse_names(bytes: &[u8], at: usize) -> (r: (Vec<VariableDeclaration>, usize))
    requires
        at <= bytes.len(),
    ensures
        (names_view(r.0@), r.1 as int) == names_at(bytes@, at as int),
        at <= r.1 <= bytes.len(),
{
    let mut names: Vec<VariableDeclaration> = Vec::new();
    let mut cur: usize = at;
    loop
        invariant
            at <= cur <= bytes.len(),
            names_at(bytes@, at as int) == (
                names_view(names@) + names_at(bytes@, cur as int).0,
                names_at(bytes@, cur as int).1,
            ),
        decreases bytes.len() - cur,
    {
        let p = skip_whitespace(bytes, cur);
        let e = parse_identifier(bytes, p);
        if e > p {
            let name = text_of(bytes, p, e);
            names.push(VariableDeclaration(name));
            cur = e;
        } else {
            return (names, cur);
        }
    }
}

/// Whether a quoted literal starts at `at`.
pub fn parse_quoted(bytes: &[u8], at: usize) -> (r: bool)
    requires
        at <= bytes.len(),
    ensures
        r == quoted_at(bytes@, at as int),
{
    at < bytes.len() && bytes[at] == QUOTE
}

/// The expression at `at`, spaces apart.
pub fn parse_cexp_at(bytes: &[u8], at: usize) -> (r: Scan<ConstituentExpression>)
    requires
        at <= bytes.len(),
    ensures
        within(r, bytes@.len() as int),
        scanned_expr(r) == expr_at(bytes@, at as int),
    decreases bytes.len() - at, 1int,
{
    let p = skip_whitespace(bytes, at);
    match parse_atom(bytes, p) {
        Scan::Miss => {
            if p < bytes.len() && bytes[p] == OPEN {
                parse_compound(bytes, p)
            } else if parse_quoted(bytes, p) {
                Scan::Fail
            } else {
                Scan::Miss
            }
        },
        found => found,
    }
}

/// After a keyword nothing else is tried.
fn committed(r: Scan<ConstituentExpression>) -> (c: Scan<ConstituentExpression>)
    ensures
        scanned_expr(c) == commit(scanned_expr(r)),
        r matches Scan::Done(_, next) ==> c matches Scan::Done(_, n2) && n2 == next,
        c matches Scan::Done(_, next) ==> r matches Scan::Done(_, n2) && n2 == next,
{
    match r {
        Scan::Miss => Scan::Fail,
        other => other,
    }
}

/// The parenthesized expression whose opening parenthesis stands at `p`.
pub fn parse_compound(bytes: &[u8], p: usize) -> (r: Scan<ConstituentExpression>)
    requires
        p < bytes.len(),
    ensures
        within(r, bytes@.len() as int),
        scanned_expr(r) == compound_at(bytes@, p as int),
    decreases bytes.len() - p, 0int,
{
    let k = skip_whitespace(bytes, p + 1);
    if keyword(bytes, k, "if") {
        committed(parse_if(bytes, k + "if".as_bytes().len()))
    } else if keyword(bytes, k, "lambda") {
        committed(parse_proc(bytes, k + "lambda".as_bytes().len()))
    } else if keyword(bytes, k, "let") {
        committed(parse_let(bytes, k + "let".as_bytes().len()))
    } else {
        parse_applic(bytes, p + 1)
    }
}

/// After `(if`: three expressions and the closing parenthesis.
pub fn parse_if(bytes: &[u8], at: usize) -> (r: Scan<ConstituentExpression>)
    requires
        at <= bytes.len(),
    ensures
        within(r, bytes@.len() as int),
        scanned_expr(r) == if_tail(bytes@, at as int),
    decreases bytes.len() - at, 3int,
{
    match parse_cexps(bytes, at) {
        Scan::Done(es, j) => {
            let mut es = es;
            match closing(bytes, j) {
                Some(next) => {
                    if es.len() == 3 {
                        let alt = es.pop().unwrap();
                        let then_branch = es.pop().unwrap();
                        let cond = es.pop().unwrap();
                        Scan::Done(ConstituentExpression::If(If { cond, then_branch, alt }), next)
                    } else {
                        Scan::Miss
                    }
                },
                None => Scan::Miss,
            }
        },
        Scan::Miss => Scan::Miss,
        Scan::Fail => Scan::Fail,
    }
}

/// After `(lambda`: the parameters in parentheses, one expression or more,
/// and the closing parenthesis.
pub fn parse_proc(bytes: &[u8], at: usize) -> (r: Scan<ConstituentExpression>)
    requires
        at <= bytes.len(),
    ensures
        within(r, bytes@.len() as int),
        scanned_expr(r) == lambda_tail(bytes@, at as int),
    decreases bytes.len() - at, 3int,
{
    match opening(bytes, at) {
        Some(q) => {
            let (args, j) = parse_names(bytes, q);
            match closing(bytes, j) {
                Some(b) => match parse_cexps(bytes, b) {
                    Scan::Done(body, m) => match closing(bytes, m) {
                        Some(next) => {
                            if body.len() >= 1 {
                                Scan::Done(
                                    ConstituentExpression::Procedure(Procedure { args, body }),
                                    next,
                                )
                            } else {
                                Scan::Miss
                            }
                        },
                        None => Scan::Miss,
                    },
                    Scan::Miss => Scan::Miss,
                    Scan::Fail => Scan::Fail,
                },
                None => Scan::Miss,
            }
        },
        None => Scan::Miss,
    }
}

/// After `(let`: the bindings in parentheses, one expression or more, and
/// the closing parenthesis.
pub fn parse_let(bytes: &[u8], at: usize) -> (r: Scan<ConstituentExpression>)
    requires
        at <= bytes.len(),
    ensures
        within(r, bytes@.len() as int),
        scanned_expr(r) == let_tail(bytes@, at as int),
    decreases bytes.len() - at, 3int,
{
    match opening(bytes, at) {
        Some(q) => match parse_bindings(bytes, q) {
            Scan::Done(bindings, j) => match closing(bytes, j) {
                Some(b) => match parse_cexps(bytes, b) {
                    Scan::Done(body, m) => match closing(bytes, m) {
                        Some(next) => {
                            if body.len() >= 1 {
                                Scan::Done(
                                    ConstituentExpression::Let(Let { bindings, body }),
                                    next,
                                )
                            } else {
                                Scan::Miss
                            }
                        },
                        None => Scan::Miss,
                    },
                    Scan::Miss => Scan::Miss,
                    Scan::Fail => Scan::Fail,
                },
                None => Scan::Miss,
            },
            Scan::Miss => Scan::Miss,
            Scan::Fail => Scan::Fail,
        },
        None => Scan::Miss,
    }
}

/// After `(`: the operator, the operands and the closing parenthesis.
pub fn parse_applic(bytes: &[u8], at: usize) -> (r: Scan<ConstituentExpression>)
    requires
        at <= bytes.len(),
    ensures
        within(r, bytes@.len() as int),
        scanned_expr(r) == application_tail(bytes@, at as int),
    decreases bytes.len() - at, 3int,
{
    match parse_cexps(bytes, at) {
        Scan::Done(es, j) => {
            let mut es = es;
            match closing(bytes, j) {
                Some(next) => {
                    if es.len() >= 1 {
                        let ghost all = exprs_view(es@);
                        let operator = es.remove(0);
                        proof {
                            assert(exprs_view(es@) =~= all.drop_first());
                        }
                        Scan::Done(
                            ConstituentExpression::Applic(Application { operator, operands: es }),
                            next,
                        )
                    } else {
                        Scan::Miss
                    }
                },
                None => Scan::Miss,
            }
        },
        Scan::Miss => Scan::Miss,
        Scan::Fail => Scan::Fail,
    }
}

/// The expressions from `at` on, as many as there are.
pub fn parse_cexps(bytes: &[u8], at: usize) -> (r: Scan<Vec<Box<ConstituentExpression>>>)
    requires
        at <= bytes.len(),
    ensures
        within(r, bytes@.len() as int),
        scanned_exprs(r) == exprs_at(bytes@, at as int),
        r matches Scan::Done(_, next) ==> at <= next,
    decreases bytes.len() - at, 2int,
{
    let mut out: Vec<Box<ConstituentExpression>> = Vec::new();
    let mut cur: usize = at;
    proof {
        assert(prepend(exprs_view(out@), exprs_at(bytes@, at as int)) == exprs_at(
            bytes@,
            at as int,
        ));
    }
    loop
        invariant
            at <= cur <= bytes.len(),
            exprs_at(bytes@, at as int) == prepend(exprs_view(out@), exprs_at(bytes@, cur as int)),
        decreases bytes.len() - cur,
    {
        match parse_cexp_at(bytes, cur) {
            Scan::Done(e, j) => {
                if j > cur {
                    let ghost before = exprs_view(out@);
                    out.push(Box::new(e));
                    proof {
                        assert(exprs_view(out@) =~= before.push(e@));
                        match exprs_at(bytes@, j as int) {
                            Parsed::Done(rest, next) => {
                                assert(before + (seq![e@] + rest) =~= before.push(e@) + rest);
                            },
                            _ => {},
                        }
                    }
                    cur = j;
                } else {
                    return Scan::Done(out, cur);
                }
            },
            Scan::Miss => {
                return Scan::Done(out, cur);
            },
            Scan::Fail => {
                return Scan::Fail;
            },
        }
    }
}

/// The binding at `at`: a name and an expression in parentheses.
pub fn parse_binding(bytes: &[u8], at: usize) -> (r: Scan<
    (VariableDeclaration, Box<ConstituentExpression>),
>)
    requires
        at <= bytes.len(),
    ensures
        within(r, bytes@.len() as int),
        scanned_binding(r) == binding_at(bytes@, at as int),
    decreases bytes.len() - at, 1int,
{
    match opening(bytes, at) {
        Some(q) => {
            let p = skip_whitespace(bytes, q);
            let e = parse_identifier(bytes, p);
            if e > p {
                match parse_cexp_at(bytes, e) {
                    Scan::Done(value, j) => match closing(bytes, j) {
                        Some(next) => Scan::Done(
                            (VariableDeclaration(text_of(bytes, p, e)), Box::new(value)),
                            next,
                        ),
                        None => Scan::Miss,
                    },
                    Scan::Miss => Scan::Miss,
                    Scan::Fail => Scan::Fail,
                }
            } else {
                Scan::Miss
            }
        },
        None => Scan::Miss,
    }
}

/// The bindings from `at` on, as many as there are.
pub fn parse_bindings(bytes: &[u8], at: usize) -> (r: Scan<
    Vec<(VariableDeclaration, Box<ConstituentExpression>)>,
>)
    requires
        at <= bytes.len(),
    ensures
        within(r, bytes@.len() as int),
        scanned_bindings(r) == bindings_at(bytes@, at as int),
        r matches Scan::Done(_, next) ==> at <= next,
    decreases bytes.len() - at, 2int,
{
    let mut out: Vec<(VariableDeclaration, Box<ConstituentExpression>)> = Vec::new();
    let mut cur: usize = at;
    loop
        invariant
            at <= cur <= bytes.len(),
            bindings_at(bytes@, at as int) == prepend_bindings(
                binding_names(out@),
                binding_values(out@),
                bindings_at(bytes@, cur as int),
            ),
        decreases bytes.len() - cur,
    {
        match parse_binding(bytes, cur) {
            Scan::Done(binding, j) => {
                if j > cur {
                    let ghost names_before = binding_names(out@);
                    let ghost values_before = binding_values(out@);
                    let ghost name = binding.0.0@;
                    let ghost value = (*binding.1)@;
                    out.push(binding);
                    proof {
                        assert(binding_names(out@) =~= names_before.push(name));
                        assert(binding_values(out@) =~= values_before.push(value));
                        match bindings_at(bytes@, j as int) {
                            Parsed::Done((names, values), next) => {
                                assert(names_before + (seq![name] + names) =~= names_before.push(
                                    name,
                                ) + names);
                                assert(values_before + (seq![value] + values)
                                    =~= values_before.push(value) + values);
                            },
                            _ => {},
                        }
                    }
                    cur = j;
                } else {
                    return Scan::Done(out, cur);
                }
            },
            Scan::Miss => {
                return Scan::Done(out, cur);
            },
            Scan::Fail => {
                return Scan::Fail;
            },
        }
    }
}

/// After `(define`: a name, an expression and the closing parenthesis.
pub fn parse_define(bytes: &[u8], at: usize) -> (r: Scan<Expression>)
    requires
        at <= bytes.len(),
    ensures
        within(r, bytes@.len() as int),
        scanned_form(r) == define_tail(bytes@, at as int),
{
    let p = skip_whitespace(bytes, at);
    let e = parse_identifier(bytes, p);
    if e > p {
        match parse_cexp_at(bytes, e) {
            Scan::Done(val, j) => match closing(bytes, j) {
                Some(next) => Scan::Done(
                    Expression::Define(Define { var: text_of(bytes, p, e), val }),
                    next,
                ),
                None => Scan::Miss,
            },
            Scan::Miss => Scan::Miss,
            Scan::Fail => Scan::Fail,
        }
    } else {
        Scan::Miss
    }
}

/// The form at `at`: a definition, or an expression.
pub fn parse_expression(bytes: &[u8], at: usize) -> (r: Scan<Expression>)
    requires
        at <= bytes.len(),
    ensures
        within(r, bytes@.len() as int),
        scanned_form(r) == form_at(bytes@, at as int),
{
    let defines = match opening(bytes, at) {
        Some(q) => {
            let k = skip_whitespace(bytes, q);
            if keyword(bytes, k, "define") {
                Some(k + "define".as_bytes().len())
            } else {
                None
            }
        },
        None => None,
    };
    match defines {
        Some(after) => match parse_define(bytes, after) {
            Scan::Miss => Scan::Fail,
            other => other,
        },
        None => match parse_cexp_at(bytes, at) {
            Scan::Done(e, next) => Scan::Done(Expression::ConstituentExpression(e), next),
            Scan::Miss => Scan::Miss,
            Scan::Fail => Scan::Fail,
        },
    }
}

/// The forms from `at` on, as many as there are.
pub fn parse_forms(bytes: &[u8], at: usize) -> (r: Scan<Vec<Expression>>)
    requires
        at <= bytes.len(),
    ensures
        within(r, bytes@.len() as int),
        scanned_forms(r) == forms_at(bytes@, at as int),
{
    let mut out: Vec<Expression> = Vec::new();
    let mut cur: usize = at;
    loop
        invariant
            at <= cur <= bytes.len(),
            forms_at(bytes@, at as int) == prepend(forms_view(out@), forms_at(bytes@, cur as int)),
        decreases bytes.len() - cur,
    {
        match parse_expression(bytes, cur) {
            Scan::Done(form, j) => {
                if j > cur {
                    let ghost before = forms_view(out@);
                    let ghost added = form@;
                    out.push(form);
                    proof {
                        assert(forms_view(out@) =~= before.push(added));
                        match forms_at(bytes@, j as int) {
                            Parsed::Done(rest, next) => {
                                assert(before + (seq![added] + rest) =~= before.push(added) + rest);
                            },
                            _ => {},
                        }
                    }
                    cur = j;
                } else {
                    return Scan::Done(out, cur);
                }
            },
            Scan::Miss => {
                return Scan::Done(out, cur);
            },
            Scan::Fail => {
                return Scan::Fail;
            },
        }
    }
}

/// The program that the bytes are.
pub fn parse_program_bytes(bytes: &[u8]) -> (r: Result<Program, SchemeError>)
    ensures
        match r {
            Ok(program) => program_of(bytes@) == Some(program@),
            Err(e) => program_of(bytes@) is None && e@ == ErrorView::ParseError,
        },
{
    match opening(bytes, 0) {
        Some(q) => {
            let k = skip_whitespace(bytes, q);
            if keyword(bytes, k, "L3") {
                match parse_forms(bytes, k + "L3".as_bytes().len()) {
                    Scan::Done(exps, j) => match closing(bytes, j) {
                        Some(end) => {
                            if exps.len() >= 1 && skip_whitespace(bytes, end) == bytes.len() {
                                Ok(Program { exps })
                            } else {
                                Err(SchemeError::ParseError)
                            }
                        },
                        None => Err(SchemeError::ParseError),
                    },
                    _ => Err(SchemeError::ParseError),
                }
            } else {
                Err(SchemeError::ParseError)
            }
        },
        None => Err(SchemeError::ParseError),
    }
}

/// Parses a program: the text must be one `(L3 ...)` form, with nothing but
/// spaces around it.
pub fn parse_program(text: &str) -> (r: Result<Program, SchemeError>)
    ensures
        match r {
            Ok(program) => program_of(text.spec_bytes()) == Some(program@),
            Err(e) => program_of(text.spec_bytes()) is None && e@ == ErrorView::ParseError,
        },
{
    parse_program_bytes(text.as_bytes())
}

/// Parses an expression: the text must be one expression, with nothing but
/// spaces around it.
pub fn parse_cexp(text: &str) -> (r: Result<ConstituentExpression, SchemeError>)
    ensures
        match r {
            Ok(e) => expression_of(text.spec_bytes()) == Some(e@),
            Err(e) => expression_of(text.spec_bytes()) is None && e@ == ErrorView::ParseError,
        },
{
    let bytes = text.as_bytes();
    match parse_cexp_at(bytes, 0) {
        Scan::Done(e, j) => {
            if skip_whitespace(bytes, j) == bytes.len() {
                Ok(e)
            } else {
                Err(SchemeError::ParseError)
            }
        },
        _ => Err(SchemeError::ParseError),
    }
}

} // verus!
