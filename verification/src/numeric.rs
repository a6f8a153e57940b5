//! Numbers are IEEE 754 binary64 values, held as their 64 bits.
//!
//! Comparison and negation are defined here on the bits. Rounding arithmetic
//! and the reading of a numeral are the host's: the evaluator looks their
//! results up in an [`Oracle`], and stops with the [`Query`] it needs when the
//! oracle has no answer yet.
use vstd::prelude::*;

verus! {

/// The bit that holds the sign.
pub const SIGN_BIT: u64 = 0x8000_0000_0000_0000;

/// The bits of positive infinity; every larger magnitude is a NaN.
pub const INFINITY_BITS: u64 = 0x7FF0_0000_0000_0000;

/// The bits of `0.0`.
pub const ZERO_BITS: u64 = 0;

/// The bits of `1.0`.
pub const ONE_BITS: u64 = 0x3FF0_0000_0000_0000;

/// The bits without the sign.
pub open spec fn magnitude(bits: u64) -> int {
    if bits >= SIGN_BIT {
        bits - SIGN_BIT
    } else {
        bits as int
    }
}

/// Whether the bits are those of a NaN.
pub open spec fn is_nan(bits: u64) -> bool {
    magnitude(bits) > INFINITY_BITS
}

/// An integer that orders the numbers as their values do: for bits that are
/// no NaN, `ordinal(a) < ordinal(b)` exactly when `a` is the smaller number.
/// Both zeros have ordinal 0.
pub open spec fn ordinal(bits: u64) -> int {
    if bits >= SIGN_BIT {
        -magnitude(bits)
    } else {
        magnitude(bits)
    }
}

/// `a < b` on numbers: false as soon as one of them is a NaN.
pub open spec fn less(a: u64, b: u64) -> bool {
    !is_nan(a) && !is_nan(b) && ordinal(a) < ordinal(b)
}

/// `a == b` on numbers: a NaN equals nothing, the two zeros are equal.
pub open spec fn same(a: u64, b: u64) -> bool {
    !is_nan(a) && !is_nan(b) && ordinal(a) == ordinal(b)
}

/// `a <= b` on numbers.
pub open spec fn less_or_same(a: u64, b: u64) -> bool {
    !is_nan(a) && !is_nan(b) && ordinal(a) <= ordinal(b)
}

/// The number with the opposite sign: the sign bit flipped, NaN included.
pub open spec fn negated(bits: u64) -> u64 {
    if bits >= SIGN_BIT {
        (bits - SIGN_BIT) as u64
    } else {
        (bits + SIGN_BIT) as u64
    }
}

/// The five relations between two numbers.
#[derive(Debug, Clone, Copy, PartialEq, Eq, Structural)]
pub enum Relation {
    Equal,
    Less,
    LessOrEqual,
    Greater,
    GreaterOrEqual,
}

/// Whether `a` stands in `relation` to `b`.
pub open spec fn related(relation: Relation, a: u64, b: u64) -> bool {
    match relation {
        Relation::Equal => same(a, b),
        Relation::Less => less(a, b),
        Relation::LessOrEqual => less_or_same(a, b),
        Relation::Greater => less(b, a),
        Relation::GreaterOrEqual => less_or_same(b, a),
    }
}

/// Whether the bits are those of a NaN.
pub fn number_is_nan(bits: u64) -> (r: bool)
    ensures
        r == is_nan(bits),
{
    if bits >= SIGN_BIT {
        bits - SIGN_BIT > INFINITY_BITS
    } else {
        bits > INFINITY_BITS
    }
}

/// The ordinal of a number.
pub fn number_ordinal(bits: u64) -> (r: i128)
    ensures
        r == ordinal(bits),
{
    if bits >= SIGN_BIT {
        let m: i128 = (bits - SIGN_BIT) as i128;
        -m
    } else {
        bits as i128
    }
}

/// Decides a relation between two numbers.
pub fn number_related(relation: Relation, a: u64, b: u64) -> (r: bool)
    ensures
        r == related(relation, a, b),
{
    if number_is_nan(a) || number_is_nan(b) {
        false
    } else {
        let x: i128 = number_ordinal(a);
        let y: i128 = number_ordinal(b);
        match relation {
            Relation::Equal => x == y,
            Relation::Less => x < y,
            Relation::LessOrEqual => x <= y,
            Relation::Greater => y < x,
            Relation::GreaterOrEqual => y <= x,
        }
    }
}

/// The number with the opposite sign.
pub fn number_negated(bits: u64) -> (r: u64)
    ensures
        r == negated(bits),
{
    if bits >= SIGN_BIT {
        bits - SIGN_BIT
    } else {
        bits + SIGN_BIT
    }
}

/// The four rounding operations that the host performs.
#[derive(Debug, Clone, Copy, PartialEq, Eq, Structural)]
pub enum ArithOp {
    Add,
    Sub,
    Mul,
    Div,
}

/// A question for the host.
#[derive(Debug, Clone, PartialEq)]
pub enum Query {
    /// The bits of the number that a numeral, as written, denotes.
    Numeral(String),
    /// The bits of the rounded result of the operation on two numbers.
    Arith(ArithOp, u64, u64),
}

/// The model of a query.
pub enum QueryView {
    Numeral(Seq<char>),
    Arith(ArithOp, u64, u64),
}

impl View for Query {
    type V = QueryView;

    open spec fn view(&self) -> QueryView {
        match self {
            Query::Numeral(text) => QueryView::Numeral(text@),
            Query::Arith(op, a, b) => QueryView::Arith(*op, *a, *b),
        }
    }
}

impl Query {
    /// Whether two queries ask the same.
    pub fn same_as(&self, other: &Query) -> (r: bool)
        ensures
            r == (self@ == other@),
    {
        match self {
            Query::Numeral(a) => match other {
                Query::Numeral(b) => *a == *b,
                Query::Arith(_, _, _) => false,
            },
            Query::Arith(op, a, b) => match other {
                Query::Numeral(_) => false,
                Query::Arith(op2, a2, b2) => *op == *op2 && *a == *a2 && *b == *b2,
            },
        }
    }

    /// A copy of this query.
    pub fn duplicate(&self) -> (r: Query)
        ensures
            r@ == self@,
    {
        match self {
            Query::Numeral(text) => Query::Numeral(text.clone()),
            Query::Arith(op, a, b) => Query::Arith(*op, *a, *b),
        }
    }
}

/// One answer of the host: the bits of the number that `query` asks for.
#[derive(Debug, Clone, PartialEq)]
pub struct Fact {
    pub query: Query,
    pub answer: u64,
}

/// What the host has answered so far. Where a query occurs twice, the first
/// answer counts.
#[derive(Debug, Clone, PartialEq)]
pub struct Oracle {
    pub facts: Vec<Fact>,
}

/// The answers of a list of facts as a map: the first fact for a query wins.
pub open spec fn answers(facts: Seq<Fact>) -> Map<QueryView, u64>
    decreases facts.len(),
{
    if facts.len() == 0 {
        Map::empty()
    } else {
        answers(facts.drop_first()).insert(facts[0].query@, facts[0].answer)
    }
}

impl View for Oracle {
    type V = Map<QueryView, u64>;

    open spec fn view(&self) -> Map<QueryView, u64> {
        answers(self.facts@)
    }
}

/// The answer to a query, where there is one.
pub open spec fn answer(host: Map<QueryView, u64>, query: QueryView) -> Option<u64> {
    if host.contains_key(query) {
        Some(host[query])
    } else {
        None
    }
}

/// A query that no fact among the first `n` answers is answered by the rest.
proof fn lemma_answers_skip(facts: Seq<Fact>, n: int, query: QueryView)
    requires
        0 <= n <= facts.len(),
        forall|k: int| 0 <= k < n ==> facts[k].query@ != query,
    ensures
        answer(answers(facts), query) == answer(answers(facts.skip(n)), query),
    decreases n,
{
    if n > 0 {
        let rest = facts.drop_first();
        assert forall|k: int| 0 <= k < n - 1 implies rest[k].query@ != query by {
            assert(rest[k] == facts[k + 1]);
        }
        lemma_answers_skip(rest, n - 1, query);
        assert(rest.skip(n - 1) =~= facts.skip(n));
    } else {
        assert(facts.skip(0) =~= facts);
    }
}

impl Oracle {
    /// An oracle without answers.
    pub fn new() -> (r: Oracle)
        ensures
            r@ == Map::<QueryView, u64>::empty(),
    {
        Oracle { facts: Vec::new() }
    }

    /// The answer to `query`, where the oracle has one.
    pub fn lookup(&self, query: &Query) -> (r: Option<u64>)
        ensures
            r == answer(self@, query@),
    {
        let mut i: usize = 0;
        while i < self.facts.len()
            invariant
                i <= self.facts.len(),
                forall|k: int| 0 <= k < i ==> self.facts[k].query@ != query@,
            decreases self.facts.len() - i,
        {
            if self.facts[i].query.same_as(query) {
                proof {
                    lemma_answers_skip(self.facts@, i as int, query@);
                }
                return Some(self.facts[i].answer);
            }
            i = i + 1;
        }
        proof {
            lemma_answers_skip(self.facts@, i as int, query@);
        }
        None
    }

    /// Records the host's answer to a query. An answer that the oracle
    /// already has is kept.
    pub fn record(&mut self, query: Query, answer: u64)
        ensures
            final(self)@ == if old(self)@.contains_key(query@) {
                old(self)@
            } else {
                old(self)@.insert(query@, answer)
            },
    {
        let known = self.lookup(&query);
        if known.is_none() {
            proof {
                lemma_answers_push(self.facts@, Fact { query, answer });
            }
            self.facts.push(Fact { query, answer });
        }
    }
}

/// A fact added at the end answers its query only where none did before.
proof fn lemma_answers_push(facts: Seq<Fact>, fact: Fact)
    ensures
        answers(facts.push(fact)) == if answers(facts).contains_key(fact.query@) {
            answers(facts)
        } else {
            answers(facts).insert(fact.query@, fact.answer)
        },
    decreases facts.len(),
{
    if facts.len() == 0 {
        assert(facts.push(fact).drop_first() =~= facts);
        assert(answers(facts.push(fact)) =~= answers(facts).insert(fact.query@, fact.answer));
    } else {
        let rest = facts.drop_first();
        lemma_answers_push(rest, fact);
        assert(facts.push(fact).drop_first() =~= rest.push(fact));
        let target = if answers(facts).contains_key(fact.query@) {
            answers(facts)
        } else {
            answers(facts).insert(fact.query@, fact.answer)
        };
        assert(answers(facts.push(fact)) =~= target);
    }
}

} // verus!
