//! Statements for the metadata database: a text with parameters.

use crate::float::Cost;
use crate::float::Float;
use crate::text::copy_option;
use crate::text::opt_text;
use vstd::prelude::*;

verus! {

/// A parameter of a statement.
#[derive(Debug, PartialEq, Eq)]
pub enum SqlParam {
    Text(String),
    OptionalText(Option<String>),
    Integer(i64),
    OptionalInteger(Option<i64>),
    Small(i32),
    Flag(bool),
    OptionalFlag(Option<bool>),
    Cost(Cost),
    OptionalFloat(Option<Float>),
    /// The sum of the numbers in this order, if there are any.
    FloatSum(Vec<Float>),
    /// The mean of the numbers in this order, if there are any.
    FloatMean(Vec<Float>),
    /// The quotient of a sum and a count, as a floating-point number, if the count
    /// is not zero.
    IntegerMean { sum: i64, count: i64 },
    /// An integer as a floating-point number.
    IntegerAsFloat(Option<i64>),
    /// Nanoseconds as a floating-point number of seconds.
    Seconds(Option<i64>),
}

/// What a [`SqlParam`] holds.
pub enum Param {
    Text(Seq<char>),
    OptionalText(Option<Seq<char>>),
    Integer(int),
    OptionalInteger(Option<i64>),
    Small(int),
    Flag(bool),
    OptionalFlag(Option<bool>),
    Cost(Cost),
    OptionalFloat(Option<Float>),
    FloatSum(Seq<Float>),
    FloatMean(Seq<Float>),
    IntegerMean { sum: int, count: int },
    IntegerAsFloat(Option<i64>),
    Seconds(Option<i64>),
}

impl View for SqlParam {
    type V = Param;

    open spec fn view(&self) -> Param {
        match *self {
            SqlParam::Text(text) => Param::Text(text@),
            SqlParam::OptionalText(text) => Param::OptionalText(opt_text(text)),
            SqlParam::Integer(n) => Param::Integer(n as int),
            SqlParam::OptionalInteger(n) => Param::OptionalInteger(n),
            SqlParam::Small(n) => Param::Small(n as int),
            SqlParam::Flag(b) => Param::Flag(b),
            SqlParam::OptionalFlag(b) => Param::OptionalFlag(b),
            SqlParam::Cost(cost) => Param::Cost(cost),
            SqlParam::OptionalFloat(number) => Param::OptionalFloat(number),
            SqlParam::FloatSum(numbers) => Param::FloatSum(numbers@),
            SqlParam::FloatMean(numbers) => Param::FloatMean(numbers@),
            SqlParam::IntegerMean { sum, count } => Param::IntegerMean {
                sum: sum as int,
                count: count as int,
            },
            SqlParam::IntegerAsFloat(n) => Param::IntegerAsFloat(n),
            SqlParam::Seconds(n) => Param::Seconds(n),
        }
    }
}

/// A statement: its text, its parameters in order, and what it is for, as an
/// error names it.
#[derive(Debug, PartialEq, Eq)]
pub struct Statement {
    pub purpose: String,
    pub sql: String,
    pub params: Vec<SqlParam>,
}

/// What a [`Statement`] holds.
pub struct Call {
    pub purpose: Seq<char>,
    pub sql: Seq<char>,
    pub params: Seq<Param>,
}

impl View for Statement {
    type V = Call;

    open spec fn view(&self) -> Call {
        Call {
            purpose: self.purpose@,
            sql: self.sql@,
            params: self.params@.map_values(|param: SqlParam| param@),
        }
    }
}

pub open spec fn calls_of(statements: Seq<Statement>) -> Seq<Call> {
    statements.map_values(|statement: Statement| statement@)
}

/// A statement without parameters.
pub open spec fn call(purpose: Seq<char>, sql: Seq<char>) -> Call {
    Call { purpose, sql, params: Seq::empty() }
}

impl Call {
    pub open spec fn given(self, param: Param) -> Call {
        Call { params: self.params.push(param), ..self }
    }

    pub open spec fn text(self, text: Seq<char>) -> Call {
        self.given(Param::Text(text))
    }

    pub open spec fn optional_text(self, text: Option<Seq<char>>) -> Call {
        self.given(Param::OptionalText(text))
    }

    pub open spec fn integer(self, n: int) -> Call {
        self.given(Param::Integer(n))
    }

    pub open spec fn optional_integer(self, n: Option<i64>) -> Call {
        self.given(Param::OptionalInteger(n))
    }

    pub open spec fn small(self, n: int) -> Call {
        self.given(Param::Small(n))
    }

    pub open spec fn flag(self, b: bool) -> Call {
        self.given(Param::Flag(b))
    }

    pub open spec fn optional_flag(self, b: Option<bool>) -> Call {
        self.given(Param::OptionalFlag(b))
    }

    pub open spec fn cost(self, cost: Cost) -> Call {
        self.given(Param::Cost(cost))
    }

    pub open spec fn optional_float(self, number: Option<Float>) -> Call {
        self.given(Param::OptionalFloat(number))
    }

    pub open spec fn float_sum(self, numbers: Seq<Float>) -> Call {
        self.given(Param::FloatSum(numbers))
    }

    pub open spec fn float_mean(self, numbers: Seq<Float>) -> Call {
        self.given(Param::FloatMean(numbers))
    }

    pub open spec fn integer_mean(self, sum: int, count: int) -> Call {
        self.given(Param::IntegerMean { sum, count })
    }

    pub open spec fn integer_as_float(self, n: Option<i64>) -> Call {
        self.given(Param::IntegerAsFloat(n))
    }

    pub open spec fn seconds(self, nanos: Option<i64>) -> Call {
        self.given(Param::Seconds(nanos))
    }
}

impl Statement {
    /// A statement without parameters.
    pub fn new(purpose: &str, sql: &str) -> (r: Self)
        ensures
            r@ == call(purpose@, sql@),
    {
        let statement = Statement {
            purpose: purpose.to_owned(),
            sql: sql.to_owned(),
            params: Vec::new(),
        };
        assert(statement@.params =~= Seq::empty());
        statement
    }

    /// The statement with one more parameter.
    pub fn given(self, param: SqlParam) -> (r: Self)
        ensures
            r@ == self@.given(param@),
    {
        let ghost before = self@;
        let mut statement = self;
        statement.params.push(param);
        assert(statement@.params =~= before.params.push(param@));
        statement
    }

    pub fn text(self, text: &str) -> (r: Self)
        ensures
            r@ == self@.text(text@),
    {
        self.given(SqlParam::Text(text.to_owned()))
    }

    pub fn optional_text(self, text: &Option<String>) -> (r: Self)
        ensures
            r@ == self@.optional_text(opt_text(*text)),
    {
        self.given(SqlParam::OptionalText(copy_option(text)))
    }

    pub fn integer(self, n: i64) -> (r: Self)
        ensures
            r@ == self@.integer(n as int),
    {
        self.given(SqlParam::Integer(n))
    }

    pub fn optional_integer(self, n: Option<i64>) -> (r: Self)
        ensures
            r@ == self@.optional_integer(n),
    {
        self.given(SqlParam::OptionalInteger(n))
    }

    pub fn small(self, n: i32) -> (r: Self)
        ensures
            r@ == self@.small(n as int),
    {
        self.given(SqlParam::Small(n))
    }

    pub fn flag(self, b: bool) -> (r: Self)
        ensures
            r@ == self@.flag(b),
    {
        self.given(SqlParam::Flag(b))
    }

    pub fn optional_flag(self, b: Option<bool>) -> (r: Self)
        ensures
            r@ == self@.optional_flag(b),
    {
        self.given(SqlParam::OptionalFlag(b))
    }

    pub fn cost(self, cost: Cost) -> (r: Self)
        ensures
            r@ == self@.cost(cost),
    {
        self.given(SqlParam::Cost(cost))
    }

    pub fn optional_float(self, number: Option<Float>) -> (r: Self)
        ensures
            r@ == self@.optional_float(number),
    {
        self.given(SqlParam::OptionalFloat(number))
    }

    pub fn float_sum(self, numbers: Vec<Float>) -> (r: Self)
        ensures
            r@ == self@.float_sum(numbers@),
    {
        self.given(SqlParam::FloatSum(numbers))
    }

    pub fn float_mean(self, numbers: Vec<Float>) -> (r: Self)
        ensures
            r@ == self@.float_mean(numbers@),
    {
        self.given(SqlParam::FloatMean(numbers))
    }

    pub fn integer_mean(self, sum: i64, count: i64) -> (r: Self)
        ensures
            r@ == self@.integer_mean(sum as int, count as int),
    {
        self.given(SqlParam::IntegerMean { sum, count })
    }

    pub fn integer_as_float(self, n: Option<i64>) -> (r: Self)
        ensures
            r@ == self@.integer_as_float(n),
    {
        self.given(SqlParam::IntegerAsFloat(n))
    }

    pub fn seconds(self, nanos: Option<i64>) -> (r: Self)
        ensures
            r@ == self@.seconds(nanos),
    {
        self.given(SqlParam::Seconds(nanos))
    }
}

/// No statements yet.
pub fn no_statements() -> (r: Vec<Statement>)
    ensures
        calls_of(r@) == Seq::<Call>::empty(),
{
    let statements: Vec<Statement> = Vec::new();
    assert(calls_of(statements@) =~= Seq::<Call>::empty());
    statements
}

/// Puts a statement behind the others.
pub fn push_statement(statements: &mut Vec<Statement>, statement: Statement)
    ensures
        calls_of(final(statements)@) == calls_of(old(statements)@).push(statement@),
{
    let ghost before = statements@;
    statements.push(statement);
    assert(calls_of(statements@) =~= calls_of(before).push(statement@));
}

} // verus!
