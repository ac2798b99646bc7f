//! Values at run time, and what goes wrong at run time.

use vstd::prelude::*;
use vstd::string::StringExecFns;
use crate::environment::{env_get, Environment};
use crate::scanner::{all_digits, digits_value};
use crate::text::is_digit;
use crate::token::{Token, TokenType, TokenTypeView};

verus! {

/// The four arithmetic operators.
#[derive(Debug, Clone, Copy, PartialEq, Eq, Structural)]
pub enum ArithOp {
    Add,
    Sub,
    Mul,
    Div,
}

/// A decimal number, held as the exact expression that denotes it: nothing
/// in the language depends on what a decimal number amounts to, so the
/// arithmetic is written down and left to whoever prints the number.
#[derive(Debug, PartialEq)]
pub enum Decimal {
    /// a literal of the source text: digits around one point
    Literal(String),
    /// an integer, widened
    Int(i64),
    /// the negation of a decimal
    Neg(Box<Decimal>),
    /// the sum, difference, product or quotient of two decimals
    Binary(ArithOp, Box<Decimal>, Box<Decimal>),
}

/// A decimal with its text as a sequence of characters.
pub enum DecimalView {
    Literal(Seq<char>),
    Int(i64),
    Neg(Box<DecimalView>),
    Binary(ArithOp, Box<DecimalView>, Box<DecimalView>),
}

impl Decimal {
    /// The decimal with its text as a sequence of characters.
    pub open spec fn model(&self) -> DecimalView
        decreases self,
    {
        match self {
            Decimal::Literal(s) => DecimalView::Literal(s@),
            Decimal::Int(i) => DecimalView::Int(*i),
            Decimal::Neg(d) => DecimalView::Neg(Box::new((**d).model())),
            Decimal::Binary(op, l, r) => DecimalView::Binary(
                *op,
                Box::new((**l).model()),
                Box::new((**r).model()),
            ),
        }
    }
}

impl View for Decimal {
    type V = DecimalView;

    open spec fn view(&self) -> DecimalView {
        self.model()
    }
}

impl Decimal {
    /// The integer `i`, widened.
    pub fn from_int(i: i64) -> (d: Decimal)
        ensures
            d@ == DecimalView::Int(i),
    {
        Decimal::Int(i)
    }

    /// The decimal `l op r`.
    pub fn binary(op: ArithOp, l: Decimal, r: Decimal) -> (d: Decimal)
        ensures
            d@ == DecimalView::Binary(op, Box::new(l@), Box::new(r@)),
    {
        Decimal::Binary(op, Box::new(l), Box::new(r))
    }

    /// The decimal `-d`.
    pub fn negated(d: Decimal) -> (r: Decimal)
        ensures
            r@ == DecimalView::Neg(Box::new(d@)),
    {
        Decimal::Neg(Box::new(d))
    }
}

impl Clone for Decimal {
    fn clone(&self) -> (r: Self)
        ensures
            r@ == self@,
        decreases self,
    {
        match self {
            Decimal::Literal(s) => Decimal::Literal(s.clone()),
            Decimal::Int(i) => Decimal::Int(*i),
            Decimal::Neg(d) => Decimal::Neg(Box::new((&**d).clone())),
            Decimal::Binary(op, l, r) => Decimal::Binary(
                *op,
                Box::new((&**l).clone()),
                Box::new((&**r).clone()),
            ),
        }
    }
}

/// What goes wrong at run time.
#[derive(Debug, PartialEq)]
pub enum RuntimeError {
    /// a name is read that no scope holds
    UndefinedVariable(String),
    /// a name is declared twice in one scope
    DuplicateDeclaration(String),
    /// an operator meets operands that it cannot take: the operator, then
    /// the types of the operands
    TypeMismatch(String, String),
    /// a name is assigned that no scope holds
    AssignToUndeclaredVariable(String),
    /// an integer is divided by zero
    DivisionByZero,
    /// a loop has made as many passes as the interpreter allows
    LoopLimit,
}

/// A run-time error with its texts as sequences of characters.
pub enum RuntimeErrorView {
    UndefinedVariable(Seq<char>),
    DuplicateDeclaration(Seq<char>),
    TypeMismatch(Seq<char>, Seq<char>),
    AssignToUndeclaredVariable(Seq<char>),
    DivisionByZero,
    LoopLimit,
}

impl View for RuntimeError {
    type V = RuntimeErrorView;

    open spec fn view(&self) -> RuntimeErrorView {
        match self {
            RuntimeError::UndefinedVariable(n) => RuntimeErrorView::UndefinedVariable(n@),
            RuntimeError::DuplicateDeclaration(n) => RuntimeErrorView::DuplicateDeclaration(n@),
            RuntimeError::TypeMismatch(op, what) => RuntimeErrorView::TypeMismatch(op@, what@),
            RuntimeError::AssignToUndeclaredVariable(n) => {
                RuntimeErrorView::AssignToUndeclaredVariable(n@)
            },
            RuntimeError::DivisionByZero => RuntimeErrorView::DivisionByZero,
            RuntimeError::LoopLimit => RuntimeErrorView::LoopLimit,
        }
    }
}

/// A value that an expression has.
#[derive(Debug, PartialEq)]
pub enum RValue {
    Boolean(bool),
    String(String),
    Int(i64),
    Decimal(Decimal),
    Null,
}

/// A value with its texts as sequences of characters.
pub enum RValueView {
    Boolean(bool),
    String(Seq<char>),
    Int(i64),
    Decimal(DecimalView),
    Null,
}

impl View for RValue {
    type V = RValueView;

    open spec fn view(&self) -> RValueView {
        match self {
            RValue::Boolean(b) => RValueView::Boolean(*b),
            RValue::String(s) => RValueView::String(s@),
            RValue::Int(i) => RValueView::Int(*i),
            RValue::Decimal(d) => RValueView::Decimal(d@),
            RValue::Null => RValueView::Null,
        }
    }
}

impl Clone for RValue {
    fn clone(&self) -> (r: Self)
        ensures
            r@ == self@,
    {
        match self {
            RValue::Boolean(b) => RValue::Boolean(*b),
            RValue::String(s) => RValue::String(s.clone()),
            RValue::Int(i) => RValue::Int(*i),
            RValue::Decimal(d) => RValue::Decimal(d.clone()),
            RValue::Null => RValue::Null,
        }
    }
}

/// The view of a value that may be missing.
pub open spec fn opt_view(v: Option<RValue>) -> Option<RValueView> {
    match v {
        Some(v) => Some(v@),
        None => None,
    }
}

/// The name of the type of `v`.
pub open spec fn kind_name(v: RValueView) -> Seq<char> {
    match v {
        RValueView::Boolean(_) => "boolean"@,
        RValueView::String(_) => "string"@,
        RValueView::Int(_) => "int"@,
        RValueView::Decimal(_) => "decimal"@,
        RValueView::Null => "nil"@,
    }
}

/// The sign of an arithmetic operator.
pub open spec fn sign(op: ArithOp) -> Seq<char> {
    match op {
        ArithOp::Add => "+"@,
        ArithOp::Sub => "-"@,
        ArithOp::Mul => "*"@,
        ArithOp::Div => "/"@,
    }
}

/// The error of the operator `op` on operands of the types of `l` and `r`.
pub open spec fn mismatch(op: Seq<char>, l: RValueView, r: RValueView) -> RuntimeErrorView {
    RuntimeErrorView::TypeMismatch(op, kind_name(l) + ", "@ + kind_name(r))
}

/// The error of the operator `op` on one operand of the type of `v`.
pub open spec fn mismatch_one(op: Seq<char>, v: RValueView) -> RuntimeErrorView {
    RuntimeErrorView::TypeMismatch(op, kind_name(v))
}

/// Whether `v` counts as true: a boolean is itself, an integer is true
/// unless it is zero, nil is false; strings and decimals are neither.
pub open spec fn truthy(v: RValueView) -> Result<bool, RuntimeErrorView> {
    match v {
        RValueView::Boolean(b) => Ok(b),
        RValueView::Int(i) => Ok(i != 0),
        RValueView::Null => Ok(false),
        _ => Err(mismatch_one("truthiness"@, v)),
    }
}

/// Integer arithmetic: sums, differences and products wrap around;
/// quotients are cut off towards zero, and nothing is divided by zero.
pub open spec fn int_arith(op: ArithOp, x: i64, y: i64) -> Result<RValueView, RuntimeErrorView> {
    match op {
        ArithOp::Add => Ok(RValueView::Int(x.wrapping_add(y))),
        ArithOp::Sub => Ok(RValueView::Int(x.wrapping_sub(y))),
        ArithOp::Mul => Ok(RValueView::Int(x.wrapping_mul(y))),
        ArithOp::Div => if y == 0 {
            Err(RuntimeErrorView::DivisionByZero)
        } else {
            match x.checked_div(y) {
                Some(q) => Ok(RValueView::Int(q)),
                None => Ok(RValueView::Int(x)),
            }
        },
    }
}

/// The decimal `l op r`.
pub open spec fn decimal_arith(op: ArithOp, l: DecimalView, r: DecimalView) -> RValueView {
    RValueView::Decimal(DecimalView::Binary(op, Box::new(l), Box::new(r)))
}

/// Arithmetic: two integers give an integer; an integer and a decimal, or
/// two decimals, give a decimal, the integer widened; `+` joins two strings;
/// anything else is a type mismatch.
pub open spec fn arith(op: ArithOp, l: RValueView, r: RValueView) -> Result<
    RValueView,
    RuntimeErrorView,
> {
    match (l, r) {
        (RValueView::Int(x), RValueView::Int(y)) => int_arith(op, x, y),
        (RValueView::Int(x), RValueView::Decimal(d)) => Ok(
            decimal_arith(op, DecimalView::Int(x), d),
        ),
        (RValueView::Decimal(d), RValueView::Int(y)) => Ok(
            decimal_arith(op, d, DecimalView::Int(y)),
        ),
        (RValueView::Decimal(a), RValueView::Decimal(b)) => Ok(decimal_arith(op, a, b)),
        (RValueView::String(a), RValueView::String(b)) => if op == ArithOp::Add {
            Ok(RValueView::String(a + b))
        } else {
            Err(mismatch(sign(op), l, r))
        },
        _ => Err(mismatch(sign(op), l, r)),
    }
}

/// `!v`: the other boolean; only a boolean has one.
pub open spec fn negate_bool(v: RValueView) -> Result<RValueView, RuntimeErrorView> {
    match v {
        RValueView::Boolean(b) => Ok(RValueView::Boolean(!b)),
        _ => Err(mismatch_one("!"@, v)),
    }
}

/// `-v`: the negative of an integer, wrapping around, or of a decimal.
pub open spec fn negate_number(v: RValueView) -> Result<RValueView, RuntimeErrorView> {
    match v {
        RValueView::Int(i) => Ok(RValueView::Int(0i64.wrapping_sub(i))),
        RValueView::Decimal(d) => Ok(RValueView::Decimal(DecimalView::Neg(Box::new(d)))),
        _ => Err(mismatch_one("-"@, v)),
    }
}

/// The character of the digit `d`.
pub open spec fn digit_char(d: int) -> char {
    ((48 + d) as u8) as char
}

/// The digits of `n` in base ten.
pub open spec fn nat_text(n: nat) -> Seq<char>
    decreases n,
{
    if n < 10 {
        seq![digit_char(n as int)]
    } else {
        nat_text(n / 10).push(digit_char((n % 10) as int))
    }
}

/// The integer `i` in base ten, with `-` before a negative one.
pub open spec fn int_text(i: int) -> Seq<char> {
    if i < 0 {
        seq!['-'] + nat_text((-i) as nat)
    } else {
        nat_text(i as nat)
    }
}

/// The digits that write a number read as that number: what is printed of
/// an integer that is not negative scans as the integer.
pub proof fn lemma_digits_round_trip(n: nat)
    ensures
        nat_text(n).len() >= 1,
        all_digits(nat_text(n)),
        digits_value(nat_text(n)) == n,
    decreases n,
{
    let text = nat_text(n);
    if n < 10 {
        assert(text.len() == 1);
        assert(text[0] == digit_char(n as int));
        assert(is_digit(text[0]));
        assert(text.drop_last() =~= Seq::<char>::empty());
        assert(digits_value(text.drop_last()) == 0);
        assert(text.last() == digit_char(n as int));
    } else {
        lemma_digits_round_trip(n / 10);
        let head = nat_text(n / 10);
        let d = digit_char((n % 10) as int);
        assert(text == head.push(d));
        assert(is_digit(d));
        assert forall|k: int| 0 <= k < text.len() implies is_digit(#[trigger] text[k]) by {
            if k < head.len() {
                assert(text[k] == head[k]);
            }
        }
        assert(text.drop_last() =~= head);
        assert(text.last() == d);
    }
}

/// How a value is printed: a string as it is, an integer in base ten, a
/// boolean as `true` or `false`, nil as `nil`. A decimal has no text here:
/// its text depends on what it amounts to.
pub open spec fn rendered(v: RValueView) -> Option<Seq<char>> {
    match v {
        RValueView::Boolean(b) => Some(if b { "true"@ } else { "false"@ }),
        RValueView::String(s) => Some(s),
        RValueView::Int(i) => Some(int_text(i as int)),
        RValueView::Decimal(_) => None,
        RValueView::Null => Some("nil"@),
    }
}

/// Appends the digits of `n` to `s`.
fn push_digits(s: &mut String, n: u64)
    ensures
        final(s)@ == old(s)@ + nat_text(n as nat),
    decreases n,
{
    if n >= 10 {
        push_digits(s, n / 10);
    }
    let d: u8 = (n % 10) as u8;
    s.push((48u8 + d) as char);
    proof {
        if n >= 10 {
            assert(old(s)@ + nat_text(n as nat) =~= (old(s)@ + nat_text((n / 10) as nat)).push(
                digit_char((n % 10) as int),
            ));
        } else {
            assert(old(s)@ + nat_text(n as nat) =~= old(s)@.push(digit_char(n as int)));
        }
    }
}

/// The integer `i` in base ten.
pub fn render_int(i: i64) -> (s: String)
    ensures
        s@ == int_text(i as int),
{
    let mut s = String::new();
    if i < 0 {
        s.push('-');
        let magnitude: u64 = (-(i as i128)) as u64;
        push_digits(&mut s, magnitude);
        assert(s@ =~= int_text(i as int));
    } else {
        push_digits(&mut s, i as u64);
        assert(s@ =~= int_text(i as int));
    }
    s
}

impl ArithOp {
    /// The sign of the operator.
    pub fn sign(&self) -> (r: String)
        ensures
            r@ == sign(*self),
    {
        match self {
            ArithOp::Add => "+".to_owned(),
            ArithOp::Sub => "-".to_owned(),
            ArithOp::Mul => "*".to_owned(),
            ArithOp::Div => "/".to_owned(),
        }
    }
}

impl RValue {
    /// The name of the value's type.
    pub fn kind_name(&self) -> (r: String)
        ensures
            r@ == kind_name(self@),
    {
        match self {
            RValue::Boolean(_) => "boolean".to_owned(),
            RValue::String(_) => "string".to_owned(),
            RValue::Int(_) => "int".to_owned(),
            RValue::Decimal(_) => "decimal".to_owned(),
            RValue::Null => "nil".to_owned(),
        }
    }

    /// The error of the operator `op` on `self` and `rhs`.
    fn mismatch(&self, op: String, rhs: &RValue) -> (r: RuntimeError)
        ensures
            r@ == mismatch(op@, self@, rhs@),
    {
        let what = self.kind_name().concat(", ").concat(rhs.kind_name().as_str());
        RuntimeError::TypeMismatch(op, what)
    }

    /// The error of the operator `op` on `self`.
    fn mismatch_one(&self, op: &str) -> (r: RuntimeError)
        ensures
            r@ == mismatch_one(op@, self@),
    {
        RuntimeError::TypeMismatch(op.to_owned(), self.kind_name())
    }

    /// Whether the value counts as true.
    pub fn is_truthy(&self) -> (r: Result<bool, RuntimeError>)
        ensures
            match r {
                Ok(b) => truthy(self@) == Ok::<bool, RuntimeErrorView>(b),
                Err(e) => truthy(self@) == Err::<bool, RuntimeErrorView>(e@),
            },
    {
        match self {
            RValue::Boolean(b) => Ok(*b),
            RValue::Int(i) => Ok(*i != 0),
            RValue::Null => Ok(false),
            _ => Err(self.mismatch_one("truthiness")),
        }
    }

    /// `self op rhs`.
    pub fn arithmetic(&self, op: ArithOp, rhs: &RValue) -> (r: Result<RValue, RuntimeError>)
        ensures
            match r {
                Ok(v) => arith(op, self@, rhs@) == Ok::<RValueView, RuntimeErrorView>(v@),
                Err(e) => arith(op, self@, rhs@) == Err::<RValueView, RuntimeErrorView>(e@),
            },
    {
        match (self, rhs) {
            (RValue::Int(x), RValue::Int(y)) => {
                match op {
                    ArithOp::Add => Ok(RValue::Int(x.wrapping_add(*y))),
                    ArithOp::Sub => Ok(RValue::Int(x.wrapping_sub(*y))),
                    ArithOp::Mul => Ok(RValue::Int(x.wrapping_mul(*y))),
                    ArithOp::Div => {
                        if *y == 0 {
                            Err(RuntimeError::DivisionByZero)
                        } else {
                            match x.checked_div(*y) {
                                Some(q) => Ok(RValue::Int(q)),
                                None => Ok(RValue::Int(*x)),
                            }
                        }
                    },
                }
            },
            (RValue::Int(x), RValue::Decimal(d)) => Ok(
                RValue::Decimal(Decimal::binary(op, Decimal::from_int(*x), d.clone())),
            ),
            (RValue::Decimal(d), RValue::Int(y)) => Ok(
                RValue::Decimal(Decimal::binary(op, d.clone(), Decimal::from_int(*y))),
            ),
            (RValue::Decimal(a), RValue::Decimal(b)) => Ok(
                RValue::Decimal(Decimal::binary(op, a.clone(), b.clone())),
            ),
            (RValue::String(a), RValue::String(b)) => {
                match op {
                    ArithOp::Add => Ok(RValue::String(a.clone().concat(b.as_str()))),
                    _ => Err(self.mismatch(op.sign(), rhs)),
                }
            },
            _ => Err(self.mismatch(op.sign(), rhs)),
        }
    }

    /// `self + rhs`.
    pub fn add(&self, rhs: &RValue) -> (r: Result<RValue, RuntimeError>)
        ensures
            match r {
                Ok(v) => arith(ArithOp::Add, self@, rhs@) == Ok::<RValueView, RuntimeErrorView>(v@),
                Err(e) => arith(ArithOp::Add, self@, rhs@) == Err::<RValueView, RuntimeErrorView>(
                    e@,
                ),
            },
    {
        self.arithmetic(ArithOp::Add, rhs)
    }

    /// `self - rhs`.
    pub fn sub(&self, rhs: &RValue) -> (r: Result<RValue, RuntimeError>)
        ensures
            match r {
                Ok(v) => arith(ArithOp::Sub, self@, rhs@) == Ok::<RValueView, RuntimeErrorView>(v@),
                Err(e) => arith(ArithOp::Sub, self@, rhs@) == Err::<RValueView, RuntimeErrorView>(
                    e@,
                ),
            },
    {
        self.arithmetic(ArithOp::Sub, rhs)
    }

    /// `self * rhs`.
    pub fn mul(&self, rhs: &RValue) -> (r: Result<RValue, RuntimeError>)
        ensures
            match r {
                Ok(v) => arith(ArithOp::Mul, self@, rhs@) == Ok::<RValueView, RuntimeErrorView>(v@),
                Err(e) => arith(ArithOp::Mul, self@, rhs@) == Err::<RValueView, RuntimeErrorView>(
                    e@,
                ),
            },
    {
        self.arithmetic(ArithOp::Mul, rhs)
    }

    /// `self / rhs`.
    pub fn div(&self, rhs: &RValue) -> (r: Result<RValue, RuntimeError>)
        ensures
            match r {
                Ok(v) => arith(ArithOp::Div, self@, rhs@) == Ok::<RValueView, RuntimeErrorView>(v@),
                Err(e) => arith(ArithOp::Div, self@, rhs@) == Err::<RValueView, RuntimeErrorView>(
                    e@,
                ),
            },
    {
        self.arithmetic(ArithOp::Div, rhs)
    }

    /// `!self`.
    pub fn not(&self) -> (r: Result<RValue, RuntimeError>)
        ensures
            match r {
                Ok(v) => negate_bool(self@) == Ok::<RValueView, RuntimeErrorView>(v@),
                Err(e) => negate_bool(self@) == Err::<RValueView, RuntimeErrorView>(e@),
            },
    {
        match self {
            RValue::Boolean(b) => Ok(RValue::Boolean(!*b)),
            _ => Err(self.mismatch_one("!")),
        }
    }

    /// `-self`.
    pub fn neg(&self) -> (r: Result<RValue, RuntimeError>)
        ensures
            match r {
                Ok(v) => negate_number(self@) == Ok::<RValueView, RuntimeErrorView>(v@),
                Err(e) => negate_number(self@) == Err::<RValueView, RuntimeErrorView>(e@),
            },
    {
        match self {
            RValue::Int(i) => Ok(RValue::Int(0i64.wrapping_sub(*i))),
            RValue::Decimal(d) => Ok(RValue::Decimal(Decimal::negated(d.clone()))),
            _ => Err(self.mismatch_one("-")),
        }
    }

    /// The text that printing the value writes; `None` for a decimal.
    pub fn render(&self) -> (r: Option<String>)
        ensures
            match r {
                Some(s) => rendered(self@) == Some(s@),
                None => rendered(self@) is None,
            },
    {
        match self {
            RValue::Boolean(b) => Some(
                if *b {
                    "true".to_owned()
                } else {
                    "false".to_owned()
                },
            ),
            RValue::String(s) => Some(s.clone()),
            RValue::Int(i) => Some(render_int(*i)),
            RValue::Decimal(_) => None,
            RValue::Null => Some("nil".to_owned()),
        }
    }
}

/// What an expression amounts to: a value, or the name of a variable that
/// has not been read yet.
#[derive(Debug, PartialEq)]
pub enum Value {
    R(RValue),
    L(String),
}

/// A value or name with its texts as sequences of characters.
pub enum ValueView {
    R(RValueView),
    L(Seq<char>),
}

impl View for Value {
    type V = ValueView;

    open spec fn view(&self) -> ValueView {
        match self {
            Value::R(v) => ValueView::R(v@),
            Value::L(name) => ValueView::L(name@),
        }
    }
}

/// What a literal token amounts to: a name for an identifier, else its
/// value; `None` for a token that is no literal.
pub open spec fn literal_value(t: TokenTypeView) -> Option<ValueView> {
    match t {
        TokenTypeView::Identifier(name) => Some(ValueView::L(name)),
        TokenTypeView::String(s) => Some(ValueView::R(RValueView::String(s))),
        TokenTypeView::Integer(i) => Some(ValueView::R(RValueView::Int(i))),
        TokenTypeView::Decimal(text) => Some(
            ValueView::R(RValueView::Decimal(DecimalView::Literal(text))),
        ),
        TokenTypeView::True => Some(ValueView::R(RValueView::Boolean(true))),
        TokenTypeView::False => Some(ValueView::R(RValueView::Boolean(false))),
        TokenTypeView::Nil => Some(ValueView::R(RValueView::Null)),
        _ => None,
    }
}

/// The value that `v` stands for in `env`: itself, or what the variable
/// that it names holds.
pub open spec fn resolved(v: ValueView, env: Seq<Map<Seq<char>, Option<RValueView>>>) -> Result<
    RValueView,
    RuntimeErrorView,
> {
    match v {
        ValueView::R(r) => Ok(r),
        ValueView::L(name) => env_get(env, name),
    }
}

impl Value {
    /// What the literal token `val` amounts to.
    pub fn new(val: Token) -> (r: Option<Self>)
        ensures
            match r {
                Some(v) => literal_value(val@.token_type) == Some(v@),
                None => literal_value(val@.token_type) is None,
            },
    {
        match val.token_type {
            TokenType::Identifier(d) => Some(Self::L(d)),
            TokenType::String(s) => Some(Self::R(RValue::String(s))),
            TokenType::Integer(i) => Some(Self::R(RValue::Int(i))),
            TokenType::Decimal(d) => Some(Self::R(RValue::Decimal(Decimal::Literal(d)))),
            TokenType::True => Some(Self::R(RValue::Boolean(true))),
            TokenType::False => Some(Self::R(RValue::Boolean(false))),
            TokenType::Nil => Some(Self::R(RValue::Null)),
            _ => None,
        }
    }

    /// The boolean `value`.
    pub fn from_bool(value: bool) -> (r: Self)
        ensures
            r@ == ValueView::R(RValueView::Boolean(value)),
    {
        Self::R(RValue::Boolean(value))
    }

    /// The value that `self` stands for in `env`.
    pub fn as_rval(&self, env: &Environment) -> (r: Result<RValue, RuntimeError>)
        requires
            env.wf(),
        ensures
            match r {
                Ok(v) => resolved(self@, env@) == Ok::<RValueView, RuntimeErrorView>(v@),
                Err(e) => resolved(self@, env@) == Err::<RValueView, RuntimeErrorView>(e@),
            },
    {
        match self {
            Self::R(rval) => Ok(rval.clone()),
            Self::L(lval) => env.get_var(lval),
        }
    }

    /// The value that `self` stands for in `env`.
    pub fn into_rval(self, env: &Environment) -> (r: Result<RValue, RuntimeError>)
        requires
            env.wf(),
        ensures
            match r {
                Ok(v) => resolved(self@, env@) == Ok::<RValueView, RuntimeErrorView>(v@),
                Err(e) => resolved(self@, env@) == Err::<RValueView, RuntimeErrorView>(e@),
            },
    {
        match self {
            Self::R(rval) => Ok(rval),
            Self::L(lval) => env.get_var(&lval),
        }
    }
}

} // verus!
