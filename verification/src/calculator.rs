//! A calculator for numbers of any length, in reverse Polish notation.

use vstd::prelude::*;
use vstd::string::StringExecFns;
use itertools::{EitherOrBoth, Itertools};
use crate::scanner::{all_digits, digits_value, parse_integer};
use crate::text::{chars_of, whitespace};
use crate::value::{int_text, render_int};

verus! {

/// A limb that reaches `BASE` carries one into the next limb.
pub const BASE: i32 = 1_000_000_000;

/// The limbs of two numbers at one place: of both, or of the longer one.
#[derive(Debug, Clone, Copy, PartialEq, Eq, Structural)]
pub enum Paired {
    Both(i32, i32),
    Left(i32),
    Right(i32),
}

/// The limbs of `l` and `r` side by side, as far as the longer one goes.
pub open spec fn zipped(l: Seq<i32>, r: Seq<i32>) -> Seq<Paired> {
    Seq::new(
        if l.len() >= r.len() {
            l.len()
        } else {
            r.len()
        },
        |i: int|
            if i < l.len() && i < r.len() {
                Paired::Both(l[i], r[i])
            } else if i < l.len() {
                Paired::Left(l[i])
            } else {
                Paired::Right(r[i])
            },
    )
}

/// `Itertools::zip_longest` walks two iterators side by side: it yields
/// both items while both have one, then the items of the one that is left.
#[verifier::external_body]
fn zip_longest(l: Vec<i32>, r: Vec<i32>) -> (pairs: Vec<Paired>)
    ensures
        pairs@ == zipped(l@, r@),
{
    l.into_iter().zip_longest(r.into_iter()).map(
        |x|
            match x {
                EitherOrBoth::Both(a, b) => Paired::Both(a, b),
                EitherOrBoth::Left(a) => Paired::Left(a),
                EitherOrBoth::Right(b) => Paired::Right(b),
            },
    ).collect()
}

/// The sum of the limbs of `l` and `r` at place `i`.
pub open spec fn column(l: Seq<i32>, r: Seq<i32>, i: int) -> int {
    (if 0 <= i < l.len() {
        l[i] as int
    } else {
        0
    }) + (if 0 <= i < r.len() {
        r[i] as int
    } else {
        0
    })
}

/// What place `i - 1` carries into place `i`: one where its limb reached
/// `BASE`.
pub open spec fn carry_into(l: Seq<i32>, r: Seq<i32>, i: int) -> int
    decreases i,
{
    if i <= 0 {
        0
    } else if column(l, r, i - 1) + carry_into(l, r, i - 1) >= BASE {
        1
    } else {
        0
    }
}

/// The longer of two lengths.
pub open spec fn longer(l: Seq<i32>, r: Seq<i32>) -> int {
    if l.len() >= r.len() {
        l.len() as int
    } else {
        r.len() as int
    }
}

/// Whether the limbs of `l` and `r` can be added place by place, with the
/// carry, without leaving the range of a 32-bit integer.
pub open spec fn addable(l: Seq<i32>, r: Seq<i32>) -> bool {
    forall|i: int|
        0 <= i < longer(l, r) ==> i32::MIN <= #[trigger] column(l, r, i) <= i32::MAX && i32::MIN
            <= column(l, r, i) + carry_into(l, r, i) <= i32::MAX
}

/// The limbs of the sum: at each place the two limbs and the carry, and a
/// last limb of one where the last place carries.
pub open spec fn limb_sums(l: Seq<i32>, r: Seq<i32>) -> Seq<i32> {
    let places = Seq::new(
        longer(l, r) as nat,
        |i: int| (column(l, r, i) + carry_into(l, r, i)) as i32,
    );
    if carry_into(l, r, longer(l, r)) == 1 {
        places.push(1i32)
    } else {
        places
    }
}

/// The number that a piece of at most nine characters writes: digits, with
/// `+` or `-` before them or without; `None` where it writes none that a
/// 32-bit integer holds.
pub open spec fn chunk_value(c: Seq<char>) -> Option<i32> {
    let signed = c.len() > 0 && (c[0] == '+' || c[0] == '-');
    let digits = if signed {
        c.subrange(1, c.len() as int)
    } else {
        c
    };
    let value = if signed && c[0] == '-' {
        -(digits_value(digits) as int)
    } else {
        digits_value(digits) as int
    };
    if digits.len() > 0 && all_digits(digits) && i32::MIN <= value <= i32::MAX {
        Some(value as i32)
    } else {
        None
    }
}

/// The numbers that the pieces of nine characters of `s` from index `i` on
/// write, in order; `None` where a piece writes none.
pub open spec fn chunk_list(s: Seq<char>, i: int) -> Option<Seq<i32>>
    decreases (if i < s.len() { s.len() - i } else { 0 }),
{
    if i < 0 || i >= s.len() {
        Some(Seq::empty())
    } else {
        let to = if i + 9 <= s.len() {
            i + 9
        } else {
            s.len() as int
        };
        match chunk_value(s.subrange(i, to)) {
            None => None,
            Some(v) => match chunk_list(s, to) {
                None => None,
                Some(rest) => Some(seq![v] + rest),
            },
        }
    }
}

/// The limbs that the text `s` writes: its pieces of nine characters, the
/// last piece first.
pub open spec fn limbs_of(s: Seq<char>) -> Option<Seq<i32>> {
    match chunk_list(s, 0) {
        Some(chunks) => Some(chunks.reverse()),
        None => None,
    }
}

/// The limbs in base ten, one after the other, the last limb first.
pub open spec fn limbs_text(limbs: Seq<i32>) -> Seq<char>
    decreases limbs.len(),
{
    if limbs.len() == 0 {
        Seq::empty()
    } else {
        int_text(limbs.last() as int) + limbs_text(limbs.drop_last())
    }
}

/// A number of any length: limbs of nine digits, the lowest first.
#[derive(Debug, PartialEq)]
pub struct Number {
    value: Vec<i32>,
}

impl View for Number {
    type V = Seq<i32>;

    closed spec fn view(&self) -> Seq<i32> {
        self.value@
    }
}

/// The number that `chars[from..to]` writes.
fn chunk(chars: &Vec<char>, from: usize, to: usize) -> (r: Option<i32>)
    requires
        from <= to <= chars.len(),
    ensures
        r == chunk_value(chars@.subrange(from as int, to as int)),
{
    let ghost c = chars@.subrange(from as int, to as int);
    let signed = from < to && (chars[from] == '+' || chars[from] == '-');
    let start = if signed {
        from + 1
    } else {
        from
    };
    proof {
        if signed {
            assert(c.subrange(1, c.len() as int) =~= chars@.subrange(start as int, to as int));
        }
    }
    if start == to {
        return None;
    }
    match parse_integer(chars, start, to) {
        None => None,
        Some(v) => {
            if signed && chars[from] == '-' {
                if v > 2147483648i64 {
                    None
                } else {
                    Some((-v) as i32)
                }
            } else if v > 2147483647i64 {
                None
            } else {
                Some(v as i32)
            }
        },
    }
}

impl Number {
    /// The number of the limbs `value`, the lowest first.
    pub fn from_limbs(value: Vec<i32>) -> (r: Number)
        ensures
            r@ == value@,
    {
        Number { value }
    }

    /// The limbs, the lowest first.
    pub fn limbs(&self) -> (r: &Vec<i32>)
        ensures
            r@ == self@,
    {
        &self.value
    }

    /// The number that `chars[from..to]` writes, piece by piece.
    fn from_chars(chars: &Vec<char>, from: usize, to: usize) -> (r: Option<Number>)
        requires
            from <= to <= chars.len(),
        ensures
            match r {
                Some(n) => limbs_of(chars@.subrange(from as int, to as int)) == Some(n@),
                None => limbs_of(chars@.subrange(from as int, to as int)) is None,
            },
    {
        let ghost s = chars@.subrange(from as int, to as int);
        let mut chunks: Vec<i32> = Vec::new();
        let mut i: usize = from;
        proof {
            match chunk_list(s, 0) {
                Some(rest) => {
                    assert(chunks@ + rest =~= rest);
                },
                None => {},
            }
        }
        while i < to
            invariant
                from <= i <= to <= chars.len(),
                s == chars@.subrange(from as int, to as int),
                chunk_list(s, 0) == (match chunk_list(s, i - from) {
                    Some(rest) => Some(chunks@ + rest),
                    None => None,
                }),
            decreases to - i,
        {
            let end = if to - i >= 9 {
                i + 9
            } else {
                to
            };
            assert(s.subrange(i - from, end - from) =~= chars@.subrange(i as int, end as int));
            match chunk(chars, i, end) {
                None => {
                    return None;
                },
                Some(v) => {
                    proof {
                        match chunk_list(s, end - from) {
                            Some(rest) => {
                                assert(chunks@ + (seq![v] + rest) =~= chunks@.push(v) + rest);
                            },
                            None => {},
                        }
                    }
                    chunks.push(v);
                },
            }
            i = end;
        }
        assert(chunks@ + Seq::<i32>::empty() =~= chunks@);
        let mut value: Vec<i32> = Vec::new();
        let ghost all = chunks@;
        while chunks.len() > 0
            invariant
                chunks@.len() + value@.len() == all.len(),
                chunks@ == all.subrange(0, chunks@.len() as int),
                forall|k: int| 0 <= k < value@.len() ==> value@[k] == all[all.len() - 1 - k],
            decreases chunks.len(),
        {
            let v = chunks.pop().unwrap();
            value.push(v);
        }
        assert(value@ =~= all.reverse());
        Some(Number { value })
    }

    /// The number that `val` writes: pieces of nine characters, each a
    /// number by itself, the last piece lowest. `None` where a piece writes
    /// no number.
    pub fn parse(val: &str) -> (r: Option<Number>)
        ensures
            match r {
                Some(n) => limbs_of(val@) == Some(n@),
                None => limbs_of(val@) is None,
            },
    {
        let chars = chars_of(val);
        assert(chars@.subrange(0, chars.len() as int) =~= val@);
        Number::from_chars(&chars, 0, chars.len())
    }

    /// The limbs in base ten, one after the other, the highest first.
    pub fn render(&self) -> (r: String)
        ensures
            r@ == limbs_text(self@),
    {
        let mut s = String::new();
        let mut i: usize = self.value.len();
        assert(self@.subrange(0, i as int) =~= self@);
        while i > 0
            invariant
                i <= self.value.len(),
                limbs_text(self@) == s@ + limbs_text(self@.subrange(0, i as int)),
            decreases i,
        {
            i = i - 1;
            let ghost before = self@.subrange(0, i + 1);
            assert(before.drop_last() =~= self@.subrange(0, i as int));
            assert(before.last() == self@[i as int]);
            let limb = render_int(self.value[i] as i64);
            assert(s@ + (limb@ + limbs_text(self@.subrange(0, i as int))) =~= (s@ + limb@)
                + limbs_text(self@.subrange(0, i as int)));
            s.append(limb.as_str());
        }
        assert(s@ + Seq::<char>::empty() =~= s@);
        s
    }

    /// Whether `self` and `rhs` can be added without leaving the range of a
    /// limb.
    pub fn can_add(&self, rhs: &Number) -> (b: bool)
        ensures
            b == addable(self@, rhs@),
    {
        let n = if self.value.len() >= rhs.value.len() {
            self.value.len()
        } else {
            rhs.value.len()
        };
        let mut carry: i64 = 0;
        let mut i: usize = 0;
        while i < n
            invariant
                i <= n,
                n == longer(self@, rhs@),
                carry == carry_into(self@, rhs@, i as int),
                forall|k: int|
                    0 <= k < i ==> i32::MIN <= #[trigger] column(self@, rhs@, k) <= i32::MAX
                        && i32::MIN <= column(self@, rhs@, k) + carry_into(self@, rhs@, k)
                        <= i32::MAX,
            decreases n - i,
        {
            let a: i64 = if i < self.value.len() {
                self.value[i] as i64
            } else {
                0
            };
            let b: i64 = if i < rhs.value.len() {
                rhs.value[i] as i64
            } else {
                0
            };
            let both = a + b;
            let v = both + carry;
            if both < -2147483648i64 || both > 2147483647i64 || v < -2147483648i64 || v
                > 2147483647i64 {
                assert(column(self@, rhs@, i as int) == both);
                return false;
            }
            carry = if v >= BASE as i64 {
                1
            } else {
                0
            };
            i = i + 1;
        }
        true
    }

    /// The sum of `self` and `rhs`, limb by limb: a limb that reaches `BASE`
    /// carries one into the next.
    pub fn add(self, rhs: Number) -> (r: Number)
        requires
            addable(self@, rhs@),
        ensures
            r@ == limb_sums(self@, rhs@),
    {
        let ghost l = self@;
        let ghost r = rhs@;
        let pairs = zip_longest(self.value, rhs.value);
        let mut carry: i32 = 0;
        let mut value: Vec<i32> = Vec::new();
        let mut k: usize = 0;
        while k < pairs.len()
            invariant
                k <= pairs.len(),
                pairs@ == zipped(l, r),
                pairs.len() == longer(l, r),
                addable(l, r),
                carry == carry_into(l, r, k as int),
                value@.len() == k,
                forall|i: int|
                    0 <= i < k ==> value@[i] == (column(l, r, i) + carry_into(l, r, i)) as i32,
            decreases pairs.len() - k,
        {
            assert(i32::MIN <= column(l, r, k as int) <= i32::MAX);
            let v = match pairs[k] {
                Paired::Left(a) => a,
                Paired::Right(a) => a,
                Paired::Both(a, b) => a + b,
            };
            let v = v + carry;
            carry = if v >= BASE {
                1
            } else {
                0
            };
            value.push(v);
            k = k + 1;
        }
        if carry == 1 {
            value.push(1);
        }
        assert(value@ =~= limb_sums(l, r));
        Number { value }
    }
}

/// What the calculator makes of the text `s` from index `i` on, with the
/// numbers `stack` at hand: the numbers left, and whether all went well.
///
/// `+` adds the two numbers on top. Blanks part the rest into numbers. What
/// the calculator cannot do ends the work: `-`, `*`, `/` and `^`, a sum of
/// fewer than two numbers or of limbs out of range, a text that writes no
/// number.
pub open spec fn calculated(stack: Seq<Seq<i32>>, s: Seq<char>, i: int) -> (Seq<Seq<i32>>, bool)
    decreases (if i < s.len() { s.len() - i } else { 0 }),
{
    if i < 0 || i >= s.len() {
        (stack, true)
    } else if s[i] == '+' {
        if stack.len() >= 2 && addable(stack[stack.len() - 2], stack[stack.len() - 1]) {
            calculated(
                stack.drop_last().drop_last().push(
                    limb_sums(stack[stack.len() - 2], stack[stack.len() - 1]),
                ),
                s,
                i + 1,
            )
        } else {
            (stack, false)
        }
    } else if s[i] == '-' || s[i] == '*' || s[i] == '/' || s[i] == '^' {
        (stack, false)
    } else if whitespace(s[i]) {
        calculated(stack, s, i + 1)
    } else {
        let len = 1 + word_len(s, i + 1);
        match limbs_of(s.subrange(i, i + len)) {
            Some(limbs) => calculated(stack.push(limbs), s, i + len),
            None => (stack, false),
        }
    }
}

/// The number of characters from index `i` to the next blank.
pub open spec fn word_len(s: Seq<char>, i: int) -> nat
    decreases s.len() - i,
{
    if i < 0 || i >= s.len() || whitespace(s[i]) {
        0
    } else {
        1 + word_len(s, i + 1)
    }
}

/// The numbers of `stack`, as their limbs.
pub open spec fn stack_views(stack: Seq<Number>) -> Seq<Seq<i32>> {
    stack.map_values(|n: Number| n@)
}

/// A calculator in reverse Polish notation: the numbers at hand, the last
/// one on top.
pub struct Rpn {
    stack: Vec<Number>,
}

impl View for Rpn {
    type V = Seq<Seq<i32>>;

    closed spec fn view(&self) -> Seq<Seq<i32>> {
        stack_views(self.stack@)
    }
}

impl Rpn {
    /// A calculator with no number at hand.
    pub fn new() -> (r: Self)
        ensures
            r@ == Seq::<Seq<i32>>::empty(),
    {
        let r = Self { stack: Vec::new() };
        assert(r@ =~= Seq::<Seq<i32>>::empty());
        r
    }

    /// The numbers at hand, the last one on top.
    pub fn numbers(&self) -> (r: &Vec<Number>)
        ensures
            stack_views(r@) == self@,
    {
        &self.stack
    }

    /// The one number left.
    pub fn eval(&mut self) -> (r: Number)
        requires
            old(self)@.len() == 1,
        ensures
            r@ == old(self)@[0],
            final(self)@ == Seq::<Seq<i32>>::empty(),
    {
        let r = self.stack.pop().unwrap();
        assert(self@ =~= Seq::<Seq<i32>>::empty());
        r
    }

    /// Puts `val` on top.
    pub fn push_value(&mut self, val: Number)
        ensures
            final(self)@ == old(self)@.push(val@),
    {
        self.stack.push(val);
        assert(self@ =~= old(self)@.push(val@));
    }

    /// The two numbers on top, the lower one first.
    pub closed spec fn top_two(&self) -> (Number, Number) {
        (self.stack@[self.stack@.len() - 2], self.stack@[self.stack@.len() - 1])
    }

    /// The two numbers on top are the two limb sequences on top.
    pub proof fn lemma_top_two(&self)
        requires
            self@.len() >= 2,
        ensures
            self.top_two().0@ == self@[self@.len() - 2],
            self.top_two().1@ == self@[self@.len() - 1],
    {
    }

    /// Takes the two numbers on top and puts what `op` makes of them in
    /// their place.
    pub fn binary<F: Fn(Number, Number) -> Number>(&mut self, op: F)
        requires
            old(self)@.len() >= 2,
            op.requires(old(self).top_two()),
        ensures
            final(self)@.len() == old(self)@.len() - 1,
            final(self)@.drop_last() == old(self)@.drop_last().drop_last(),
            exists|made: Number|
                op.ensures(old(self).top_two(), made) && final(self)@.last() == made@,
    {
        let b = self.stack.pop().unwrap();
        let a = self.stack.pop().unwrap();
        let made = op(a, b);
        let ghost view = made@;
        self.stack.push(made);
        assert(self@.drop_last() =~= old(self)@.drop_last().drop_last());
        assert(op.ensures(old(self).top_two(), made) && self@.last() == view);
    }

    /// Takes the two numbers on top and puts their sum in their place.
    pub fn add(&mut self)
        requires
            old(self)@.len() >= 2,
            addable(old(self)@[old(self)@.len() - 2], old(self)@[old(self)@.len() - 1]),
        ensures
            final(self)@ == old(self)@.drop_last().drop_last().push(
                limb_sums(old(self)@[old(self)@.len() - 2], old(self)@[old(self)@.len() - 1]),
            ),
    {
        let b = self.stack.pop().unwrap();
        let a = self.stack.pop().unwrap();
        let sum = a.add(b);
        self.stack.push(sum);
        assert(self@ =~= old(self)@.drop_last().drop_last().push(
            limb_sums(old(self)@[old(self)@.len() - 2], old(self)@[old(self)@.len() - 1]),
        ));
    }

    /// Works through `text`; tells whether all went well. Where it did not,
    /// the numbers are left as they were when the work ended.
    pub fn parse(&mut self, text: &str) -> (ok: bool)
        ensures
            (final(self)@, ok) == calculated(old(self)@, text@, 0),
    {
        let chars = chars_of(text);
        let ghost s = text@;
        let mut i: usize = 0;
        while i < chars.len()
            invariant
                i <= chars.len(),
                chars@ == s,
                s == text@,
                calculated(old(self)@, s, 0) == calculated(self@, s, i as int),
            decreases chars.len() - i,
        {
            let c = chars[i];
            if c == '+' {
                let n = self.stack.len();
                if n < 2 || !self.stack[n - 2].can_add(&self.stack[n - 1]) {
                    return false;
                }
                self.add();
                i = i + 1;
            } else if c == '-' || c == '*' || c == '/' || c == '^' {
                return false;
            } else if c.is_whitespace() {
                i = i + 1;
            } else {
                let mut end: usize = i + 1;
                while end < chars.len() && !chars[end].is_whitespace()
                    invariant
                        i < end <= chars.len(),
                        chars@ == s,
                        end + word_len(s, end as int) == i + 1 + word_len(s, i + 1),
                    decreases chars.len() - end,
                {
                    end = end + 1;
                }
                match Number::from_chars(&chars, i, end) {
                    Some(number) => {
                        self.push_value(number);
                    },
                    None => {
                        return false;
                    },
                }
                i = end;
            }
        }
        true
    }
}

} // verus!
