//! Taking a typed text apart as one arithmetic operation on two operands.
//!
//! The text is first freed of whitespace. Each of the four operators is then
//! looked for in a fixed order of priority, and the text is cut at the first
//! place where the operator stands. Reading the operands as numbers, and the
//! arithmetic on them, is floating-point work and is left to the caller, who
//! reports how each operand read. [`first_computable`] then settles which
//! operation, if any, gives the text its value.

use vstd::prelude::*;
use crate::text::{char_is_whitespace, from_chars, stripped, to_chars};

verus! {

/// A binary operator, in the order in which the operators are tried.
#[derive(Clone, Copy, Debug, PartialEq, Eq, Structural)]
pub enum Operator {
    Add,
    Sub,
    Mul,
    Div,
}

impl Operator {
    /// The character that stands for the operator in a text.
    pub open spec fn symbol(self) -> char {
        match self {
            Operator::Add => '+',
            Operator::Sub => '-',
            Operator::Mul => '*',
            Operator::Div => '/',
        }
    }

    pub fn sign(self) -> (c: char)
        ensures
            c == self.symbol(),
    {
        match self {
            Operator::Add => '+',
            Operator::Sub => '-',
            Operator::Mul => '*',
            Operator::Div => '/',
        }
    }
}

/// A text cut in two at an operator.
#[derive(Debug)]
pub struct Split {
    pub op: Operator,
    pub left: String,
    pub right: String,
}

/// What a [`Split`] holds, as plain values.
pub struct SplitView {
    pub op: Operator,
    pub left: Seq<char>,
    pub right: Seq<char>,
}

impl View for Split {
    type V = SplitView;

    open spec fn view(&self) -> SplitView {
        SplitView { op: self.op, left: self.left@, right: self.right@ }
    }
}

/// What a list of splits holds, as plain values.
pub open spec fn split_views(splits: Seq<Split>) -> Seq<SplitView> {
    Seq::new(splits.len(), |i: int| splits[i]@)
}

/// Where `s` is cut for `op`: at the first place where the operator's symbol
/// stands. A minus at the very start is a sign and cuts nothing.
pub open spec fn cut_position(s: Seq<char>, op: Operator) -> Option<int> {
    match s.index_of_first(op.symbol()) {
        Some(at) => if op == Operator::Sub && at == 0 {
            None
        } else {
            Some(at)
        },
        None => None,
    }
}

/// The cut of `s` for `op` as a sequence: one split, made of what stands
/// before the symbol and what stands after it, or none.
pub open spec fn split_for(s: Seq<char>, op: Operator) -> Seq<SplitView> {
    match cut_position(s, op) {
        Some(at) => seq![SplitView { op, left: s.take(at), right: s.skip(at + 1) }],
        None => Seq::empty(),
    }
}

/// The splits of a text in order of priority, whitespace left out: for
/// addition, subtraction, multiplication and division, each where the text
/// holds its symbol.
pub open spec fn decomposition(input: Seq<char>) -> Seq<SplitView> {
    let s = stripped(input);
    split_for(s, Operator::Add) + split_for(s, Operator::Sub) + split_for(s, Operator::Mul)
        + split_for(s, Operator::Div)
}

/// `input` without its whitespace characters.
pub fn strip_whitespace(input: &str) -> (v: Vec<char>)
    ensures
        v@ == stripped(input@),
{
    let chars = to_chars(input);
    let mut v: Vec<char> = Vec::new();
    let mut i: usize = 0;
    proof {
        reveal(Seq::filter);
        assert(chars@.take(0) =~= Seq::<char>::empty());
    }
    while i < chars.len()
        invariant
            i <= chars@.len(),
            v@ == stripped(chars@.take(i as int)),
        decreases chars@.len() - i,
    {
        let c = chars[i];
        proof {
            reveal(Seq::filter);
            assert(chars@.take(i + 1).drop_last() =~= chars@.take(i as int));
            assert(chars@.take(i + 1).last() == c);
        }
        if !char_is_whitespace(c) {
            v.push(c);
        }
        i += 1;
    }
    assert(chars@.take(i as int) =~= chars@);
    v
}

/// The first place at which `c` stands in `s`.
pub fn find_first(s: &Vec<char>, c: char) -> (r: Option<usize>)
    ensures
        match r {
            Some(at) => at < s@.len() && s@.index_of_first(c) == Some(at as int),
            None => s@.index_of_first(c).is_none(),
        },
{
    let mut i: usize = 0;
    while i < s.len()
        invariant
            i <= s@.len(),
            forall|j: int| 0 <= j < i ==> s@[j] != c,
        decreases s@.len() - i,
    {
        if s[i] == c {
            proof {
                s@.index_of_first_ensures(c);
            }
            return Some(i);
        }
        i += 1;
    }
    proof {
        s@.index_of_first_ensures(c);
    }
    None
}

/// Cuts a text that holds no whitespace at `op`.
pub fn split_at_operator(s: &Vec<char>, op: Operator) -> (r: Option<Split>)
    ensures
        match (r, cut_position(s@, op)) {
            (Some(split), Some(at)) => {
                &&& 0 <= at < s@.len()
                &&& split.op == op
                &&& split.left@ == s@.take(at)
                &&& split.right@ == s@.skip(at + 1)
            },
            (None, None) => true,
            _ => false,
        },
{
    match find_first(s, op.sign()) {
        Some(at) => {
            if op == Operator::Sub && at == 0 {
                None
            } else {
                let end: usize = s.len();
                let left = from_chars(s, 0, at);
                let right = from_chars(s, at + 1, end);
                Some(Split { op, left, right })
            }
        },
        None => None,
    }
}

/// The cut is at `at` where the operator's symbol stands there and nowhere
/// before, unless that is a minus at the very start.
pub proof fn lemma_cut_at_first_symbol(s: Seq<char>, op: Operator, at: int)
    requires
        0 <= at < s.len(),
        s[at] == op.symbol(),
        forall|j: int| 0 <= j < at ==> s[j] != op.symbol(),
    ensures
        cut_position(s, op) == if op == Operator::Sub && at == 0 {
            None
        } else {
            Some(at)
        },
{
    s.index_of_first_ensures(op.symbol());
    assert(s.contains(op.symbol()));
}

/// A text without the operator's symbol has no cut for it.
pub proof fn lemma_no_cut_without_symbol(s: Seq<char>, op: Operator)
    requires
        forall|j: int| 0 <= j < s.len() ==> s[j] != op.symbol(),
    ensures
        cut_position(s, op).is_none(),
{
    s.index_of_first_ensures(op.symbol());
}

/// Takes `input` apart: the ways in which it reads as one operation on two
/// operands, in order of priority.
pub fn decompose(input: &str) -> (r: Vec<Split>)
    ensures
        split_views(r@) == decomposition(input@),
        r@.len() <= 4,
{
    let s = strip_whitespace(input);
    let mut r: Vec<Split> = Vec::new();
    if let Some(split) = split_at_operator(&s, Operator::Add) {
        r.push(split);
    }
    assert(split_views(r@) =~= split_for(s@, Operator::Add));
    let ghost first = r@;
    if let Some(split) = split_at_operator(&s, Operator::Sub) {
        r.push(split);
    }
    assert(split_views(r@) =~= split_views(first) + split_for(s@, Operator::Sub));
    let ghost second = r@;
    if let Some(split) = split_at_operator(&s, Operator::Mul) {
        r.push(split);
    }
    assert(split_views(r@) =~= split_views(second) + split_for(s@, Operator::Mul));
    let ghost third = r@;
    if let Some(split) = split_at_operator(&s, Operator::Div) {
        r.push(split);
    }
    assert(split_views(r@) =~= split_views(third) + split_for(s@, Operator::Div));
    r
}

/// How the text of an operand read as a number.
#[derive(Clone, Copy, Debug, PartialEq, Eq, Structural)]
pub enum Operand {
    /// The text is no number.
    Unreadable,
    /// The text is a number equal to zero.
    Zero,
    /// The text is a number other than zero.
    Nonzero,
}

/// Whether an operation has a value: both operands are numbers, and a
/// division has a divisor other than zero.
pub open spec fn computable(op: Operator, left: Operand, right: Operand) -> bool {
    &&& left != Operand::Unreadable
    &&& right != Operand::Unreadable
    &&& op == Operator::Div ==> right == Operand::Nonzero
}

pub fn is_computable(op: Operator, left: Operand, right: Operand) -> (r: bool)
    ensures
        r == computable(op, left, right),
{
    if left == Operand::Unreadable || right == Operand::Unreadable {
        false
    } else if op == Operator::Div {
        right == Operand::Nonzero
    } else {
        true
    }
}

/// Which split gives the text its value: the first in order of priority whose
/// operation is computable. `operands[i]` tells how the left and the right
/// side of `splits[i]` read.
pub fn first_computable(splits: &Vec<Split>, operands: &Vec<(Operand, Operand)>) -> (r: Option<
    usize,
>)
    requires
        splits@.len() == operands@.len(),
    ensures
        match r {
            Some(k) => {
                &&& k < splits@.len()
                &&& computable(splits@[k as int].op, operands@[k as int].0, operands@[k as int].1)
                &&& forall|j: int|
                    0 <= j < k ==> !computable(
                        #[trigger] splits@[j].op,
                        operands@[j].0,
                        operands@[j].1,
                    )
            },
            None => forall|j: int|
                0 <= j < splits@.len() ==> !computable(
                    #[trigger] splits@[j].op,
                    operands@[j].0,
                    operands@[j].1,
                ),
        },
{
    let mut k: usize = 0;
    while k < splits.len()
        invariant
            k <= splits@.len(),
            splits@.len() == operands@.len(),
            forall|j: int|
                0 <= j < k ==> !computable(
                    #[trigger] splits@[j].op,
                    operands@[j].0,
                    operands@[j].1,
                ),
        decreases splits@.len() - k,
    {
        if is_computable(splits[k].op, operands[k].0, operands[k].1) {
            return Some(k);
        }
        k += 1;
    }
    None
}

} // verus!
