//! Conditions: functions combined with `and`, `or`, `not` and parentheses;
//! their grammar and how they are written.
use vstd::prelude::*;

use crate::error::{escaped, Error, ErrorView};
use crate::function::parse::{function, map_value, or_else, rem, ws_tag, ws_tag_chars, Outcome, Parsed};
use crate::function::{function_text, Function, FunctionView};
use crate::text::{chars_of, push_str, string_of};
use crate::cached_result;

verus! {

broadcast use vstd::string::group_string_axioms;

/// Compound conditions joined by `or`.
#[derive(Debug, Default)]
pub struct Expression(pub Vec<CompoundCondition>);

/// Conditions joined by `and`.
#[derive(Debug, Default)]
pub struct CompoundCondition(pub Vec<Condition>);

/// A function or a parenthesised expression, possibly negated.
#[derive(Debug)]
pub enum Condition {
    Function(Function),
    InvertedFunction(Function),
    Expression(Expression),
    InvertedExpression(Expression),
}

/// The mathematical value of a condition; that of an expression is the
/// sequence of its compound conditions, each the sequence of its conditions.
pub enum ConditionView {
    Function(FunctionView),
    InvertedFunction(FunctionView),
    Expression(Seq<Seq<ConditionView>>),
    InvertedExpression(Seq<Seq<ConditionView>>),
}

pub open spec fn expression_view(e: Expression) -> Seq<Seq<ConditionView>>
    decreases e, 2int,
{
    Seq::new(
        e.0@.len(),
        |i: int|
            if 0 <= i < e.0@.len() {
                compound_view(e.0@[i])
            } else {
                Seq::empty()
            },
    )
}

pub open spec fn compound_view(c: CompoundCondition) -> Seq<ConditionView>
    decreases c, 1int,
{
    Seq::new(
        c.0@.len(),
        |i: int|
            if 0 <= i < c.0@.len() {
                condition_view(c.0@[i])
            } else {
                ConditionView::Expression(Seq::empty())
            },
    )
}

pub open spec fn condition_view(c: Condition) -> ConditionView
    decreases c, 0int,
{
    match c {
        Condition::Function(f) => ConditionView::Function(f@),
        Condition::InvertedFunction(f) => ConditionView::InvertedFunction(f@),
        Condition::Expression(e) => ConditionView::Expression(expression_view(e)),
        Condition::InvertedExpression(e) => ConditionView::InvertedExpression(expression_view(e)),
    }
}

impl View for Expression {
    type V = Seq<Seq<ConditionView>>;

    open spec fn view(&self) -> Seq<Seq<ConditionView>> {
        expression_view(*self)
    }
}

impl View for CompoundCondition {
    type V = Seq<ConditionView>;

    open spec fn view(&self) -> Seq<ConditionView> {
        compound_view(*self)
    }
}

impl View for Condition {
    type V = ConditionView;

    open spec fn view(&self) -> ConditionView {
        condition_view(*self)
    }
}

pub open spec fn and_word() -> Seq<char> {
    seq!['a', 'n', 'd']
}

pub open spec fn or_word() -> Seq<char> {
    seq!['o', 'r']
}

pub open spec fn not_word() -> Seq<char> {
    seq!['n', 'o', 't']
}

pub open spec fn open_paren() -> Seq<char> {
    seq!['(']
}

pub open spec fn close_paren() -> Seq<char> {
    seq![')']
}

/// A parenthesised expression, after whatever `opening` consumed.
pub open spec fn parenthesised(s: Seq<char>, i: int, k: nat) -> Parsed<Seq<Seq<ConditionView>>>
    decreases rem(s, i + k), 5int,
{
    match expression(s, i + k) {
        Parsed::Done(n, e) => match ws_tag(s, i + k + n, close_paren()) {
            Some(m) => Parsed::Done(k + n + m, e),
            None => Parsed::Backtrack,
        },
        Parsed::Backtrack => Parsed::Backtrack,
        Parsed::Fail(x, kind) => Parsed::Fail(x, kind),
    }
}

/// A condition: a function, `not` and a function, a parenthesised
/// expression, or `not` and a parenthesised expression, tried in that order.
pub open spec fn condition(s: Seq<char>, i: int) -> Parsed<ConditionView>
    decreases rem(s, i), 0int,
{
    let inverted_function = match ws_tag(s, i, not_word()) {
        None => Parsed::Backtrack,
        Some(k) => match function(s, i + k) {
            Parsed::Done(n, f) => Parsed::Done(k + n, ConditionView::InvertedFunction(f)),
            Parsed::Backtrack => Parsed::Backtrack,
            Parsed::Fail(x, kind) => Parsed::Fail(x, kind),
        },
    };
    let nested = match ws_tag(s, i, open_paren()) {
        None => Parsed::Backtrack,
        Some(k) => map_value(
            parenthesised(s, i, k),
            |e: Seq<Seq<ConditionView>>| ConditionView::Expression(e),
        ),
    };
    let inverted_nested = match ws_tag(s, i, not_word()) {
        None => Parsed::Backtrack,
        Some(k1) => match ws_tag(s, i + k1, open_paren()) {
            None => Parsed::Backtrack,
            Some(k2) => map_value(
                parenthesised(s, i, k1 + k2),
                |e: Seq<Seq<ConditionView>>| ConditionView::InvertedExpression(e),
            ),
        },
    };
    or_else(
        map_value(function(s, i), |f: FunctionView| ConditionView::Function(f)),
        or_else(inverted_function, or_else(nested, inverted_nested)),
    )
}

/// The conditions that follow `and` after those in `acc`, up to the first
/// place where `and` and a condition do not follow.
pub open spec fn compound_rest(s: Seq<char>, i: int, acc: Seq<ConditionView>) -> Parsed<
    Seq<ConditionView>,
>
    decreases rem(s, i), 1int,
{
    match ws_tag(s, i, and_word()) {
        None => Parsed::Done(0, acc),
        Some(k) => match condition(s, i + k) {
            Parsed::Backtrack => Parsed::Done(0, acc),
            Parsed::Fail(x, kind) => Parsed::Fail(x, kind),
            Parsed::Done(n, c) => match compound_rest(s, i + k + n, acc.push(c)) {
                Parsed::Done(m, cs) => Parsed::Done(k + n + m, cs),
                Parsed::Backtrack => Parsed::Backtrack,
                Parsed::Fail(x, kind) => Parsed::Fail(x, kind),
            },
        },
    }
}

/// Conditions separated by `and`; none where no condition applies.
pub open spec fn compound(s: Seq<char>, i: int) -> Parsed<Seq<ConditionView>>
    decreases rem(s, i), 2int,
{
    match condition(s, i) {
        Parsed::Backtrack => Parsed::Done(0, Seq::empty()),
        Parsed::Fail(x, kind) => Parsed::Fail(x, kind),
        Parsed::Done(n, c) => match compound_rest(s, i + n, seq![c]) {
            Parsed::Done(m, cs) => Parsed::Done(n + m, cs),
            Parsed::Backtrack => Parsed::Backtrack,
            Parsed::Fail(x, kind) => Parsed::Fail(x, kind),
        },
    }
}

/// The compound conditions that follow `or` after those in `acc`.
pub open spec fn expression_rest(s: Seq<char>, i: int, acc: Seq<Seq<ConditionView>>) -> Parsed<
    Seq<Seq<ConditionView>>,
>
    decreases rem(s, i), 3int,
{
    match ws_tag(s, i, or_word()) {
        None => Parsed::Done(0, acc),
        Some(k) => match compound(s, i + k) {
            Parsed::Backtrack => Parsed::Done(0, acc),
            Parsed::Fail(x, kind) => Parsed::Fail(x, kind),
            Parsed::Done(n, c) => match expression_rest(s, i + k + n, acc.push(c)) {
                Parsed::Done(m, cs) => Parsed::Done(k + n + m, cs),
                Parsed::Backtrack => Parsed::Backtrack,
                Parsed::Fail(x, kind) => Parsed::Fail(x, kind),
            },
        },
    }
}

/// Compound conditions separated by `or`.
pub open spec fn expression(s: Seq<char>, i: int) -> Parsed<Seq<Seq<ConditionView>>>
    decreases rem(s, i), 4int,
{
    match compound(s, i) {
        Parsed::Backtrack => Parsed::Done(0, Seq::empty()),
        Parsed::Fail(x, kind) => Parsed::Fail(x, kind),
        Parsed::Done(n, c) => match expression_rest(s, i + n, seq![c]) {
            Parsed::Done(m, cs) => Parsed::Done(n + m, cs),
            Parsed::Backtrack => Parsed::Backtrack,
            Parsed::Fail(x, kind) => Parsed::Fail(x, kind),
        },
    }
}


/// What parsing a whole condition string gives: the expression where it
/// consumes the whole input, else what went wrong.
pub open spec fn parse_result(s: Seq<char>) -> Result<Seq<Seq<ConditionView>>, ErrorView> {
    match expression(s, 0) {
        Parsed::Done(n, e) => if n == s.len() {
            Ok(e)
        } else {
            Err(ErrorView::UnconsumedInput(s.skip(n as int)))
        },
        Parsed::Fail(x, k) => Err(ErrorView::ParsingError(escaped(x), k)),
        Parsed::Backtrack => Err(ErrorView::ParsingIncomplete),
    }
}

proof fn lemma_compound_rest_never_backtracks(s: Seq<char>, i: int, acc: Seq<ConditionView>)
    ensures
        !(compound_rest(s, i, acc) is Backtrack),
    decreases rem(s, i),
{
    if let Some(k) = ws_tag(s, i, and_word()) {
        if let Parsed::Done(n, c) = condition(s, i + k) {
            lemma_compound_rest_never_backtracks(s, i + k + n, acc.push(c));
        }
    }
}

proof fn lemma_expression_rest_never_backtracks(
    s: Seq<char>,
    i: int,
    acc: Seq<Seq<ConditionView>>,
)
    ensures
        !(expression_rest(s, i, acc) is Backtrack),
    decreases rem(s, i),
{
    if let Some(k) = ws_tag(s, i, or_word()) {
        if let Parsed::Done(n, c) = compound(s, i + k) {
            lemma_expression_rest_never_backtracks(s, i + k + n, acc.push(c));
        }
    }
}

/// An expression always applies: at any position it either yields an
/// expression (perhaps of one empty compound condition) or fails, so parsing
/// a condition string never ends in `ParsingIncomplete`.
pub proof fn lemma_expression_never_backtracks(s: Seq<char>, i: int)
    ensures
        !(expression(s, i) is Backtrack),
        !(compound(s, i) is Backtrack),
        !(parse_result(s) matches Err(ErrorView::ParsingIncomplete)),
{
    if let Parsed::Done(n, c) = condition(s, i) {
        lemma_compound_rest_never_backtracks(s, i + n, seq![c]);
    }
    if let Parsed::Done(n, c) = compound(s, i) {
        lemma_expression_rest_never_backtracks(s, i + n, seq![c]);
    }
    if let Parsed::Done(n, c) = condition(s, 0) {
        lemma_compound_rest_never_backtracks(s, n as int, seq![c]);
    }
    if let Parsed::Done(n, c) = compound(s, 0) {
        lemma_expression_rest_never_backtracks(s, n as int, seq![c]);
    }
}

fn and_chars() -> (r: [char; 3])
    ensures
        r@ == and_word(),
{
    let r = ['a', 'n', 'd'];
    assert(r@ =~= and_word());
    r
}

fn or_chars() -> (r: [char; 2])
    ensures
        r@ == or_word(),
{
    let r = ['o', 'r'];
    assert(r@ =~= or_word());
    r
}

fn not_chars() -> (r: [char; 3])
    ensures
        r@ == not_word(),
{
    let r = ['n', 'o', 't'];
    assert(r@ =~= not_word());
    r
}

fn open_paren_chars() -> (r: [char; 1])
    ensures
        r@ == open_paren(),
{
    let r = ['('];
    assert(r@ =~= open_paren());
    r
}

fn close_paren_chars() -> (r: [char; 1])
    ensures
        r@ == close_paren(),
{
    let r = [')'];
    assert(r@ =~= close_paren());
    r
}

impl CompoundCondition {
    fn push(&mut self, c: Condition)
        ensures
            final(self)@ == old(self)@.push(c@),
    {
        self.0.push(c);
        assert(self@ =~= old(self)@.push(c@));
    }

    /// Parses conditions separated by `and` at position `i`.
    pub fn parse(s: &[char], i: usize) -> (r: Outcome<CompoundCondition>)
        requires
            i <= s.len(),
        ensures
            r@ == compound(s@, i as int),
            crate::function::parse::within(r, s@, i as int),
        decreases s.len() - i, 2int,
    {
        match Condition::parse(s, i) {
            Outcome::Backtrack => {
                let empty = CompoundCondition(Vec::new());
                assert(empty@ =~= Seq::<ConditionView>::empty());
                Outcome::Done(0, empty)
            },
            Outcome::Fail(e) => Outcome::Fail(e),
            Outcome::Done(n, c) => {
                let mut acc = CompoundCondition(Vec::new());
                acc.push(c);
                assert(acc@ =~= seq![c@]);
                match parse_compound_rest(s, i + n, acc) {
                    Outcome::Done(m, cs) => Outcome::Done(n + m, cs),
                    Outcome::Backtrack => Outcome::Backtrack,
                    Outcome::Fail(e) => Outcome::Fail(e),
                }
            },
        }
    }
}

fn parse_compound_rest(s: &[char], i: usize, acc: CompoundCondition) -> (r: Outcome<
    CompoundCondition,
>)
    requires
        i <= s.len(),
    ensures
        r@ == compound_rest(s@, i as int, acc@),
        crate::function::parse::within(r, s@, i as int),
    decreases s.len() - i, 1int,
{
    let w = and_chars();
    let k = match ws_tag_chars(s, i, &w) {
        None => return Outcome::Done(0, acc),
        Some(k) => k,
    };
    match Condition::parse(s, i + k) {
        Outcome::Backtrack => Outcome::Done(0, acc),
        Outcome::Fail(e) => Outcome::Fail(e),
        Outcome::Done(n, c) => {
            let mut acc = acc;
            acc.push(c);
            match parse_compound_rest(s, i + k + n, acc) {
                Outcome::Done(m, cs) => Outcome::Done(k + n + m, cs),
                Outcome::Backtrack => Outcome::Backtrack,
                Outcome::Fail(e) => Outcome::Fail(e),
            }
        },
    }
}

fn parse_parenthesised(s: &[char], i: usize, k: usize) -> (r: Outcome<Expression>)
    requires
        i + k <= s.len(),
    ensures
        r@ == parenthesised(s@, i as int, k as nat),
        crate::function::parse::within(r, s@, i as int),
    decreases s.len() - (i + k), 5int,
{
    match Expression::parse(s, i + k) {
        Outcome::Done(n, e) => {
            let w = close_paren_chars();
            match ws_tag_chars(s, i + k + n, &w) {
                Some(m) => Outcome::Done(k + n + m, e),
                None => Outcome::Backtrack,
            }
        },
        Outcome::Backtrack => Outcome::Backtrack,
        Outcome::Fail(e) => Outcome::Fail(e),
    }
}

impl Condition {
    /// Parses a condition at position `i`.
    pub fn parse(s: &[char], i: usize) -> (r: Outcome<Condition>)
        requires
            i <= s.len(),
        ensures
            r@ == condition(s@, i as int),
            crate::function::parse::within(r, s@, i as int),
        decreases s.len() - i, 0int,
    {
        match Function::parse(s, i) {
            Outcome::Done(n, f) => return Outcome::Done(n, Condition::Function(f)),
            Outcome::Fail(e) => return Outcome::Fail(e),
            Outcome::Backtrack => {},
        }
        let not = not_chars();
        if let Some(k) = ws_tag_chars(s, i, &not) {
            match Function::parse(s, i + k) {
                Outcome::Done(n, f) => return Outcome::Done(k + n, Condition::InvertedFunction(f)),
                Outcome::Fail(e) => return Outcome::Fail(e),
                Outcome::Backtrack => {},
            }
        }
        let open = open_paren_chars();
        if let Some(k) = ws_tag_chars(s, i, &open) {
            match parse_parenthesised(s, i, k) {
                Outcome::Done(n, e) => return Outcome::Done(n, Condition::Expression(e)),
                Outcome::Fail(e) => return Outcome::Fail(e),
                Outcome::Backtrack => {},
            }
        }
        if let Some(k1) = ws_tag_chars(s, i, &not) {
            if let Some(k2) = ws_tag_chars(s, i + k1, &open) {
                match parse_parenthesised(s, i, k1 + k2) {
                    Outcome::Done(n, e) => return Outcome::Done(
                        n,
                        Condition::InvertedExpression(e),
                    ),
                    Outcome::Fail(e) => return Outcome::Fail(e),
                    Outcome::Backtrack => {},
                }
            }
        }
        Outcome::Backtrack
    }
}

fn parse_expression_rest(s: &[char], i: usize, acc: Expression) -> (r: Outcome<Expression>)
    requires
        i <= s.len(),
    ensures
        r@ == expression_rest(s@, i as int, acc@),
        crate::function::parse::within(r, s@, i as int),
    decreases s.len() - i, 3int,
{
    let w = or_chars();
    let k = match ws_tag_chars(s, i, &w) {
        None => return Outcome::Done(0, acc),
        Some(k) => k,
    };
    match CompoundCondition::parse(s, i + k) {
        Outcome::Backtrack => Outcome::Done(0, acc),
        Outcome::Fail(e) => Outcome::Fail(e),
        Outcome::Done(n, c) => {
            let mut acc = acc;
            acc.push(c);
            match parse_expression_rest(s, i + k + n, acc) {
                Outcome::Done(m, cs) => Outcome::Done(k + n + m, cs),
                Outcome::Backtrack => Outcome::Backtrack,
                Outcome::Fail(e) => Outcome::Fail(e),
            }
        },
    }
}

impl Expression {
    fn push(&mut self, c: CompoundCondition)
        ensures
            final(self)@ == old(self)@.push(c@),
    {
        self.0.push(c);
        assert(self@ =~= old(self)@.push(c@));
    }

    /// Parses compound conditions separated by `or` at position `i`.
    pub fn parse(s: &[char], i: usize) -> (r: Outcome<Expression>)
        requires
            i <= s.len(),
        ensures
            r@ == expression(s@, i as int),
            crate::function::parse::within(r, s@, i as int),
        decreases s.len() - i, 4int,
    {
        match CompoundCondition::parse(s, i) {
            Outcome::Backtrack => {
                let empty = Expression(Vec::new());
                assert(empty@ =~= Seq::<Seq<ConditionView>>::empty());
                Outcome::Done(0, empty)
            },
            Outcome::Fail(e) => Outcome::Fail(e),
            Outcome::Done(n, c) => {
                let mut acc = Expression(Vec::new());
                acc.push(c);
                assert(acc@ =~= seq![c@]);
                match parse_expression_rest(s, i + n, acc) {
                    Outcome::Done(m, cs) => Outcome::Done(n + m, cs),
                    Outcome::Backtrack => Outcome::Backtrack,
                    Outcome::Fail(e) => Outcome::Fail(e),
                }
            },
        }
    }

    /// Parses a whole condition string.
    pub fn parse_str(s: &str) -> (r: Result<Expression, Error>)
        ensures
            match r {
                Ok(e) => parse_result(s@) == Ok::<Seq<Seq<ConditionView>>, ErrorView>(e@),
                Err(e) => parse_result(s@) == Err::<Seq<Seq<ConditionView>>, ErrorView>(e@),
            },
    {
        let chars = chars_of(s);
        match Expression::parse(chars.as_slice(), 0) {
            Outcome::Done(n, e) => {
                if n == chars.len() {
                    Ok(e)
                } else {
                    let rest = string_of(&chars.as_slice()[n..chars.len()]);
                    assert(chars@.subrange(n as int, chars.len() as int) == chars@.skip(n as int));
                    Err(Error::UnconsumedInput(rest))
                }
            },
            Outcome::Fail(e) => Err(Error::from_parsing_error(e)),
            Outcome::Backtrack => {
                proof {
                    lemma_expression_never_backtracks(s@, 0);
                }
                Err(Error::ParsingIncomplete)
            },
        }
    }
}

impl core::str::FromStr for Expression {
    type Err = Error;

    fn from_str(s: &str) -> (r: Result<Self, Self::Err>)
        ensures
            match r {
                Ok(e) => parse_result(s@) == Ok::<Seq<Seq<ConditionView>>, ErrorView>(e@),
                Err(e) => parse_result(s@) == Err::<Seq<Seq<ConditionView>>, ErrorView>(e@),
            },
    {
        Expression::parse_str(s)
    }
}


/// How an expression is written: its compound conditions joined by ` or `.
pub open spec fn expression_text(e: Seq<Seq<ConditionView>>) -> Seq<char>
    decreases e,
{
    if e.len() == 0 {
        Seq::empty()
    } else if e.len() == 1 {
        compound_text(e[0])
    } else {
        expression_text(e.drop_last()) + " or "@ + compound_text(e.last())
    }
}

/// How a compound condition is written: its conditions joined by ` and `.
pub open spec fn compound_text(c: Seq<ConditionView>) -> Seq<char>
    decreases c,
{
    if c.len() == 0 {
        Seq::empty()
    } else if c.len() == 1 {
        condition_text(c[0])
    } else {
        compound_text(c.drop_last()) + " and "@ + condition_text(c.last())
    }
}

/// How a condition is written.
pub open spec fn condition_text(c: ConditionView) -> Seq<char>
    decreases c,
{
    match c {
        ConditionView::Function(f) => function_text(f),
        ConditionView::InvertedFunction(f) => "not "@ + function_text(f),
        ConditionView::Expression(e) => "("@ + expression_text(e) + ")"@,
        ConditionView::InvertedExpression(e) => "not ("@ + expression_text(e) + ")"@,
    }
}

impl Expression {
    /// How the expression is written.
    pub fn to_string(&self) -> (r: String)
        ensures
            r@ == expression_text(self@),
        decreases self, 2int,
    {
        let mut r = String::new();
        let mut i: usize = 0;
        while i < self.0.len()
            invariant
                i <= self.0@.len(),
                r@ == expression_text(self@.take(i as int)),
            decreases self.0@.len() - i,
        {
            if i > 0 {
                push_str(&mut r, " or ");
            }
            let t = self.0[i].to_string();
            proof {
                let e = self@.take(i + 1);
                assert(e.drop_last() =~= self@.take(i as int));
                if i == 0 {
                    assert(r@ =~= Seq::<char>::empty());
                }
            }
            push_str(&mut r, t.as_str());
            proof {
                if i == 0 {
                    assert(r@ =~= t@);
                }
            }
            i = i + 1;
        }
        assert(self@.take(self.0@.len() as int) =~= self@);
        r
    }
}

impl CompoundCondition {
    /// How the compound condition is written.
    pub fn to_string(&self) -> (r: String)
        ensures
            r@ == compound_text(self@),
        decreases self, 1int,
    {
        let mut r = String::new();
        let mut i: usize = 0;
        while i < self.0.len()
            invariant
                i <= self.0@.len(),
                r@ == compound_text(self@.take(i as int)),
            decreases self.0@.len() - i,
        {
            if i > 0 {
                push_str(&mut r, " and ");
            }
            let t = self.0[i].to_string();
            proof {
                let c = self@.take(i + 1);
                assert(c.drop_last() =~= self@.take(i as int));
                if i == 0 {
                    assert(r@ =~= Seq::<char>::empty());
                }
            }
            push_str(&mut r, t.as_str());
            proof {
                if i == 0 {
                    assert(r@ =~= t@);
                }
            }
            i = i + 1;
        }
        assert(self@.take(self.0@.len() as int) =~= self@);
        r
    }
}

impl Condition {
    /// How the condition is written.
    pub fn to_string(&self) -> (r: String)
        ensures
            r@ == condition_text(self@),
        decreases self, 0int,
    {
        match self {
            Condition::Function(f) => f.to_string(),
            Condition::InvertedFunction(f) => {
                let mut r = String::new();
                push_str(&mut r, "not ");
                let t = f.to_string();
                push_str(&mut r, t.as_str());
                r
            },
            Condition::Expression(e) => {
                let mut r = String::new();
                push_str(&mut r, "(");
                let t = e.to_string();
                push_str(&mut r, t.as_str());
                push_str(&mut r, ")");
                r
            },
            Condition::InvertedExpression(e) => {
                let mut r = String::new();
                push_str(&mut r, "not (");
                let t = e.to_string();
                push_str(&mut r, t.as_str());
                push_str(&mut r, ")");
                r
            },
        }
    }
}

/// How far evaluating a condition got with the function outcomes known so
/// far: its value, the error of the first function, in evaluation order,
/// whose evaluation failed, or the first function whose outcome is not
/// known yet.
#[derive(Debug)]
pub enum Evaluation {
    Value(bool),
    Failed(Error),
    Needs(Function),
}

pub enum EvaluationView {
    Value(bool),
    Failed(ErrorView),
    Needs(FunctionView),
}

impl View for Evaluation {
    type V = EvaluationView;

    open spec fn view(&self) -> EvaluationView {
        match self {
            Evaluation::Value(b) => EvaluationView::Value(*b),
            Evaluation::Failed(e) => EvaluationView::Failed(e@),
            Evaluation::Needs(f) => EvaluationView::Needs(f@),
        }
    }
}

/// The outcome of evaluating a function, as a mathematical value.
pub open spec fn outcome_view(r: Result<bool, Error>) -> Result<bool, ErrorView> {
    match r {
        Ok(b) => Ok(b),
        Err(e) => Err(e@),
    }
}

/// The outcomes known for functions, as pairs.
pub open spec fn outcome_views(s: Seq<(Function, Result<bool, Error>)>) -> Seq<
    (FunctionView, Result<bool, ErrorView>),
> {
    s.map_values(|e: (Function, Result<bool, Error>)| (e.0@, outcome_view(e.1)))
}

pub open spec fn negated(e: EvaluationView) -> EvaluationView {
    match e {
        EvaluationView::Value(b) => EvaluationView::Value(!b),
        r => r,
    }
}

/// A condition's evaluation: a function gives its known outcome, its value
/// negated where the condition is inverted, and an error passed on as it is.
pub open spec fn evaluate_condition(
    c: ConditionView,
    known: Seq<(FunctionView, Result<bool, ErrorView>)>,
) -> EvaluationView
    decreases c, 0int, 0int,
{
    match c {
        ConditionView::Function(f) => match cached_result(known, f) {
            Some(Ok(b)) => EvaluationView::Value(b),
            Some(Err(e)) => EvaluationView::Failed(e),
            None => EvaluationView::Needs(f),
        },
        ConditionView::InvertedFunction(f) => match cached_result(known, f) {
            Some(Ok(b)) => EvaluationView::Value(!b),
            Some(Err(e)) => EvaluationView::Failed(e),
            None => EvaluationView::Needs(f),
        },
        ConditionView::Expression(e) => evaluate_expression_from(e, 0, known),
        ConditionView::InvertedExpression(e) => negated(evaluate_expression_from(e, 0, known)),
    }
}

/// The conjunction of the conditions from position `i` on, evaluated in
/// order and stopping at the first one that is false or fails: true where
/// there are none.
pub open spec fn evaluate_compound_from(
    c: Seq<ConditionView>,
    i: int,
    known: Seq<(FunctionView, Result<bool, ErrorView>)>,
) -> EvaluationView
    decreases c, 1int, c.len() - i,
{
    if i < 0 || i >= c.len() {
        EvaluationView::Value(true)
    } else {
        match evaluate_condition(c[i], known) {
            EvaluationView::Value(true) => evaluate_compound_from(c, i + 1, known),
            r => r,
        }
    }
}

/// The disjunction of the compound conditions from position `i` on,
/// evaluated in order and stopping at the first one that is true or fails:
/// false where there are none.
pub open spec fn evaluate_expression_from(
    e: Seq<Seq<ConditionView>>,
    i: int,
    known: Seq<(FunctionView, Result<bool, ErrorView>)>,
) -> EvaluationView
    decreases e, 1int, e.len() - i,
{
    if i < 0 || i >= e.len() {
        EvaluationView::Value(false)
    } else {
        match evaluate_compound_from(e[i], 0, known) {
            EvaluationView::Value(false) => evaluate_expression_from(e, i + 1, known),
            r => r,
        }
    }
}

/// What a known outcome makes of a function condition.
fn known_outcome(
    known: &[(Function, Result<bool, Error>)],
    f: &Function,
    inverted: bool,
) -> (r: Evaluation)
    ensures
        r@ == (match cached_result(outcome_views(known@), f@) {
            Some(Ok(b)) => EvaluationView::Value(if inverted { !b } else { b }),
            Some(Err(e)) => EvaluationView::Failed(e),
            None => EvaluationView::Needs(f@),
        }),
{
    match lookup(known, f) {
        Some(i) => match &known[i].1 {
            Ok(b) => Evaluation::Value(if inverted { !*b } else { *b }),
            Err(e) => Evaluation::Failed(e.clone()),
        },
        None => Evaluation::Needs(f.clone()),
    }
}

impl Condition {
    /// Evaluates the condition with the function outcomes known so far.
    pub fn eval(&self, known: &[(Function, Result<bool, Error>)]) -> (r: Evaluation)
        ensures
            r@ == evaluate_condition(self@, outcome_views(known@)),
        decreases self, 0int,
    {
        match self {
            Condition::Function(f) => known_outcome(known, f, false),
            Condition::InvertedFunction(f) => known_outcome(known, f, true),
            Condition::Expression(e) => e.eval(known),
            Condition::InvertedExpression(e) => match e.eval(known) {
                Evaluation::Value(b) => Evaluation::Value(!b),
                n => n,
            },
        }
    }
}

impl CompoundCondition {
    /// Evaluates the conjunction with the function outcomes known so far.
    pub fn eval(&self, known: &[(Function, Result<bool, Error>)]) -> (r: Evaluation)
        ensures
            r@ == evaluate_compound_from(self@, 0, outcome_views(known@)),
        decreases self, 1int,
    {
        let ghost c = self@;
        let mut i: usize = 0;
        while i < self.0.len()
            invariant
                c == self@,
                i <= self.0@.len(),
                evaluate_compound_from(c, 0, outcome_views(known@)) == evaluate_compound_from(
                    c,
                    i as int,
                    outcome_views(known@),
                ),
            decreases self.0@.len() - i,
        {
            assert(c[i as int] == self.0@[i as int]@);
            match self.0[i].eval(known) {
                Evaluation::Value(true) => {},
                r => {
                    return r;
                },
            }
            i = i + 1;
        }
        Evaluation::Value(true)
    }
}

impl Expression {
    /// Evaluates the expression with the function outcomes known so far: its
    /// value, the error that stopped it, or the next function whose outcome
    /// is needed.
    pub fn eval(&self, known: &[(Function, Result<bool, Error>)]) -> (r: Evaluation)
        ensures
            r@ == evaluate_expression_from(self@, 0, outcome_views(known@)),
        decreases self, 2int,
    {
        let ghost e = self@;
        let mut i: usize = 0;
        while i < self.0.len()
            invariant
                e == self@,
                i <= self.0@.len(),
                evaluate_expression_from(e, 0, outcome_views(known@)) == evaluate_expression_from(
                    e,
                    i as int,
                    outcome_views(known@),
                ),
            decreases self.0@.len() - i,
        {
            assert(e[i as int] == self.0@[i as int]@);
            match self.0[i].eval(known) {
                Evaluation::Value(false) => {},
                r => {
                    return r;
                },
            }
            i = i + 1;
        }
        Evaluation::Value(false)
    }
}

/// The position of the last known outcome of a function.
fn lookup(known: &[(Function, Result<bool, Error>)], f: &Function) -> (r: Option<usize>)
    ensures
        match r {
            Some(i) => i < known@.len() && cached_result(outcome_views(known@), f@) == Some(
                outcome_view(known@[i as int].1),
            ),
            None => cached_result(outcome_views(known@), f@) is None,
        },
{
    let ghost all = outcome_views(known@);
    let mut i: usize = known.len();
    assert(all.take(i as int) =~= all);
    while i > 0
        invariant
            i <= known@.len(),
            all == outcome_views(known@),
            cached_result(all, f@) == cached_result(all.take(i as int), f@),
        decreases i,
    {
        assert(all.take(i as int).drop_last() =~= all.take(i - 1));
        if known[i - 1].0 == *f {
            return Some(i - 1);
        }
        i = i - 1;
    }
    None
}

proof fn lemma_needs_unknown_condition(c: ConditionView, known: Seq<(FunctionView, Result<bool, ErrorView>)>)
    ensures
        evaluate_condition(c, known) matches EvaluationView::Needs(f) ==> cached_result(known, f) is None,
    decreases c, 0int, 0int,
{
    match c {
        ConditionView::Expression(e) => lemma_needs_unknown_expression(e, 0, known),
        ConditionView::InvertedExpression(e) => lemma_needs_unknown_expression(e, 0, known),
        _ => {},
    }
}

proof fn lemma_needs_unknown_compound(c: Seq<ConditionView>, i: int, known: Seq<(FunctionView, Result<bool, ErrorView>)>)
    ensures
        evaluate_compound_from(c, i, known) matches EvaluationView::Needs(f) ==> cached_result(known, f) is None,
    decreases c, 1int, c.len() - i,
{
    if 0 <= i < c.len() {
        lemma_needs_unknown_condition(c[i], known);
        lemma_needs_unknown_compound(c, i + 1, known);
    }
}

/// When evaluating an expression asks for a function, that function's
/// result is not among those known: every round of evaluation that supplies
/// the result asked for makes progress.
pub proof fn lemma_needs_unknown_expression(e: Seq<Seq<ConditionView>>, i: int, known: Seq<(FunctionView, Result<bool, ErrorView>)>)
    ensures
        evaluate_expression_from(e, i, known) matches EvaluationView::Needs(f) ==> cached_result(known, f) is None,
    decreases e, 1int, e.len() - i,
{
    if 0 <= i < e.len() {
        lemma_needs_unknown_compound(e[i], 0, known);
        lemma_needs_unknown_expression(e, i + 1, known);
    }
}


proof fn lemma_learning_keeps_known_result(
    known: Seq<(FunctionView, Result<bool, ErrorView>)>,
    g: FunctionView,
    r: Result<bool, ErrorView>,
    f: FunctionView,
)
    requires
        cached_result(known, g) is None,
        cached_result(known, f) is Some,
    ensures
        cached_result(known.push((g, r)), f) == cached_result(known, f),
{
    assert(known.push((g, r)).drop_last() =~= known);
    if crate::function::same_function(g, f) {
        crate::lemma_cached_result_respects_sameness(known, g, f);
    }
}

proof fn lemma_learning_keeps_condition(
    c: ConditionView,
    known: Seq<(FunctionView, Result<bool, ErrorView>)>,
    g: FunctionView,
    r: Result<bool, ErrorView>,
)
    requires
        cached_result(known, g) is None,
        !(evaluate_condition(c, known) is Needs),
    ensures
        evaluate_condition(c, known.push((g, r))) == evaluate_condition(c, known),
    decreases c, 0int, 0int,
{
    match c {
        ConditionView::Function(f) => lemma_learning_keeps_known_result(known, g, r, f),
        ConditionView::InvertedFunction(f) => lemma_learning_keeps_known_result(known, g, r, f),
        ConditionView::Expression(e) => lemma_learning_keeps_expression(e, 0, known, g, r),
        ConditionView::InvertedExpression(e) => lemma_learning_keeps_expression(e, 0, known, g, r),
    }
}

proof fn lemma_learning_keeps_compound(
    c: Seq<ConditionView>,
    i: int,
    known: Seq<(FunctionView, Result<bool, ErrorView>)>,
    g: FunctionView,
    r: Result<bool, ErrorView>,
)
    requires
        cached_result(known, g) is None,
        !(evaluate_compound_from(c, i, known) is Needs),
    ensures
        evaluate_compound_from(c, i, known.push((g, r))) == evaluate_compound_from(c, i, known),
    decreases c, 1int, c.len() - i,
{
    if 0 <= i < c.len() {
        lemma_learning_keeps_condition(c[i], known, g, r);
        if evaluate_condition(c[i], known) == EvaluationView::Value(true) {
            lemma_learning_keeps_compound(c, i + 1, known, g, r);
        }
    }
}

/// Learning the outcome of a function that was not known does not change
/// how an expression already settled (with a value or an error): what an
/// expression gives does not depend on the order in which its functions'
/// outcomes are learnt.
pub proof fn lemma_learning_keeps_expression(
    e: Seq<Seq<ConditionView>>,
    i: int,
    known: Seq<(FunctionView, Result<bool, ErrorView>)>,
    g: FunctionView,
    r: Result<bool, ErrorView>,
)
    requires
        cached_result(known, g) is None,
        !(evaluate_expression_from(e, i, known) is Needs),
    ensures
        evaluate_expression_from(e, i, known.push((g, r))) == evaluate_expression_from(e, i, known),
    decreases e, 1int, e.len() - i,
{
    if 0 <= i < e.len() {
        lemma_learning_keeps_compound(e[i], 0, known, g, r);
        if evaluate_compound_from(e[i], 0, known) == EvaluationView::Value(false) {
            lemma_learning_keeps_expression(e, i + 1, known, g, r);
        }
    }
}

} // verus!