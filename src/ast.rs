//! The abstract syntax tree, and its construction from a concrete parse tree.
use vstd::prelude::*;
use crate::grammar::{
    Grammar, Node, Rule, SyntaxError, binary_at, blank_len, call_at, expression_at, function_at,
    is_blank, is_unary, operator_rule, chars_of, digit_len, digit_run, is_digit,
    number_len, parse_input,
};

verus! {

/// A number literal as written: its sign, the digits before the point and
/// the digits after it (each a value 0 to 9; none after when there is no point).
#[derive(Debug)]
pub struct Decimal {
    pub negative: bool,
    pub int_digits: Vec<u8>,
    pub frac_digits: Vec<u8>,
}

/// The mathematical content of a [`Decimal`].
pub struct DecimalModel {
    pub negative: bool,
    pub int_digits: Seq<u8>,
    pub frac_digits: Seq<u8>,
}

impl View for Decimal {
    type V = DecimalModel;

    open spec fn view(&self) -> DecimalModel {
        DecimalModel {
            negative: self.negative,
            int_digits: self.int_digits@,
            frac_digits: self.frac_digits@,
        }
    }
}

impl Decimal {
    /// A copy of this literal.
    pub fn copy(&self) -> (r: Decimal)
        ensures
            r@ == self@,
    {
        Decimal {
            negative: self.negative,
            int_digits: self.int_digits.clone(),
            frac_digits: self.frac_digits.clone(),
        }
    }

    /// How this literal is written.
    pub fn text_chars(&self) -> (r: Vec<char>)
        ensures
            r@ == literal_text(self@),
    {
        let mut r: Vec<char> = Vec::new();
        if self.negative {
            r.push('-');
        }
        let ghost sign = r@;
        let mut k: usize = 0;
        while k < self.int_digits.len()
            invariant
                k <= self.int_digits@.len(),
                r@ == sign + digit_chars(self.int_digits@.subrange(0, k as int)),
            decreases self.int_digits@.len() - k,
        {
            r.push(self.int_digits[k].wrapping_add(48) as char);
            k = k + 1;
            assert(r@ =~= sign + digit_chars(self.int_digits@.subrange(0, k as int)));
        }
        assert(self.int_digits@.subrange(0, k as int) =~= self.int_digits@);
        let ghost whole = r@;
        if self.frac_digits.len() > 0 {
            r.push('.');
            let mut k: usize = 0;
            while k < self.frac_digits.len()
                invariant
                    k <= self.frac_digits@.len(),
                    r@ == whole + seq!['.'] + digit_chars(self.frac_digits@.subrange(0, k as int)),
                decreases self.frac_digits@.len() - k,
            {
                r.push(self.frac_digits[k].wrapping_add(48) as char);
                k = k + 1;
                assert(r@ =~= whole + seq!['.'] + digit_chars(
                    self.frac_digits@.subrange(0, k as int),
                ));
            }
            assert(self.frac_digits@.subrange(0, k as int) =~= self.frac_digits@);
        }
        assert(r@ =~= literal_text(self@));
        r
    }
}

/// An arithmetic expression tree; every node owns its children.
#[derive(Debug)]
pub enum Expr {
    /// A numeric literal.
    Num(Decimal),
    /// left + right
    Add(Box<Expr>, Box<Expr>),
    /// left - right
    Sub(Box<Expr>, Box<Expr>),
    /// left * right
    Mul(Box<Expr>, Box<Expr>),
    /// left / right
    Div(Box<Expr>, Box<Expr>),
    /// sin(x)
    Sin(Box<Expr>),
    /// cos(x)
    Cos(Box<Expr>),
    /// tan(x)
    Tan(Box<Expr>),
    /// e to the power x
    Exp(Box<Expr>),
    /// natural logarithm of x
    Ln(Box<Expr>),
    /// base to the power exponent
    Pow(Box<Expr>, Box<Expr>),
    /// root of degree `degree` of `value`: (value, degree)
    Root(Box<Expr>, Box<Expr>),
    /// logarithm of `value` in base `base`: (value, base)
    Log(Box<Expr>, Box<Expr>),
}

/// The mathematical content of an [`Expr`].
pub enum ExprModel {
    Num(DecimalModel),
    Add(Box<ExprModel>, Box<ExprModel>),
    Sub(Box<ExprModel>, Box<ExprModel>),
    Mul(Box<ExprModel>, Box<ExprModel>),
    Div(Box<ExprModel>, Box<ExprModel>),
    Sin(Box<ExprModel>),
    Cos(Box<ExprModel>),
    Tan(Box<ExprModel>),
    Exp(Box<ExprModel>),
    Ln(Box<ExprModel>),
    Pow(Box<ExprModel>, Box<ExprModel>),
    Root(Box<ExprModel>, Box<ExprModel>),
    Log(Box<ExprModel>, Box<ExprModel>),
}

impl View for Expr {
    type V = ExprModel;

    open spec fn view(&self) -> ExprModel {
        self.model()
    }
}

impl Expr {
    /// The mathematical content of this tree.
    pub open spec fn model(&self) -> ExprModel
        decreases self,
    {
        match self {
            Expr::Num(d) => ExprModel::Num(d@),
            Expr::Add(a, b) => ExprModel::Add(Box::new(a.model()), Box::new(b.model())),
            Expr::Sub(a, b) => ExprModel::Sub(Box::new(a.model()), Box::new(b.model())),
            Expr::Mul(a, b) => ExprModel::Mul(Box::new(a.model()), Box::new(b.model())),
            Expr::Div(a, b) => ExprModel::Div(Box::new(a.model()), Box::new(b.model())),
            Expr::Sin(x) => ExprModel::Sin(Box::new(x.model())),
            Expr::Cos(x) => ExprModel::Cos(Box::new(x.model())),
            Expr::Tan(x) => ExprModel::Tan(Box::new(x.model())),
            Expr::Exp(x) => ExprModel::Exp(Box::new(x.model())),
            Expr::Ln(x) => ExprModel::Ln(Box::new(x.model())),
            Expr::Pow(a, b) => ExprModel::Pow(Box::new(a.model()), Box::new(b.model())),
            Expr::Root(a, b) => ExprModel::Root(Box::new(a.model()), Box::new(b.model())),
            Expr::Log(a, b) => ExprModel::Log(Box::new(a.model()), Box::new(b.model())),
        }
    }
}

/// A parse tree that does not have the shape the grammar gives.
#[derive(Clone, Copy, Debug, PartialEq, Eq, Structural)]
pub enum BuildError {
    /// An `input` or `expression` node without a child.
    EmptyExpression,
    /// A `num` node whose characters `start..end` are not a number literal.
    MalformedNumber { start: usize, end: usize },
    /// A binary node without its left operand.
    MissingLeft,
    /// A binary node without its right operand.
    MissingRight,
    /// A function node without its argument.
    MissingArgument,
}

/// Why a text is not an expression.
#[derive(Clone, Copy, Debug, PartialEq, Eq, Structural)]
pub enum ParseError {
    /// The text does not follow the grammar.
    Syntax(SyntaxError),
    /// The parse tree could not be turned into an expression.
    Structure(BuildError),
}

/// The values of the digit characters `t`.
pub open spec fn digit_values(t: Seq<char>) -> Seq<u8> {
    Seq::new(t.len(), |j: int| (t[j] as u32 - '0' as u32) as u8)
}

/// The literal that the characters `t` spell, if they spell one.
pub open spec fn decimal_of(t: Seq<char>) -> Option<DecimalModel> {
    let sign: int = if t.len() > 0 && t[0] == '-' { 1 } else { 0 };
    let whole = digit_len(t, sign);
    let dot = sign + whole;
    let frac = digit_len(t, dot + 1);
    if whole == 0 {
        None
    } else if dot == t.len() {
        Some(
            DecimalModel {
                negative: sign == 1,
                int_digits: digit_values(t.subrange(sign, dot)),
                frac_digits: Seq::empty(),
            },
        )
    } else if t[dot] == '.' && frac > 0 && dot + 1 + frac == t.len() {
        Some(
            DecimalModel {
                negative: sign == 1,
                int_digits: digit_values(t.subrange(sign, dot)),
                frac_digits: digit_values(t.subrange(dot + 1, t.len() as int)),
            },
        )
    } else {
        None
    }
}

/// The expression of a binary rule over two operands.
pub open spec fn binary_model(rule: Rule, a: ExprModel, b: ExprModel) -> ExprModel {
    let (a, b) = (Box::new(a), Box::new(b));
    match rule {
        Rule::Plus => ExprModel::Add(a, b),
        Rule::Minus => ExprModel::Sub(a, b),
        Rule::Multiply => ExprModel::Mul(a, b),
        Rule::Divide => ExprModel::Div(a, b),
        Rule::Pow => ExprModel::Pow(a, b),
        Rule::Root => ExprModel::Root(a, b),
        _ => ExprModel::Log(a, b),
    }
}

/// The expression of a function rule of one argument.
pub open spec fn unary_model(rule: Rule, x: ExprModel) -> ExprModel {
    let x = Box::new(x);
    match rule {
        Rule::Sin => ExprModel::Sin(x),
        Rule::Cos => ExprModel::Cos(x),
        Rule::Tan => ExprModel::Tan(x),
        Rule::Exp => ExprModel::Exp(x),
        _ => ExprModel::Ln(x),
    }
}

/// The expression that the parse tree `n` of the text `s` stands for.
pub open spec fn build(n: Node, s: Seq<char>) -> Result<ExprModel, BuildError>
    decreases n,
{
    match n.rule {
        Rule::Input | Rule::Expression => match n.first {
            Some(c) => build(*c, s),
            None => Err(BuildError::EmptyExpression),
        },
        Rule::Num => {
            let bad = BuildError::MalformedNumber { start: n.start, end: n.end };
            if n.start <= n.end <= s.len() {
                match decimal_of(s.subrange(n.start as int, n.end as int)) {
                    Some(d) => Ok(ExprModel::Num(d)),
                    None => Err(bad),
                }
            } else {
                Err(bad)
            }
        },
        Rule::Sin | Rule::Cos | Rule::Tan | Rule::Exp | Rule::Ln => match n.first {
            None => Err(BuildError::MissingArgument),
            Some(c) => match build(*c, s) {
                Err(e) => Err(e),
                Ok(x) => Ok(unary_model(n.rule, x)),
            },
        },
        _ => match (n.first, n.second) {
            (None, _) => Err(BuildError::MissingLeft),
            (_, None) => Err(BuildError::MissingRight),
            (Some(l), Some(r)) => match build(*l, s) {
                Err(e) => Err(e),
                Ok(a) => match build(*r, s) {
                    Err(e) => Err(e),
                    Ok(b) => Ok(binary_model(n.rule, a, b)),
                },
            },
        },
    }
}

/// The expression that the text `s` stands for, or why there is none.
pub open spec fn parse_spec(s: Seq<char>) -> Result<ExprModel, ParseError> {
    match parse_input(s) {
        Err(e) => Err(ParseError::Syntax(e)),
        Ok(n) => match build(n, s) {
            Err(e) => Err(ParseError::Structure(e)),
            Ok(x) => Ok(x),
        },
    }
}

/// Every character of the run of digits at `i` is a digit.
proof fn lemma_digit_run(t: Seq<char>, i: int)
    requires
        0 <= i,
    ensures
        i + digit_len(t, i) <= t.len() || digit_len(t, i) == 0,
        forall|j: int| i <= j < i + digit_len(t, i) ==> is_digit(#[trigger] t[j]),
    decreases t.len() - i,
{
    if 0 <= i < t.len() && is_digit(t[i]) {
        lemma_digit_run(t, i + 1);
    }
}

/// The values of the digit characters `t[a..b]`.
fn digit_vec(t: &Vec<char>, a: usize, b: usize) -> (r: Vec<u8>)
    requires
        a <= b <= t@.len(),
        forall|j: int| a <= j < b ==> is_digit(#[trigger] t@[j]),
    ensures
        r@ == digit_values(t@.subrange(a as int, b as int)),
{
    let mut r: Vec<u8> = Vec::new();
    let mut k: usize = a;
    while k < b
        invariant
            a <= k <= b <= t@.len(),
            forall|j: int| a <= j < b ==> is_digit(#[trigger] t@[j]),
            r@ == digit_values(t@.subrange(a as int, k as int)),
        decreases b - k,
    {
        let c = t[k];
        assert(is_digit(t@[k as int]));
        r.push((c as u32 - '0' as u32) as u8);
        k = k + 1;
        assert(r@ =~= digit_values(t@.subrange(a as int, k as int)));
    }
    r
}

/// The characters `s[a..b]`.
fn span_chars(s: &Vec<char>, a: usize, b: usize) -> (r: Vec<char>)
    requires
        a <= b <= s@.len(),
    ensures
        r@ == s@.subrange(a as int, b as int),
{
    let mut r: Vec<char> = Vec::new();
    let mut k: usize = a;
    while k < b
        invariant
            a <= k <= b <= s@.len(),
            r@ == s@.subrange(a as int, k as int),
        decreases b - k,
    {
        r.push(s[k]);
        k = k + 1;
        assert(r@ =~= s@.subrange(a as int, k as int));
    }
    r
}

/// Reads the characters `t` as a number literal.
pub fn decimal_from_chars(t: &Vec<char>) -> (r: Option<Decimal>)
    ensures
        match r {
            Some(d) => decimal_of(t@) == Some(d@),
            None => decimal_of(t@) is None,
        },
{
    let len = t.len();
    let sign: usize = if len > 0 && t[0] == '-' { 1 } else { 0 };
    let whole = digit_run(t, sign);
    if whole == 0 {
        return None;
    }
    let dot = sign + whole;
    proof {
        lemma_digit_run(t@, sign as int);
    }
    let int_digits = digit_vec(t, sign, dot);
    if dot == len {
        return Some(Decimal { negative: sign == 1, int_digits, frac_digits: Vec::new() });
    }
    if t[dot] != '.' {
        return None;
    }
    let frac = digit_run(t, dot + 1);
    if frac > 0 && dot + 1 + frac == len {
        proof {
            lemma_digit_run(t@, dot + 1);
        }
        let frac_digits = digit_vec(t, dot + 1, len);
        Some(Decimal { negative: sign == 1, int_digits, frac_digits })
    } else {
        None
    }
}

/// Turns the parse tree `node` of the characters `s` into an expression.
pub fn build_expr(node: &Node, s: &Vec<char>) -> (r: Result<Expr, BuildError>)
    ensures
        match r {
            Ok(e) => build(*node, s@) == Ok::<ExprModel, BuildError>(e@),
            Err(x) => build(*node, s@) == Err::<ExprModel, BuildError>(x),
        },
    decreases node,
{
    match node.rule {
        Rule::Input | Rule::Expression => match &node.first {
            Some(c) => build_expr(c, s),
            None => Err(BuildError::EmptyExpression),
        },
        Rule::Num => {
            let bad = BuildError::MalformedNumber { start: node.start, end: node.end };
            if node.start <= node.end && node.end <= s.len() {
                let t = span_chars(s, node.start, node.end);
                match decimal_from_chars(&t) {
                    Some(d) => Ok(Expr::Num(d)),
                    None => Err(bad),
                }
            } else {
                Err(bad)
            }
        },
        Rule::Sin | Rule::Cos | Rule::Tan | Rule::Exp | Rule::Ln => {
            let c = match &node.first {
                Some(c) => c,
                None => return Err(BuildError::MissingArgument),
            };
            let x = match build_expr(c, s) {
                Ok(x) => Box::new(x),
                Err(e) => return Err(e),
            };
            Ok(
                match node.rule {
                    Rule::Sin => Expr::Sin(x),
                    Rule::Cos => Expr::Cos(x),
                    Rule::Tan => Expr::Tan(x),
                    Rule::Exp => Expr::Exp(x),
                    _ => Expr::Ln(x),
                },
            )
        },
        _ => {
            let left = match &node.first {
                Some(c) => c,
                None => return Err(BuildError::MissingLeft),
            };
            let right = match &node.second {
                Some(c) => c,
                None => return Err(BuildError::MissingRight),
            };
            let a = match build_expr(left, s) {
                Ok(x) => Box::new(x),
                Err(e) => return Err(e),
            };
            let b = match build_expr(right, s) {
                Ok(x) => Box::new(x),
                Err(e) => return Err(e),
            };
            Ok(
                match node.rule {
                    Rule::Plus => Expr::Add(a, b),
                    Rule::Minus => Expr::Sub(a, b),
                    Rule::Multiply => Expr::Mul(a, b),
                    Rule::Divide => Expr::Div(a, b),
                    Rule::Pow => Expr::Pow(a, b),
                    Rule::Root => Expr::Root(a, b),
                    _ => Expr::Log(a, b),
                },
            )
        },
    }
}

/// Parses `input` into an expression tree.
pub fn parse_expression(input: &str) -> (r: Result<Expr, ParseError>)
    ensures
        match r {
            Ok(e) => parse_spec(input@) == Ok::<ExprModel, ParseError>(e@),
            Err(x) => parse_spec(input@) == Err::<ExprModel, ParseError>(x),
        },
{
    let s = chars_of(input);
    match Grammar::parse_chars(&s) {
        Err(e) => Err(ParseError::Syntax(e)),
        Ok(n) => match build_expr(&n, &s) {
            Err(e) => Err(ParseError::Structure(e)),
            Ok(x) => Ok(x),
        },
    }
}

/// The characters of the digit values `ds`.
pub open spec fn digit_chars(ds: Seq<u8>) -> Seq<char> {
    Seq::new(ds.len(), |j: int| ds[j].wrapping_add(48) as char)
}

/// How the literal `d` is written: `-` when it is negative, its whole
/// digits, then `.` and its fraction digits where it has any.
pub open spec fn literal_text(d: DecimalModel) -> Seq<char> {
    let sign = if d.negative { seq!['-'] } else { Seq::empty() };
    let frac = if d.frac_digits.len() == 0 {
        Seq::empty()
    } else {
        seq!['.'] + digit_chars(d.frac_digits)
    };
    sign + digit_chars(d.int_digits) + frac
}

/// Whether every value of `ds` is a digit value.
pub open spec fn all_digit_values(ds: Seq<u8>) -> bool {
    forall|j: int| 0 <= j < ds.len() ==> #[trigger] ds[j] < 10
}

proof fn lemma_digit_len_exact(t: Seq<char>, i: int, k: int)
    requires
        0 <= i,
        0 <= k,
        i + k <= t.len(),
        forall|j: int| i <= j < i + k ==> is_digit(#[trigger] t[j]),
        i + k == t.len() || !is_digit(t[i + k]),
    ensures
        digit_len(t, i) == k,
    decreases k,
{
    if k > 0 {
        lemma_digit_len_exact(t, i + 1, k - 1);
    }
}

/// A number literal written in the usual decimal way parses to exactly
/// that literal: the same sign, the same whole digits and the same
/// fraction digits, hence the same value. (The text must fit in memory.)
pub proof fn lemma_literal_parses(d: DecimalModel)
    requires
        d.int_digits.len() > 0,
        all_digit_values(d.int_digits),
        all_digit_values(d.frac_digits),
        literal_text(d).len() <= usize::MAX,
    ensures
        parse_spec(literal_text(d)) == Ok::<ExprModel, ParseError>(ExprModel::Num(d)),
{
    let t = literal_text(d);
    let sign: int = if d.negative { 1 } else { 0 };
    let ints = digit_chars(d.int_digits);
    let fracs = digit_chars(d.frac_digits);
    let dot = sign + ints.len();
    assert forall|j: int| sign <= j < dot implies is_digit(#[trigger] t[j]) && t[j] == ints[j
        - sign] by {
        assert(d.int_digits[j - sign] < 10);
    }
    lemma_digit_len_exact(t, sign, ints.len() as int);
    if fracs.len() > 0 {
        assert(t[dot] == '.');
        assert forall|j: int| dot + 1 <= j < t.len() implies is_digit(#[trigger] t[j]) && t[j]
            == fracs[j - dot - 1] by {
            assert(d.frac_digits[j - dot - 1] < 10);
        }
        lemma_digit_len_exact(t, dot + 1, fracs.len() as int);
        assert(digit_values(t.subrange(dot + 1, t.len() as int)) =~= d.frac_digits);
    } else {
        assert(t.len() == dot);
        assert(d.frac_digits =~= Seq::<u8>::empty());
    }
    assert(t[sign] == ints[0]);
    assert(d.negative <==> (t.len() > 0 && t[0] == '-'));
    assert(digit_values(t.subrange(sign, dot)) =~= d.int_digits);
    assert(blank_len(t, 0) == 0);
    assert(number_len(t, 0) == t.len());
    assert(blank_len(t, t.len() as int) == 0);
    assert(t.subrange(0, t.len() as int) =~= t);
    assert(decimal_of(t) == Some(d));
    reveal_with_fuel(build, 3);
}


/// The characters of a number that the grammar matched spell a literal.
proof fn lemma_number_spells_literal(s: Seq<char>, p: int)
    requires
        0 <= p <= s.len(),
        number_len(s, p) > 0,
    ensures
        p + number_len(s, p) <= s.len(),
        decimal_of(s.subrange(p, p + number_len(s, p))) is Some,
{
    let n = number_len(s, p);
    let sign: int = if p < s.len() && s[p] == '-' { 1 } else { 0 };
    let whole = digit_len(s, p + sign);
    let dot = p + sign + whole;
    lemma_digit_run(s, p + sign);
    if 0 <= dot < s.len() && s[dot] == '.' && digit_len(s, dot + 1) > 0 {
        lemma_digit_run(s, dot + 1);
    }
    let t = s.subrange(p, p + n);
    assert forall|j: int| sign <= j < sign + whole implies is_digit(#[trigger] t[j]) by {
        assert(t[j] == s[p + j]);
    }
    lemma_digit_len_exact(t, sign, whole as int);
    if n > sign + whole {
        let frac = digit_len(s, dot + 1);
        assert forall|j: int| sign + whole + 1 <= j < n implies is_digit(#[trigger] t[j]) by {
            assert(t[j] == s[p + j]);
        }
        lemma_digit_len_exact(t, sign + whole + 1, frac as int);
    }
}

proof fn lemma_expression_builds(s: Seq<char>, i: int)
    requires
        s.len() <= usize::MAX,
    ensures
        expression_at(s, i) matches Ok((n, used)) ==> build(n, s) is Ok && i + used <= s.len(),
    decreases s.len() - i, 1int,
{
    let p = i + blank_len(s, i);
    lemma_blank_run(s, i);
    if 0 <= i <= s.len() {
        if number_len(s, p) > 0 {
            lemma_number_spells_literal(s, p);
            reveal_with_fuel(build, 2);
        } else if p < s.len() && s[p] == '(' {
            lemma_binary_builds(s, i, p);
        } else {
            lemma_call_builds(s, i, p);
        }
    }
}

proof fn lemma_blank_run(s: Seq<char>, i: int)
    ensures
        0 <= i <= s.len() ==> i + blank_len(s, i) <= s.len(),
    decreases s.len() - i,
{
    if 0 <= i < s.len() && is_blank(s[i]) {
        lemma_blank_run(s, i + 1);
    }
}

proof fn lemma_binary_builds(s: Seq<char>, i: int, p: int)
    requires
        s.len() <= usize::MAX,
    ensures
        binary_at(s, i, p) matches Ok((n, used)) ==> build(n, s) is Ok && i + used <= s.len(),
    decreases s.len() - i, 0int,
{
    if 0 <= i <= p < s.len() {
        lemma_expression_builds(s, p + 1);
        if let Ok((left, used)) = expression_at(s, p + 1) {
            let q = p + 1 + used + blank_len(s, p + 1 + used);
            lemma_blank_run(s, p + 1 + used);
            if q < s.len() && operator_rule(s[q]) is Some {
                lemma_expression_builds(s, q + 1);
                if let Ok((right, used2)) = expression_at(s, q + 1) {
                    lemma_blank_run(s, q + 1 + used2);
                    reveal_with_fuel(build, 2);
                }
            }
        }
    }
}

proof fn lemma_call_builds(s: Seq<char>, i: int, p: int)
    requires
        s.len() <= usize::MAX,
    ensures
        call_at(s, i, p) matches Ok((n, used)) ==> build(n, s) is Ok && i + used <= s.len(),
    decreases s.len() - i, 0int,
{
    if 0 <= i <= p <= s.len() {
        if let Some((f, w)) = function_at(s, p) {
            let o = p + w + blank_len(s, p + w);
            lemma_blank_run(s, p + w);
            if o < s.len() && s[o] == '(' {
                lemma_expression_builds(s, o + 1);
                if let Ok((arg, used)) = expression_at(s, o + 1) {
                    let c = o + 1 + used + blank_len(s, o + 1 + used);
                    lemma_blank_run(s, o + 1 + used);
                    if !is_unary(f) && c < s.len() && s[c] == ',' {
                        lemma_expression_builds(s, c + 1);
                        if let Ok((arg2, used2)) = expression_at(s, c + 1) {
                            lemma_blank_run(s, c + 1 + used2);
                        }
                    }
                    reveal_with_fuel(build, 2);
                }
            }
        }
    }
}

/// A text that the grammar accepts always becomes an expression: the
/// trees that the grammar builds have the shape that the builder needs, so
/// a structural error never comes out of `parse_expression`.
pub proof fn lemma_accepted_text_builds(s: Seq<char>)
    requires
        s.len() <= usize::MAX,
    ensures
        parse_input(s) is Ok ==> parse_spec(s) is Ok,
{
    lemma_expression_builds(s, 0);
    reveal_with_fuel(build, 2);
}

} // verus!
