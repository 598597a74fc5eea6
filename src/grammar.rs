//! The expression grammar and its parser, which turns text into a concrete
//! parse tree.
//!
//! The accepted language:
//!
//! ```text
//! input      = expression, then nothing but blanks up to the end
//! expression = number | "(" expression operator expression ")"
//!            | unary "(" expression ")" | binary "(" expression "," expression ")"
//! number     = ["-"] digit+ ["." digit+]
//! operator   = "+" | "-" | "*" | "/"
//! unary      = "sin" | "cos" | "tan" | "exp" | "ln"
//! binary     = "pow" | "root" | "log"
//! ```
//!
//! Blanks (spaces and tabs) may stand before every token and at the end of
//! the input; none may stand inside a number or inside a function name.
//! Which alternative of `expression` applies is decided by its first
//! character after blanks: a digit or `-` starts a number, `(` a binary form,
//! anything else a function call.
use vstd::prelude::*;

verus! {

/// The tag of a node of the concrete parse tree.
#[derive(Clone, Copy, Debug, PartialEq, Eq, Structural)]
pub enum Rule {
    Input,
    Expression,
    Num,
    Plus,
    Minus,
    Multiply,
    Divide,
    Sin,
    Cos,
    Tan,
    Exp,
    Ln,
    Pow,
    Root,
    Log,
}

/// What the parser was looking for where it stopped.
#[derive(Clone, Copy, Debug, PartialEq, Eq, Structural)]
pub enum Expected {
    Expression,
    Operator,
    OpenParen,
    Comma,
    CloseParen,
    EndOfInput,
}

/// A failed parse: the character position at which it stopped, and what
/// would have been accepted there.
#[derive(Clone, Copy, Debug, PartialEq, Eq, Structural)]
pub struct SyntaxError {
    pub position: usize,
    pub expected: Expected,
}

/// A node of the concrete parse tree: its rule, the characters `start..end`
/// of the input that it covers, and its children in order.
#[derive(Debug)]
pub struct Node {
    pub rule: Rule,
    pub start: usize,
    pub end: usize,
    pub first: Option<Box<Node>>,
    pub second: Option<Box<Node>>,
}

/// The grammar of expressions; `Grammar::parse` is its entry point.
pub struct Grammar;

pub open spec fn is_blank(c: char) -> bool {
    c == ' ' || c == '\t'
}

pub open spec fn is_digit(c: char) -> bool {
    '0' <= c && c <= '9'
}

/// Number of blanks in the run that starts at `i`.
pub open spec fn blank_len(s: Seq<char>, i: int) -> nat
    decreases s.len() - i,
{
    if 0 <= i < s.len() && is_blank(s[i]) {
        1 + blank_len(s, i + 1)
    } else {
        0
    }
}

/// Number of digits in the run that starts at `i`.
pub open spec fn digit_len(s: Seq<char>, i: int) -> nat
    decreases s.len() - i,
{
    if 0 <= i < s.len() && is_digit(s[i]) {
        1 + digit_len(s, i + 1)
    } else {
        0
    }
}

/// Length of the number literal that starts at `i`; 0 where none does.
pub open spec fn number_len(s: Seq<char>, i: int) -> nat {
    let sign: nat = if 0 <= i < s.len() && s[i] == '-' { 1 } else { 0 };
    let whole = digit_len(s, i + sign);
    let dot = i + sign + whole;
    if whole == 0 {
        0
    } else if 0 <= dot < s.len() && s[dot] == '.' && digit_len(s, dot + 1) > 0 {
        sign + whole + 1 + digit_len(s, dot + 1)
    } else {
        sign + whole
    }
}

/// The rule of an infix operator character.
pub open spec fn operator_rule(c: char) -> Option<Rule> {
    if c == '+' {
        Some(Rule::Plus)
    } else if c == '-' {
        Some(Rule::Minus)
    } else if c == '*' {
        Some(Rule::Multiply)
    } else if c == '/' {
        Some(Rule::Divide)
    } else {
        None
    }
}

/// Whether the word `w` stands in `s` at `i`.
pub open spec fn word_at(s: Seq<char>, i: int, w: Seq<char>) -> bool {
    0 <= i && i + w.len() <= s.len() && s.subrange(i, i + w.len()) == w
}

/// The function name that starts at `i`, with its length.
pub open spec fn function_at(s: Seq<char>, i: int) -> Option<(Rule, nat)> {
    if word_at(s, i, seq!['s', 'i', 'n']) {
        Some((Rule::Sin, 3))
    } else if word_at(s, i, seq!['c', 'o', 's']) {
        Some((Rule::Cos, 3))
    } else if word_at(s, i, seq!['t', 'a', 'n']) {
        Some((Rule::Tan, 3))
    } else if word_at(s, i, seq!['e', 'x', 'p']) {
        Some((Rule::Exp, 3))
    } else if word_at(s, i, seq!['l', 'n']) {
        Some((Rule::Ln, 2))
    } else if word_at(s, i, seq!['p', 'o', 'w']) {
        Some((Rule::Pow, 3))
    } else if word_at(s, i, seq!['r', 'o', 'o', 't']) {
        Some((Rule::Root, 4))
    } else if word_at(s, i, seq!['l', 'o', 'g']) {
        Some((Rule::Log, 3))
    } else {
        None
    }
}

/// Whether the function of `rule` takes one argument.
pub open spec fn is_unary(rule: Rule) -> bool {
    rule == Rule::Sin || rule == Rule::Cos || rule == Rule::Tan || rule == Rule::Exp || rule
        == Rule::Ln
}

/// The node of `rule` over `start..end` with the given children.
pub open spec fn mk_node(
    rule: Rule,
    start: int,
    end: int,
    first: Option<Node>,
    second: Option<Node>,
) -> Node {
    Node {
        rule,
        start: start as usize,
        end: end as usize,
        first: match first {
            Some(n) => Some(Box::new(n)),
            None => None,
        },
        second: match second {
            Some(n) => Some(Box::new(n)),
            None => None,
        },
    }
}

/// A failed parse at `position`.
pub open spec fn stop(position: int, expected: Expected) -> Result<(Node, nat), SyntaxError> {
    Err(SyntaxError { position: position as usize, expected })
}

/// An `expression` node over `start..end` whose one child is `inner`.
pub open spec fn wrapped(inner: Node, start: int, end: int, from: int) -> Result<
    (Node, nat),
    SyntaxError,
> {
    Ok((mk_node(Rule::Expression, start, end, Some(inner), None), (end - from) as nat))
}

/// The parse of the expression that starts at `i` (after optional blanks):
/// its `expression` node and the number of characters consumed from `i`,
/// or where and why it fails.
pub open spec fn expression_at(s: Seq<char>, i: int) -> Result<(Node, nat), SyntaxError>
    decreases s.len() - i, 1int,
{
    let p = i + blank_len(s, i);
    let n = number_len(s, p);
    if i < 0 || i > s.len() {
        stop(i, Expected::Expression)
    } else if n > 0 {
        wrapped(mk_node(Rule::Num, p, p + n, None, None), p, p + n, i)
    } else if p < s.len() && s[p] == '(' {
        binary_at(s, i, p)
    } else {
        call_at(s, i, p)
    }
}

/// The parse of `(left op right)` whose parenthesis stands at `p`, for an
/// expression that starts at `i`.
pub open spec fn binary_at(s: Seq<char>, i: int, p: int) -> Result<(Node, nat), SyntaxError>
    decreases s.len() - i, 0int,
{
    if !(0 <= i <= p < s.len()) {
        stop(p, Expected::Expression)
    } else {
        match expression_at(s, p + 1) {
            Err(e) => Err(e),
            Ok((left, used)) => {
                let q = p + 1 + used + blank_len(s, p + 1 + used);
                if q >= s.len() || operator_rule(s[q]) is None {
                    stop(q, Expected::Operator)
                } else {
                    match expression_at(s, q + 1) {
                        Err(e) => Err(e),
                        Ok((right, used2)) => {
                            let t = q + 1 + used2 + blank_len(s, q + 1 + used2);
                            if t < s.len() && s[t] == ')' {
                                let op = operator_rule(s[q])->Some_0;
                                let bin = mk_node(op, p, t + 1, Some(left), Some(right));
                                wrapped(bin, p, t + 1, i)
                            } else {
                                stop(t, Expected::CloseParen)
                            }
                        },
                    }
                }
            },
        }
    }
}

/// The parse of the function call whose name starts at `p`, for an
/// expression that starts at `i`.
pub open spec fn call_at(s: Seq<char>, i: int, p: int) -> Result<(Node, nat), SyntaxError>
    decreases s.len() - i, 0int,
{
    if !(0 <= i <= p <= s.len()) {
        stop(p, Expected::Expression)
    } else {
        match function_at(s, p) {
            None => stop(p, Expected::Expression),
            Some((f, w)) => {
                let o = p + w + blank_len(s, p + w);
                if !(o < s.len() && s[o] == '(') {
                    stop(o, Expected::OpenParen)
                } else {
                    match expression_at(s, o + 1) {
                        Err(e) => Err(e),
                        Ok((arg, used)) => {
                            let c = o + 1 + used + blank_len(s, o + 1 + used);
                            if is_unary(f) {
                                if c < s.len() && s[c] == ')' {
                                    wrapped(mk_node(f, p, c + 1, Some(arg), None), p, c + 1, i)
                                } else {
                                    stop(c, Expected::CloseParen)
                                }
                            } else if !(c < s.len() && s[c] == ',') {
                                stop(c, Expected::Comma)
                            } else {
                                match expression_at(s, c + 1) {
                                    Err(e) => Err(e),
                                    Ok((arg2, used2)) => {
                                        let t = c + 1 + used2 + blank_len(s, c + 1 + used2);
                                        if t < s.len() && s[t] == ')' {
                                            let call = mk_node(f, p, t + 1, Some(arg), Some(arg2));
                                            wrapped(call, p, t + 1, i)
                                        } else {
                                            stop(t, Expected::CloseParen)
                                        }
                                    },
                                }
                            }
                        },
                    }
                }
            },
        }
    }
}

/// The parse of a whole input: an `input` node over all of `s` whose child
/// is the expression, or where and why it fails.
pub open spec fn parse_input(s: Seq<char>) -> Result<Node, SyntaxError> {
    match expression_at(s, 0) {
        Err(e) => Err(e),
        Ok((e, used)) => {
            let t = used + blank_len(s, used as int);
            if t == s.len() {
                Ok(mk_node(Rule::Input, 0, s.len() as int, Some(e), None))
            } else {
                Err(SyntaxError { position: t as usize, expected: Expected::EndOfInput })
            }
        },
    }
}

fn blank_run(s: &Vec<char>, i: usize) -> (r: usize)
    requires
        i <= s@.len(),
    ensures
        r == blank_len(s@, i as int),
        i + r <= s@.len(),
{
    let mut j: usize = i;
    while j < s.len() && (s[j] == ' ' || s[j] == '\t')
        invariant
            i <= j <= s@.len(),
            blank_len(s@, i as int) == (j - i) + blank_len(s@, j as int),
        decreases s@.len() - j,
    {
        j = j + 1;
    }
    j - i
}

pub(crate) fn digit_run(s: &Vec<char>, i: usize) -> (r: usize)
    requires
        i <= s@.len(),
    ensures
        r == digit_len(s@, i as int),
        i + r <= s@.len(),
{
    let mut j: usize = i;
    while j < s.len() && '0' <= s[j] && s[j] <= '9'
        invariant
            i <= j <= s@.len(),
            digit_len(s@, i as int) == (j - i) + digit_len(s@, j as int),
        decreases s@.len() - j,
    {
        j = j + 1;
    }
    j - i
}

fn number_run(s: &Vec<char>, i: usize) -> (r: usize)
    requires
        i <= s@.len(),
    ensures
        r == number_len(s@, i as int),
        i + r <= s@.len(),
{
    let sign: usize = if i < s.len() && s[i] == '-' { 1 } else { 0 };
    let whole = digit_run(s, i + sign);
    if whole == 0 {
        return 0;
    }
    let dot = i + sign + whole;
    if dot < s.len() && s[dot] == '.' {
        let frac = digit_run(s, dot + 1);
        if frac > 0 {
            return sign + whole + 1 + frac;
        }
    }
    sign + whole
}

fn word_here(s: &Vec<char>, i: usize, w: &[char]) -> (r: bool)
    requires
        i <= s@.len(),
    ensures
        r == word_at(s@, i as int, w@),
{
    let len = s.len();
    if w.len() > len - i {
        return false;
    }
    let mut k: usize = 0;
    while k < w.len()
        invariant
            len == s@.len(),
            i + w@.len() <= s@.len(),
            k <= w@.len(),
            forall|m: int| 0 <= m < k ==> s@[i + m] == w@[m],
        decreases w@.len() - k,
    {
        if s[i + k] != w[k] {
            assert(s@.subrange(i as int, i + w@.len())[k as int] != w@[k as int]);
            return false;
        }
        k = k + 1;
    }
    assert(s@.subrange(i as int, i + w@.len()) =~= w@);
    true
}

fn function_here(s: &Vec<char>, i: usize) -> (r: Option<(Rule, usize)>)
    requires
        i <= s@.len(),
    ensures
        match r {
            Some((f, w)) => function_at(s@, i as int) == Some((f, w as nat)) && i + w <= s@.len(),
            None => function_at(s@, i as int) is None,
        },
{
    let sin = ['s', 'i', 'n'];
    let cos = ['c', 'o', 's'];
    let tan = ['t', 'a', 'n'];
    let exp = ['e', 'x', 'p'];
    let ln = ['l', 'n'];
    let pow = ['p', 'o', 'w'];
    let root = ['r', 'o', 'o', 't'];
    let log = ['l', 'o', 'g'];
    assert(sin@ =~= seq!['s', 'i', 'n']);
    assert(cos@ =~= seq!['c', 'o', 's']);
    assert(tan@ =~= seq!['t', 'a', 'n']);
    assert(exp@ =~= seq!['e', 'x', 'p']);
    assert(ln@ =~= seq!['l', 'n']);
    assert(pow@ =~= seq!['p', 'o', 'w']);
    assert(root@ =~= seq!['r', 'o', 'o', 't']);
    assert(log@ =~= seq!['l', 'o', 'g']);
    if word_here(s, i, &sin) {
        Some((Rule::Sin, 3))
    } else if word_here(s, i, &cos) {
        Some((Rule::Cos, 3))
    } else if word_here(s, i, &tan) {
        Some((Rule::Tan, 3))
    } else if word_here(s, i, &exp) {
        Some((Rule::Exp, 3))
    } else if word_here(s, i, &ln) {
        Some((Rule::Ln, 2))
    } else if word_here(s, i, &pow) {
        Some((Rule::Pow, 3))
    } else if word_here(s, i, &root) {
        Some((Rule::Root, 4))
    } else if word_here(s, i, &log) {
        Some((Rule::Log, 3))
    } else {
        None
    }
}

fn operator_of(c: char) -> (r: Option<Rule>)
    ensures
        r == operator_rule(c),
{
    if c == '+' {
        Some(Rule::Plus)
    } else if c == '-' {
        Some(Rule::Minus)
    } else if c == '*' {
        Some(Rule::Multiply)
    } else if c == '/' {
        Some(Rule::Divide)
    } else {
        None
    }
}

fn leaf(rule: Rule, start: usize, end: usize) -> (r: Node)
    ensures
        r == mk_node(rule, start as int, end as int, None, None),
{
    Node { rule, start, end, first: None, second: None }
}

fn branch(rule: Rule, start: usize, end: usize, first: Node, second: Option<Node>) -> (r: Node)
    ensures
        r == mk_node(rule, start as int, end as int, Some(first), second),
{
    let second = match second {
        Some(n) => Some(Box::new(n)),
        None => None,
    };
    Node { rule, start, end, first: Some(Box::new(first)), second }
}

/// Whether the result `r` of an executable parse from `i` is the parse
/// `spec_r`, with its end position in place of the consumed length.
pub open spec fn parsed_as(
    r: Result<(Node, usize), SyntaxError>,
    i: int,
    len: int,
    spec_r: Result<(Node, nat), SyntaxError>,
) -> bool {
    match r {
        Ok((n, end)) => i <= end <= len && spec_r == Ok::<(Node, nat), SyntaxError>(
            (n, (end - i) as nat),
        ),
        Err(e) => spec_r == Err::<(Node, nat), SyntaxError>(e),
    }
}

/// Parses the expression that starts at `i`; on success returns its
/// `expression` node and the position just after it.
fn parse_expression_at(s: &Vec<char>, i: usize) -> (r: Result<(Node, usize), SyntaxError>)
    requires
        i <= s@.len(),
    ensures
        parsed_as(r, i as int, s@.len() as int, expression_at(s@, i as int)),
    decreases s@.len() - i, 1int,
{
    let len = s.len();
    let p = i + blank_run(s, i);
    let n = number_run(s, p);
    if n > 0 {
        let num = leaf(Rule::Num, p, p + n);
        Ok((branch(Rule::Expression, p, p + n, num, None), p + n))
    } else if p < len && s[p] == '(' {
        parse_binary_at(s, i, p)
    } else {
        parse_call_at(s, i, p)
    }
}

#[verifier::rlimit(40)]
fn parse_binary_at(s: &Vec<char>, i: usize, p: usize) -> (r: Result<(Node, usize), SyntaxError>)
    requires
        i <= p < s@.len(),
    ensures
        parsed_as(r, i as int, s@.len() as int, binary_at(s@, i as int, p as int)),
    decreases s@.len() - i, 0int,
{
    let len = s.len();
    let (left, e1) = match parse_expression_at(s, p + 1) {
        Ok(x) => x,
        Err(e) => return Err(e),
    };
    let q = e1 + blank_run(s, e1);
    if q >= len {
        return Err(SyntaxError { position: q, expected: Expected::Operator });
    }
    let op = match operator_of(s[q]) {
        Some(op) => op,
        None => return Err(SyntaxError { position: q, expected: Expected::Operator }),
    };
    let (right, e2) = match parse_expression_at(s, q + 1) {
        Ok(x) => x,
        Err(e) => return Err(e),
    };
    let t = e2 + blank_run(s, e2);
    if t < len && s[t] == ')' {
        let bin = branch(op, p, t + 1, left, Some(right));
        Ok((branch(Rule::Expression, p, t + 1, bin, None), t + 1))
    } else {
        Err(SyntaxError { position: t, expected: Expected::CloseParen })
    }
}

#[verifier::rlimit(40)]
fn parse_call_at(s: &Vec<char>, i: usize, p: usize) -> (r: Result<(Node, usize), SyntaxError>)
    requires
        i <= p <= s@.len(),
    ensures
        parsed_as(r, i as int, s@.len() as int, call_at(s@, i as int, p as int)),
    decreases s@.len() - i, 0int,
{
    let len = s.len();
    let (f, w) = match function_here(s, p) {
        Some(x) => x,
        None => return Err(SyntaxError { position: p, expected: Expected::Expression }),
    };
    let o = p + w + blank_run(s, p + w);
    if !(o < len && s[o] == '(') {
        return Err(SyntaxError { position: o, expected: Expected::OpenParen });
    }
    let (arg, e1) = match parse_expression_at(s, o + 1) {
        Ok(x) => x,
        Err(e) => return Err(e),
    };
    let c = e1 + blank_run(s, e1);
    let unary = match f {
        Rule::Sin | Rule::Cos | Rule::Tan | Rule::Exp | Rule::Ln => true,
        _ => false,
    };
    if unary {
        if c < len && s[c] == ')' {
            let call = branch(f, p, c + 1, arg, None);
            return Ok((branch(Rule::Expression, p, c + 1, call, None), c + 1));
        }
        return Err(SyntaxError { position: c, expected: Expected::CloseParen });
    }
    if !(c < len && s[c] == ',') {
        return Err(SyntaxError { position: c, expected: Expected::Comma });
    }
    let (arg2, e2) = match parse_expression_at(s, c + 1) {
        Ok(x) => x,
        Err(e) => return Err(e),
    };
    let t = e2 + blank_run(s, e2);
    if t < len && s[t] == ')' {
        let call = branch(f, p, t + 1, arg, Some(arg2));
        Ok((branch(Rule::Expression, p, t + 1, call, None), t + 1))
    } else {
        Err(SyntaxError { position: t, expected: Expected::CloseParen })
    }
}

/// The characters of `text`, in order.
pub fn chars_of(text: &str) -> (r: Vec<char>)
    ensures
        r@ == text@,
{
    let n = text.unicode_len();
    let mut r: Vec<char> = Vec::new();
    let mut k: usize = 0;
    while k < n
        invariant
            n == text@.len(),
            k <= n,
            r@ == text@.subrange(0, k as int),
        decreases n - k,
    {
        r.push(text.get_char(k));
        k = k + 1;
        assert(r@ =~= text@.subrange(0, k as int));
    }
    assert(r@ =~= text@);
    r
}

impl Grammar {
    /// Parses the characters `s` as a whole input.
    pub fn parse_chars(s: &Vec<char>) -> (r: Result<Node, SyntaxError>)
        ensures
            r == parse_input(s@),
    {
        let len = s.len();
        let (e, end) = match parse_expression_at(s, 0) {
            Ok(x) => x,
            Err(err) => return Err(err),
        };
        let t = end + blank_run(s, end);
        if t == s.len() {
            Ok(branch(Rule::Input, 0, s.len(), e, None))
        } else {
            Err(SyntaxError { position: t, expected: Expected::EndOfInput })
        }
    }

    /// Parses `input` into its concrete parse tree, rooted at an `input`
    /// node; positions count characters.
    pub fn parse(input: &str) -> (r: Result<Node, SyntaxError>)
        ensures
            r == parse_input(input@),
    {
        let s = chars_of(input);
        Grammar::parse_chars(&s)
    }
}

} // verus!
