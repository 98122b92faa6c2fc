//! Validation and normalisation of a raw expression.
//!
//! Every whitespace character of the raw text is taken out; every position
//! that a diagnostic names refers to that "primitive" text. A primitive text that
//! passes every rule gets an explicit `0` before each sign that has no left
//! operand.
use vstd::prelude::*;

use crate::tree::SyntaxError;

verus! {

/// What a rejected expression did wrong.
#[derive(Clone, Copy, Debug, PartialEq, Eq, Structural)]
pub enum Fault {
    IllegalCharacter,
    ImproperBraces,
    UnclosedBraces,
    LeadingOperator,
    AdjacentOperators,
    NumberEndsWithPoint,
    MissingFirstOperand,
    OperandBeforeBrace,
    EmptyBraces,
    MissingSecondOperand,
    MissingOperator,
    MisplacedPoint,
    TrailingPoint,
    TrailingOperator,
}

impl Fault {
    pub open spec fn text(self) -> Seq<char> {
        match self {
            Fault::IllegalCharacter => "Illegal character."@,
            Fault::ImproperBraces => "Improper use of braces."@,
            Fault::UnclosedBraces => "Braces are not closed properly."@,
            Fault::LeadingOperator => "1st operand is missing."@,
            Fault::AdjacentOperators => "Two operators must have an operand between them"@,
            Fault::NumberEndsWithPoint => "A number can't end with a decimal point."@,
            Fault::MissingFirstOperand => "First operand is missing."@,
            Fault::OperandBeforeBrace => "Two operands must have an operator between them."@,
            Fault::EmptyBraces => "Empty braces Found."@,
            Fault::MissingSecondOperand => "2nd operand is missing."@,
            Fault::MissingOperator => "Operator is missing"@,
            Fault::MisplacedPoint => "Decimal point found at inappropriate position"@,
            Fault::TrailingPoint => "Decimal at inappropriate position."@,
            Fault::TrailingOperator => "2nd operator is missing."@,
        }
    }

    /// The message shown for this fault.
    pub fn message(self) -> (r: String)
        ensures
            r@ == self.text(),
    {
        match self {
            Fault::IllegalCharacter => "Illegal character.".to_owned(),
            Fault::ImproperBraces => "Improper use of braces.".to_owned(),
            Fault::UnclosedBraces => "Braces are not closed properly.".to_owned(),
            Fault::LeadingOperator => "1st operand is missing.".to_owned(),
            Fault::AdjacentOperators => "Two operators must have an operand between them".to_owned(),
            Fault::NumberEndsWithPoint => "A number can't end with a decimal point.".to_owned(),
            Fault::MissingFirstOperand => "First operand is missing.".to_owned(),
            Fault::OperandBeforeBrace => "Two operands must have an operator between them.".to_owned(),
            Fault::EmptyBraces => "Empty braces Found.".to_owned(),
            Fault::MissingSecondOperand => "2nd operand is missing.".to_owned(),
            Fault::MissingOperator => "Operator is missing".to_owned(),
            Fault::MisplacedPoint => "Decimal point found at inappropriate position".to_owned(),
            Fault::TrailingPoint => "Decimal at inappropriate position.".to_owned(),
            Fault::TrailingOperator => "2nd operator is missing.".to_owned(),
        }
    }
}

/// The kind of a character, as the adjacency rules see it.
#[derive(Clone, Copy, Debug, PartialEq, Eq, Structural)]
pub enum Symbol {
    Add,
    Sub,
    Mul,
    Div,
    OpBr,
    ClBr,
    Dig,
    Dec,
    Non,
}

pub open spec fn is_white(c: char) -> bool {
    c == '\t' || c == '\n' || c == '\u{0B}' || c == '\u{0C}' || c == '\r' || c == ' '
        || c == '\u{85}' || c == '\u{A0}' || c == '\u{1680}' || ('\u{2000}' <= c && c
        <= '\u{200A}') || c == '\u{2028}' || c == '\u{2029}' || c == '\u{202F}' || c
        == '\u{205F}' || c == '\u{3000}'
}

pub open spec fn is_digit_char(c: char) -> bool {
    '0' <= c && c <= '9'
}

pub open spec fn is_op_char(c: char) -> bool {
    c == '+' || c == '-' || c == '*' || c == '/'
}

pub open spec fn is_legal(c: char) -> bool {
    is_digit_char(c) || is_op_char(c) || c == '(' || c == ')' || c == '.'
}

/// `s` with every whitespace character taken out.
pub open spec fn without_white(s: Seq<char>) -> Seq<char>
    decreases s.len(),
{
    if s.len() == 0 {
        s
    } else if is_white(s.last()) {
        without_white(s.drop_last())
    } else {
        without_white(s.drop_last()).push(s.last())
    }
}

/// The text that every diagnostic position refers to.
pub open spec fn primitive(raw: Seq<char>) -> Seq<char> {
    without_white(raw)
}

/// Opening minus closing braces in `s`.
pub open spec fn depth(s: Seq<char>) -> int
    decreases s.len(),
{
    if s.len() == 0 {
        0
    } else {
        depth(s.drop_last()) + if s.last() == '(' {
            1int
        } else if s.last() == ')' {
            -1int
        } else {
            0int
        }
    }
}

/// The first illegal character at or after `i`, or the length.
pub open spec fn first_illegal_from(p: Seq<char>, i: int) -> int
    decreases p.len() - i,
{
    if i >= p.len() {
        p.len() as int
    } else if !is_legal(p[i]) {
        i
    } else {
        first_illegal_from(p, i + 1)
    }
}

/// The first `)` at or after `i` that closes more braces than were opened,
/// or the length.
pub open spec fn first_overclose_from(p: Seq<char>, i: int) -> int
    decreases p.len() - i,
{
    if i >= p.len() || i < 0 {
        p.len() as int
    } else if p[i] == ')' && depth(p.subrange(0, i)) <= 0 {
        i
    } else {
        first_overclose_from(p, i + 1)
    }
}

pub open spec fn symbol_of(c: char) -> Symbol {
    if c == '+' {
        Symbol::Add
    } else if c == '-' {
        Symbol::Sub
    } else if c == '*' {
        Symbol::Mul
    } else if c == '/' {
        Symbol::Div
    } else if c == '(' {
        Symbol::OpBr
    } else if c == ')' {
        Symbol::ClBr
    } else if is_digit_char(c) {
        Symbol::Dig
    } else if c == '.' {
        Symbol::Dec
    } else {
        Symbol::Non
    }
}

pub open spec fn is_op_symbol(s: Symbol) -> bool {
    s == Symbol::Add || s == Symbol::Sub || s == Symbol::Mul || s == Symbol::Div
}

/// The rule that `cur` breaks by standing right after `prev`, if any.
pub open spec fn pair_fault_of(prev: Symbol, cur: Symbol) -> Option<Fault> {
    match cur {
        Symbol::Add | Symbol::Sub => if is_op_symbol(prev) {
            Some(Fault::AdjacentOperators)
        } else if prev == Symbol::Dec {
            Some(Fault::NumberEndsWithPoint)
        } else {
            None
        },
        Symbol::Mul | Symbol::Div => if is_op_symbol(prev) {
            Some(Fault::AdjacentOperators)
        } else if prev == Symbol::Dec {
            Some(Fault::NumberEndsWithPoint)
        } else if prev == Symbol::OpBr {
            Some(Fault::MissingFirstOperand)
        } else {
            None
        },
        Symbol::OpBr => if prev == Symbol::ClBr || prev == Symbol::Dig {
            Some(Fault::OperandBeforeBrace)
        } else if prev == Symbol::Dec {
            Some(Fault::NumberEndsWithPoint)
        } else {
            None
        },
        Symbol::ClBr => if prev == Symbol::Dec {
            Some(Fault::NumberEndsWithPoint)
        } else if prev == Symbol::OpBr {
            Some(Fault::EmptyBraces)
        } else if is_op_symbol(prev) {
            Some(Fault::MissingSecondOperand)
        } else {
            None
        },
        Symbol::Dig => if prev == Symbol::ClBr {
            Some(Fault::MissingOperator)
        } else {
            None
        },
        Symbol::Dec => if prev == Symbol::ClBr {
            Some(Fault::MisplacedPoint)
        } else {
            None
        },
        Symbol::Non => None,
    }
}

/// The rule that `cur` breaks by being the last character, if any.
pub open spec fn end_fault_of(cur: Symbol) -> Option<Fault> {
    if cur == Symbol::Dec {
        Some(Fault::TrailingPoint)
    } else if is_op_symbol(cur) {
        Some(Fault::TrailingOperator)
    } else {
        None
    }
}

/// The first adjacency rule broken at or after position `i`.
pub open spec fn grammar_fault_from(p: Seq<char>, i: int) -> Option<(int, Fault)>
    decreases p.len() - i,
{
    if i >= p.len() || i < 0 {
        None
    } else if i == 0 {
        let s = symbol_of(p[0]);
        if s == Symbol::Mul || s == Symbol::Div {
            Some((0, Fault::LeadingOperator))
        } else if p.len() == 1 && end_fault_of(s) is Some {
            Some((0, end_fault_of(s)->0))
        } else {
            grammar_fault_from(p, 1)
        }
    } else {
        match pair_fault_of(symbol_of(p[i - 1]), symbol_of(p[i])) {
            Some(f) => Some((i, f)),
            None => if i == p.len() - 1 && end_fault_of(symbol_of(p[i])) is Some {
                Some((i, end_fault_of(symbol_of(p[i]))->0))
            } else {
                grammar_fault_from(p, i + 1)
            },
        }
    }
}

/// A sign at position `i` that has no left operand.
pub open spec fn needs_zero(s: Seq<char>, i: int) -> bool {
    (s[i] == '+' || s[i] == '-') && (i == 0 || s[i - 1] == '(')
}

/// `s` with a `0` put before each sign that has no left operand.
pub open spec fn with_zeros(s: Seq<char>) -> Seq<char>
    decreases s.len(),
{
    if s.len() == 0 {
        s
    } else {
        let k = s.len() - 1;
        with_zeros(s.drop_last()) + if needs_zero(s, k) {
            seq!['0', s[k]]
        } else {
            seq![s[k]]
        }
    }
}

/// What preprocessing gives for a raw expression: the normalised text, or
/// the position and kind of the first rule that it breaks.
pub open spec fn preprocessed(raw: Seq<char>) -> Result<Seq<char>, (int, Fault)> {
    let p = primitive(raw);
    let il = first_illegal_from(p, 0);
    let oc = first_overclose_from(p, 0);
    if il < p.len() {
        Err((il, Fault::IllegalCharacter))
    } else if oc < p.len() {
        Err((oc, Fault::ImproperBraces))
    } else if depth(p) != 0 {
        Err((p.len() - 1, Fault::UnclosedBraces))
    } else {
        match grammar_fault_from(p, 0) {
            Some(e) => Err(e),
            None => Ok(with_zeros(p)),
        }
    }
}

fn is_white_char(c: char) -> (r: bool)
    ensures
        r == is_white(c),
{
    c == '\t' || c == '\n' || c == '\u{0B}' || c == '\u{0C}' || c == '\r' || c == ' '
        || c == '\u{85}' || c == '\u{A0}' || c == '\u{1680}' || ('\u{2000}' <= c && c
        <= '\u{200A}') || c == '\u{2028}' || c == '\u{2029}' || c == '\u{202F}' || c
        == '\u{205F}' || c == '\u{3000}'
}

fn is_legal_char(c: char) -> (r: bool)
    ensures
        r == is_legal(c),
{
    ('0' <= c && c <= '9') || c == '+' || c == '-' || c == '*' || c == '/' || c == '('
        || c == ')' || c == '.'
}

fn symbol(c: char) -> (r: Symbol)
    ensures
        r == symbol_of(c),
{
    if c == '+' {
        Symbol::Add
    } else if c == '-' {
        Symbol::Sub
    } else if c == '*' {
        Symbol::Mul
    } else if c == '/' {
        Symbol::Div
    } else if c == '(' {
        Symbol::OpBr
    } else if c == ')' {
        Symbol::ClBr
    } else if '0' <= c && c <= '9' {
        Symbol::Dig
    } else if c == '.' {
        Symbol::Dec
    } else {
        Symbol::Non
    }
}

fn is_op_sym(s: Symbol) -> (r: bool)
    ensures
        r == is_op_symbol(s),
{
    s == Symbol::Add || s == Symbol::Sub || s == Symbol::Mul || s == Symbol::Div
}

fn pair_fault(prev: Symbol, cur: Symbol) -> (r: Option<Fault>)
    ensures
        r == pair_fault_of(prev, cur),
{
    match cur {
        Symbol::Add | Symbol::Sub => if is_op_sym(prev) {
            Some(Fault::AdjacentOperators)
        } else if prev == Symbol::Dec {
            Some(Fault::NumberEndsWithPoint)
        } else {
            None
        },
        Symbol::Mul | Symbol::Div => if is_op_sym(prev) {
            Some(Fault::AdjacentOperators)
        } else if prev == Symbol::Dec {
            Some(Fault::NumberEndsWithPoint)
        } else if prev == Symbol::OpBr {
            Some(Fault::MissingFirstOperand)
        } else {
            None
        },
        Symbol::OpBr => if prev == Symbol::ClBr || prev == Symbol::Dig {
            Some(Fault::OperandBeforeBrace)
        } else if prev == Symbol::Dec {
            Some(Fault::NumberEndsWithPoint)
        } else {
            None
        },
        Symbol::ClBr => if prev == Symbol::Dec {
            Some(Fault::NumberEndsWithPoint)
        } else if prev == Symbol::OpBr {
            Some(Fault::EmptyBraces)
        } else if is_op_sym(prev) {
            Some(Fault::MissingSecondOperand)
        } else {
            None
        },
        Symbol::Dig => if prev == Symbol::ClBr {
            Some(Fault::MissingOperator)
        } else {
            None
        },
        Symbol::Dec => if prev == Symbol::ClBr {
            Some(Fault::MisplacedPoint)
        } else {
            None
        },
        Symbol::Non => None,
    }
}

fn end_fault(cur: Symbol) -> (r: Option<Fault>)
    ensures
        r == end_fault_of(cur),
{
    if cur == Symbol::Dec {
        Some(Fault::TrailingPoint)
    } else if is_op_sym(cur) {
        Some(Fault::TrailingOperator)
    } else {
        None
    }
}

/// The characters of `raw` with every whitespace character taken out.
pub fn primitive_chars(raw: &str) -> (r: Vec<char>)
    ensures
        r@ == primitive(raw@),
{
    let n = raw.unicode_len();
    let mut out: Vec<char> = Vec::new();
    let mut i: usize = 0;
    while i < n
        invariant
            i <= n,
            n == raw@.len(),
            out@ == without_white(raw@.subrange(0, i as int)),
        decreases n - i,
    {
        let c = raw.get_char(i);
        assert(raw@.subrange(0, i + 1).drop_last() =~= raw@.subrange(0, i as int));
        if !is_white_char(c) {
            out.push(c);
        }
        i += 1;
    }
    assert(raw@.subrange(0, n as int) =~= raw@);
    out
}

/// Validates `raw` and puts an explicit `0` before each sign that lacks a
/// left operand. On failure the error names the first rule broken, in
/// the order of the checks, at its position in the primitive text.
pub fn preprocess(raw: &str) -> (r: Result<Vec<char>, SyntaxError>)
    ensures
        match preprocessed(raw@) {
            Ok(t) => r is Ok && r->Ok_0@ == t,
            Err((i, f)) => r is Err && r->Err_0.index == i && r->Err_0.message@ == f.text(),
        },
{
    let p = primitive_chars(raw);
    let n = p.len();
    let mut i: usize = 0;
    while i < n && is_legal_char(p[i])
        invariant
            i <= n,
            n == p@.len(),
            p@ == primitive(raw@),
            first_illegal_from(p@, 0) == first_illegal_from(p@, i as int),
        decreases n - i,
    {
        i += 1;
    }
    if i < n {
        return Err(SyntaxError { index: i, message: Fault::IllegalCharacter.message() });
    }
    let mut opb: usize = 0;
    let mut clb: usize = 0;
    i = 0;
    while i < n
        invariant
            i <= n,
            n == p@.len(),
            opb <= i,
            clb <= i,
            opb - clb == depth(p@.subrange(0, i as int)),
            p@ == primitive(raw@),
            first_illegal_from(p@, 0) == n,
            first_overclose_from(p@, 0) == first_overclose_from(p@, i as int),
        decreases n - i,
    {
        assert(p@.subrange(0, i + 1).drop_last() =~= p@.subrange(0, i as int));
        if p[i] == ')' {
            if clb >= opb {
                return Err(SyntaxError { index: i, message: Fault::ImproperBraces.message() });
            }
            clb += 1;
        } else if p[i] == '(' {
            opb += 1;
        }
        i += 1;
    }
    assert(p@.subrange(0, n as int) =~= p@);
    if opb != clb {
        return Err(SyntaxError { index: n - 1, message: Fault::UnclosedBraces.message() });
    }
    if n > 0 {
        let s0 = symbol(p[0]);
        if s0 == Symbol::Mul || s0 == Symbol::Div {
            return Err(SyntaxError { index: 0, message: Fault::LeadingOperator.message() });
        }
        if n == 1 {
            match end_fault(s0) {
                Some(f) => {
                    return Err(SyntaxError { index: 0, message: f.message() });
                },
                None => {},
            }
        }
        i = 1;
        while i < n
            invariant
                1 <= i <= n,
                n == p@.len(),
                p@ == primitive(raw@),
                first_illegal_from(p@, 0) == n,
                first_overclose_from(p@, 0) == n,
                depth(p@) == 0,
                grammar_fault_from(p@, 0) == grammar_fault_from(p@, i as int),
            decreases n - i,
        {
            let cur = symbol(p[i]);
            match pair_fault(symbol(p[i - 1]), cur) {
                Some(f) => {
                    return Err(SyntaxError { index: i, message: f.message() });
                },
                None => {},
            }
            if i == n - 1 {
                match end_fault(cur) {
                    Some(f) => {
                        return Err(SyntaxError { index: i, message: f.message() });
                    },
                    None => {},
                }
            }
            i += 1;
        }
    }
    let mut out: Vec<char> = Vec::new();
    i = 0;
    while i < n
        invariant
            i <= n,
            n == p@.len(),
            out@ == with_zeros(p@.subrange(0, i as int)),
            p@ == primitive(raw@),
            first_illegal_from(p@, 0) == n,
            first_overclose_from(p@, 0) == n,
            depth(p@) == 0,
            grammar_fault_from(p@, 0) is None,
        decreases n - i,
    {
        let ghost sub = p@.subrange(0, i + 1);
        assert(sub.drop_last() =~= p@.subrange(0, i as int));
        let c = p[i];
        if (c == '+' || c == '-') && (i == 0 || p[i - 1] == '(') {
            out.push('0');
        }
        out.push(c);
        assert(out@ =~= with_zeros(sub));
        i += 1;
    }
    assert(p@.subrange(0, n as int) =~= p@);
    Ok(out)
}

} // verus!
