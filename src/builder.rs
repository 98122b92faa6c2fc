//! Building the expression tree from a normalised expression.
//!
//! Each level strips redundant outer braces, splits the text at its
//! operators outside any brace, folds the pieces into one binary operation
//! by operator priority, and recurses into the operands that are not plain
//! numbers.
use vstd::prelude::*;

use crate::preprocess::{depth, is_digit_char, is_op_char};
use crate::tree::{Node, Operand, Operator, Term};

verus! {

/// Every prefix of `s` closes no more braces than it opens, and `s` closes
/// all that it opens.
pub open spec fn well_nested(s: Seq<char>) -> bool {
    &&& forall|k: int| 0 <= k <= s.len() ==> #[trigger] depth(s.subrange(0, k)) >= 0
    &&& depth(s) == 0
}

/// `e` is one brace pair around a well nested interior.
pub open spec fn denudable(e: Seq<char>) -> bool {
    &&& e.len() >= 2
    &&& e[0] == '('
    &&& e.last() == ')'
    &&& well_nested(e.subrange(1, e.len() - 1))
}

/// `e` with all its redundant outer brace pairs taken away.
pub open spec fn denuded(e: Seq<char>) -> Seq<char>
    decreases e.len(),
{
    if denudable(e) {
        denuded(e.subrange(1, e.len() - 1))
    } else {
        e
    }
}

/// The pieces of `s` between its operators outside any brace, with each
/// such operator as a piece of its own between them.
pub open spec fn pieces(s: Seq<char>) -> Seq<Seq<char>>
    decreases s.len(),
{
    if s.len() == 0 {
        seq![Seq::empty()]
    } else {
        let init = s.drop_last();
        let c = s.last();
        let v = pieces(init);
        if is_op_char(c) && depth(init) == 0 {
            v.push(seq![c]).push(Seq::empty())
        } else {
            v.update(v.len() - 1, v.last().push(c))
        }
    }
}

pub open spec fn is_op_piece(x: Seq<char>) -> bool {
    x.len() == 1 && is_op_char(x[0])
}

/// Operands and single operators, alternating, starting and ending with an
/// operand.
pub open spec fn is_chain(v: Seq<Seq<char>>) -> bool {
    &&& v.len() % 2 == 1
    &&& forall|k: int| 0 <= k < v.len() ==> (is_op_piece(#[trigger] v[k]) <==> k % 2 == 1)
}

pub open spec fn views(v: Seq<Vec<char>>) -> Seq<Seq<char>> {
    v.map_values(|x: Vec<char>| x@)
}

/// The first piece at or after `k` that is the operator `t`, or -1.
pub open spec fn find_from(v: Seq<Seq<char>>, t: char, k: int) -> int
    decreases v.len() - k,
{
    if k >= v.len() || k < 0 {
        -1
    } else if v[k] == seq![t] {
        k
    } else {
        find_from(v, t, k + 1)
    }
}

/// Where the next fold happens: the first `/`, else the first `*`, else the
/// first `-`, else the first `+`.
pub open spec fn fold_at(v: Seq<Seq<char>>) -> int {
    let d = find_from(v, '/', 0);
    let m = find_from(v, '*', 0);
    let s = find_from(v, '-', 0);
    if d >= 0 {
        d
    } else if m >= 0 {
        m
    } else if s >= 0 {
        s
    } else {
        find_from(v, '+', 0)
    }
}

pub open spec fn merged(v: Seq<Seq<char>>, w: int) -> Seq<char> {
    seq!['('] + v[w - 1] + v[w] + v[w + 1] + seq![')']
}

/// `v` with the operation at `fold_at(v)` wrapped in braces as one piece.
pub open spec fn folded(v: Seq<Seq<char>>) -> Seq<Seq<char>> {
    let w = fold_at(v);
    v.subrange(0, w - 1).push(merged(v, w)) + v.subrange(w + 2, v.len() as int)
}

pub open spec fn can_fold(v: Seq<Seq<char>>) -> bool {
    v.len() > 3 && 1 <= fold_at(v) && fold_at(v) + 2 <= v.len()
}

/// `v` folded until at most one operation is left.
pub open spec fn fold_all(v: Seq<Seq<char>>) -> Seq<Seq<char>>
    decreases v.len(),
{
    if can_fold(v) {
        fold_all(folded(v))
    } else {
        v
    }
}

/// The number of characters of `s` that are not braces.
pub open spec fn weight(s: Seq<char>) -> nat
    decreases s.len(),
{
    if s.len() == 0 {
        0
    } else {
        weight(s.drop_last()) + if s.last() == '(' || s.last() == ')' {
            0nat
        } else {
            1nat
        }
    }
}

pub open spec fn starts_with_digit(s: Seq<char>) -> bool {
    s.len() > 0 && is_digit_char(s[0])
}

pub open spec fn operator_of(x: Seq<char>) -> Operator {
    if x == seq!['-'] {
        Operator::Sub
    } else if x == seq!['*'] {
        Operator::Mul
    } else if x == seq!['/'] {
        Operator::Div
    } else {
        Operator::Add
    }
}

/// The tree of operand `x` of the expression `s`: a literal when it starts
/// with a digit, or when it is no smaller than `s` (nothing left to split).
pub open spec fn operand_of(x: Seq<char>, s: Seq<char>) -> Term
    decreases weight(s), 0nat,
{
    if starts_with_digit(x) || weight(x) >= weight(s) {
        Term::Num(x)
    } else {
        build(x)
    }
}

/// The tree of the expression `s`.
pub open spec fn build(s: Seq<char>) -> Term
    decreases weight(s), 1nat,
{
    let a = fold_all(pieces(denuded(s)));
    let left = operand_of(a[0], s);
    if a.len() < 3 {
        Term::Bin(Operator::Add, Box::new(left), Box::new(Term::Num("0"@)))
    } else {
        Term::Bin(operator_of(a[1]), Box::new(left), Box::new(operand_of(a[2], s)))
    }
}

proof fn lemma_find_from(v: Seq<Seq<char>>, t: char, k: int)
    requires
        0 <= k <= v.len(),
    ensures
        ({
            let r = find_from(v, t, k);
            ||| (r == -1 && forall|j: int| k <= j < v.len() ==> v[j] != seq![t])
            ||| (k <= r < v.len() && v[r] == seq![t])
        }),
    decreases v.len() - k,
{
    if k < v.len() {
        lemma_find_from(v, t, k + 1);
    }
}

/// In a chain of at least three pieces the next fold falls on an operator.
proof fn lemma_fold_at(v: Seq<Seq<char>>)
    requires
        is_chain(v),
        v.len() >= 3,
    ensures
        1 <= fold_at(v) <= v.len() - 2,
        fold_at(v) % 2 == 1,
        v[fold_at(v)] == seq!['/'] || v[fold_at(v)] == seq!['*'] || v[fold_at(v)] == seq!['-']
            || v[fold_at(v)] == seq!['+'],
{
    lemma_find_from(v, '/', 0);
    lemma_find_from(v, '*', 0);
    lemma_find_from(v, '-', 0);
    lemma_find_from(v, '+', 0);
    assert(is_op_piece(v[1]));
    assert(v[1] =~= seq![v[1][0]]);
    let w = fold_at(v);
    assert(is_op_piece(v[w]));
}

proof fn lemma_folded_chain(v: Seq<Seq<char>>)
    requires
        is_chain(v),
        v.len() >= 3,
    ensures
        is_chain(folded(v)),
        folded(v).len() == v.len() - 2,
{
    lemma_fold_at(v);
    let w = fold_at(v);
    let f = folded(v);
    assert forall|k: int| 0 <= k < f.len() implies (is_op_piece(#[trigger] f[k]) <==> k % 2
        == 1) by {
        if k < w - 1 {
            assert(f[k] == v[k]);
        } else if k == w - 1 {
            assert(f[k] == merged(v, w));
        } else {
            assert(f[k] == v[k + 2]);
        }
    }
}

pub(crate) proof fn lemma_pieces_chain(s: Seq<char>)
    ensures
        is_chain(pieces(s)),
        pieces(s).last().len() == 0 ==> depth(s) == 0,
    decreases s.len(),
{
    if s.len() > 0 {
        let init = s.drop_last();
        let c = s.last();
        lemma_pieces_chain(init);
        let v = pieces(init);
        let p = pieces(s);
        if is_op_char(c) && depth(init) == 0 {
            assert forall|k: int| 0 <= k < p.len() implies (is_op_piece(#[trigger] p[k]) <==> k
                % 2 == 1) by {
                if k < v.len() {
                    assert(p[k] == v[k]);
                }
            }
        } else {
            assert forall|k: int| 0 <= k < p.len() implies (is_op_piece(#[trigger] p[k]) <==> k
                % 2 == 1) by {
                if k < v.len() - 1 {
                    assert(p[k] == v[k]);
                } else {
                    assert(p[k] == v.last().push(c));
                    assert(p[k][p[k].len() - 1] == c);
                }
            }
        }
    }
}

/// The total weight of the pieces of `v`.
pub open spec fn total(v: Seq<Seq<char>>) -> nat
    decreases v.len(),
{
    if v.len() == 0 {
        0
    } else {
        total(v.drop_last()) + weight(v.last())
    }
}

proof fn lemma_weight_concat(a: Seq<char>, b: Seq<char>)
    ensures
        weight(a + b) == weight(a) + weight(b),
    decreases b.len(),
{
    if b.len() == 0 {
        assert(a + b =~= a);
    } else {
        lemma_weight_concat(a, b.drop_last());
        assert((a + b).drop_last() =~= a + b.drop_last());
        assert((a + b).last() == b.last());
    }
}

proof fn lemma_weight_brace(c: char)
    requires
        c == '(' || c == ')',
    ensures
        weight(seq![c]) == 0,
{
    assert(seq![c].drop_last() =~= Seq::<char>::empty());
    assert(seq![c].last() == c);
    assert(weight(Seq::<char>::empty()) == 0);
}

proof fn lemma_weight_one(c: char)
    ensures
        weight(seq![c]) == if c == '(' || c == ')' {
            0nat
        } else {
            1nat
        },
{
    assert(seq![c].drop_last() =~= Seq::<char>::empty());
    assert(seq![c].last() == c);
    assert(weight(Seq::<char>::empty()) == 0);
}

proof fn lemma_total_concat(a: Seq<Seq<char>>, b: Seq<Seq<char>>)
    ensures
        total(a + b) == total(a) + total(b),
    decreases b.len(),
{
    if b.len() == 0 {
        assert(a + b =~= a);
    } else {
        lemma_total_concat(a, b.drop_last());
        assert((a + b).drop_last() =~= a + b.drop_last());
        assert((a + b).last() == b.last());
    }
}

proof fn lemma_total_three(v: Seq<Seq<char>>)
    requires
        v.len() == 3,
    ensures
        total(v) == weight(v[0]) + weight(v[1]) + weight(v[2]),
{
    let v2 = v.drop_last();
    let v1 = v2.drop_last();
    let v0 = v1.drop_last();
    assert(v0 =~= Seq::<Seq<char>>::empty());
    assert(total(v0) == 0);
    assert(v1.last() == v[0]);
    assert(v2.last() == v[1]);
    assert(total(v1) == weight(v[0]));
    assert(total(v2) == weight(v[0]) + weight(v[1]));
}

proof fn lemma_total_one(v: Seq<Seq<char>>)
    requires
        v.len() == 1,
    ensures
        total(v) == weight(v[0]),
{
    assert(v.drop_last() =~= Seq::<Seq<char>>::empty());
    assert(total(v.drop_last()) == 0);
}

proof fn lemma_weight_denuded(e: Seq<char>)
    ensures
        weight(denuded(e)) == weight(e),
    decreases e.len(),
{
    if denudable(e) {
        let inner = e.subrange(1, e.len() - 1);
        lemma_weight_denuded(inner);
        assert(e =~= seq!['('] + inner + seq![')']);
        lemma_weight_concat(seq!['('] + inner, seq![')']);
        lemma_weight_concat(seq!['('], inner);
        lemma_weight_brace('(');
        lemma_weight_brace(')');
    }
}

proof fn lemma_total_pieces(s: Seq<char>)
    ensures
        total(pieces(s)) == weight(s),
        pieces(s).len() >= 1,
    decreases s.len(),
{
    if s.len() == 0 {
        lemma_total_one(pieces(s));
        assert(weight(Seq::<char>::empty()) == 0);
    } else {
        let init = s.drop_last();
        let c = s.last();
        lemma_total_pieces(init);
        lemma_weight_one(c);
        let v = pieces(init);
        if is_op_char(c) && depth(init) == 0 {
            let p = v.push(seq![c]);
            let q = p.push(Seq::empty());
            assert(q.drop_last() =~= p);
            assert(q.last() == Seq::<char>::empty());
            assert(weight(Seq::<char>::empty()) == 0);
            assert(p.drop_last() =~= v);
            assert(p.last() == seq![c]);
            assert(total(p) == total(v) + weight(seq![c]));
            assert(total(q) == total(p) + weight(Seq::<char>::empty()));
        } else {
            let x = v.last().push(c);
            let p = v.update(v.len() - 1, x);
            assert(p.drop_last() =~= v.drop_last());
            assert(p.last() == x);
            assert(x.drop_last() =~= v.last());
            assert(x.last() == c);
            assert(total(p) == total(v.drop_last()) + weight(x));
        }
    }
}

proof fn lemma_weight_merged(v: Seq<Seq<char>>, w: int)
    requires
        1 <= w <= v.len() - 2,
    ensures
        weight(merged(v, w)) == weight(v[w - 1]) + weight(v[w]) + weight(v[w + 1]),
{
    let open = seq!['('];
    lemma_weight_brace('(');
    lemma_weight_brace(')');
    lemma_weight_concat(open + v[w - 1] + v[w] + v[w + 1], seq![')']);
    lemma_weight_concat(open + v[w - 1] + v[w], v[w + 1]);
    lemma_weight_concat(open + v[w - 1], v[w]);
    lemma_weight_concat(open, v[w - 1]);
}

proof fn lemma_total_folded(v: Seq<Seq<char>>)
    requires
        is_chain(v),
        v.len() >= 3,
    ensures
        total(folded(v)) == total(v),
{
    lemma_fold_at(v);
    let w = fold_at(v);
    let m = merged(v, w);
    let a = v.subrange(0, w - 1);
    let mid = v.subrange(w - 1, w + 2);
    let b = v.subrange(w + 2, v.len() as int);
    assert(v =~= a + mid + b);
    lemma_total_concat(a + mid, b);
    lemma_total_concat(a, mid);
    lemma_total_three(mid);
    assert(folded(v) =~= a + seq![m] + b);
    lemma_total_concat(a + seq![m], b);
    lemma_total_concat(a, seq![m]);
    lemma_total_one(seq![m]);
    lemma_weight_merged(v, w);
}

proof fn lemma_total_fold_all(v: Seq<Seq<char>>)
    requires
        is_chain(v),
    ensures
        total(fold_all(v)) == total(v),
    decreases v.len(),
{
    if can_fold(v) {
        lemma_total_folded(v);
        lemma_folded_chain(v);
        lemma_total_fold_all(folded(v));
    }
}

/// The operands that the top level of `s` splits into weigh less than `s`
/// when there is an operator between them, and as much as `s` otherwise.
proof fn lemma_operands_lighter(s: Seq<char>)
    ensures
        ({
            let a = fold_all(pieces(denuded(s)));
            &&& a.len() == 1 || a.len() == 3
            &&& a.len() == 1 ==> weight(a[0]) == weight(s)
            &&& a.len() == 3 ==> weight(a[0]) < weight(s) && weight(a[2]) < weight(s)
        }),
{
    let d = denuded(s);
    lemma_weight_denuded(s);
    lemma_total_pieces(d);
    lemma_pieces_chain(d);
    lemma_total_fold_all(pieces(d));
    lemma_fold_all_short(pieces(d));
    let a = fold_all(pieces(d));
    if a.len() == 3 {
        lemma_total_three(a);
        assert(is_op_piece(a[1]));
        assert(a[1].drop_last() =~= Seq::<char>::empty());
    } else {
        lemma_total_one(a);
    }
}

proof fn lemma_fold_all_short(v: Seq<Seq<char>>)
    requires
        is_chain(v),
    ensures
        is_chain(fold_all(v)),
        fold_all(v).len() <= 3,
    decreases v.len(),
{
    if v.len() > 3 {
        lemma_fold_at(v);
        lemma_folded_chain(v);
        lemma_fold_all_short(folded(v));
    }
}

/// Relies on `String`'s `FromIterator<&char>`: the string of exactly these
/// characters, in this order.
#[verifier::external_body]
fn text_of(v: &Vec<char>) -> (r: String)
    ensures
        r@ == v@,
{
    v.iter().collect()
}

/// A copy of `v[lo..hi]`.
fn sub_vec(v: &Vec<char>, lo: usize, hi: usize) -> (r: Vec<char>)
    requires
        lo <= hi <= v.len(),
    ensures
        r@ == v@.subrange(lo as int, hi as int),
{
    let mut r: Vec<char> = Vec::new();
    let mut k: usize = lo;
    while k < hi
        invariant
            lo <= k <= hi <= v.len(),
            r@ == v@.subrange(lo as int, k as int),
        decreases hi - k,
    {
        r.push(v[k]);
        k += 1;
        assert(r@ =~= v@.subrange(lo as int, k as int));
    }
    r
}

fn copy_of(v: &Vec<char>) -> (r: Vec<char>)
    ensures
        r@ == v@,
{
    assert(v@.subrange(0, v@.len() as int) =~= v@);
    sub_vec(v, 0, v.len())
}

fn push_all(out: &mut Vec<char>, x: &Vec<char>)
    ensures
        final(out)@ == old(out)@ + x@,
{
    let mut k: usize = 0;
    while k < x.len()
        invariant
            k <= x.len(),
            out@ == old(out)@ + x@.subrange(0, k as int),
        decreases x.len() - k,
    {
        out.push(x[k]);
        k += 1;
        assert(out@ =~= old(out)@ + x@.subrange(0, k as int));
    }
    assert(x@.subrange(0, x.len() as int) =~= x@);
}

/// Whether `exp` is one brace pair around a well nested interior.
pub fn is_denudable(exp: &Vec<char>) -> (r: bool)
    ensures
        r == denudable(exp@),
{
    let length = exp.len();
    if length < 2 || exp[0] != '(' || exp[length - 1] != ')' {
        return false;
    }
    let ghost inner = exp@.subrange(1, length - 1);
    let mut opb: usize = 0;
    let mut clb: usize = 0;
    let mut i: usize = 1;
    while i < length - 1
        invariant
            1 <= i <= length - 1,
            length == exp.len(),
            inner == exp@.subrange(1, length - 1),
            opb <= i,
            clb <= i,
            opb - clb == depth(inner.subrange(0, i - 1)),
            forall|k: int| 0 <= k <= i - 1 ==> #[trigger] depth(inner.subrange(0, k)) >= 0,
        decreases length - 1 - i,
    {
        assert(inner.subrange(0, i as int).drop_last() =~= inner.subrange(0, i - 1));
        if exp[i] == '(' {
            opb += 1;
        } else if exp[i] == ')' {
            clb += 1;
            if clb > opb {
                assert(depth(inner.subrange(0, i as int)) < 0);
                return false;
            }
        }
        i += 1;
    }
    assert(inner.subrange(0, inner.len() as int) =~= inner);
    opb == clb
}

/// `expression` with all its redundant outer brace pairs taken away.
pub fn denude(expression: &Vec<char>) -> (r: Vec<char>)
    ensures
        r@ == denuded(expression@),
{
    let mut cur = copy_of(expression);
    while is_denudable(&cur)
        invariant
            denuded(cur@) == denuded(expression@),
        decreases cur.len(),
    {
        let n = cur.len();
        cur = sub_vec(&cur, 1, n - 1);
    }
    cur
}

/// Splits `s` at its operators outside any brace: operands and operators
/// alternate in the result, which starts and ends with an operand.
pub fn top_level_disassembler(s: &Vec<char>) -> (r: Vec<Vec<char>>)
    ensures
        views(r@) == pieces(s@),
        is_chain(views(r@)),
{
    let length = s.len();
    let mut opb: usize = 0;
    let mut clb: usize = 0;
    let mut result: Vec<Vec<char>> = Vec::new();
    let mut cur: Vec<char> = Vec::new();
    let mut i: usize = 0;
    assert(views(result@).push(cur@) =~= pieces(s@.subrange(0, 0)));
    while i < length
        invariant
            i <= length,
            length == s.len(),
            opb <= i,
            clb <= i,
            opb - clb == depth(s@.subrange(0, i as int)),
            views(result@).push(cur@) == pieces(s@.subrange(0, i as int)),
        decreases length - i,
    {
        let ghost sub = s@.subrange(0, i + 1);
        assert(sub.drop_last() =~= s@.subrange(0, i as int));
        let c = s[i];
        if (c == '+' || c == '-' || c == '*' || c == '/') && opb == clb {
            result.push(cur);
            let mut op: Vec<char> = Vec::new();
            op.push(c);
            result.push(op);
            cur = Vec::new();
        } else {
            cur.push(c);
            if c == '(' {
                opb += 1;
            } else if c == ')' {
                clb += 1;
            }
        }
        assert(views(result@).push(cur@) =~= pieces(sub));
        i += 1;
    }
    assert(s@.subrange(0, length as int) =~= s@);
    result.push(cur);
    assert(views(result@) =~= pieces(s@));
    proof {
        lemma_pieces_chain(s@);
    }
    result
}

/// The position of the first piece of `v` that is the operator `t`.
fn find_piece(v: &Vec<Vec<char>>, t: char) -> (r: Option<usize>)
    ensures
        match r {
            Some(k) => k == find_from(views(v@), t, 0),
            None => find_from(views(v@), t, 0) == -1,
        },
{
    let mut k: usize = 0;
    while k < v.len()
        invariant
            k <= v.len(),
            find_from(views(v@), t, 0) == find_from(views(v@), t, k as int),
        decreases v.len() - k,
    {
        let x = &v[k];
        assert(views(v@)[k as int] == x@);
        if x.len() == 1 && x[0] == t {
            assert(x@ =~= seq![t]);
            return Some(k);
        }
        k += 1;
    }
    None
}

fn copy_pieces(v: &Vec<Vec<char>>, lo: usize, hi: usize, out: &mut Vec<Vec<char>>)
    requires
        lo <= hi <= v.len(),
    ensures
        views(final(out)@) == views(old(out)@) + views(v@).subrange(lo as int, hi as int),
{
    let mut i: usize = lo;
    while i < hi
        invariant
            lo <= i <= hi <= v.len(),
            views(out@) == views(old(out)@) + views(v@).subrange(lo as int, i as int),
        decreases hi - i,
    {
        let x = copy_of(&v[i]);
        let ghost before = out@;
        out.push(x);
        assert(views(out@) =~= views(before).push(x@));
        assert(views(v@)[i as int] == x@);
        assert(views(v@).subrange(lo as int, i + 1) =~= views(v@).subrange(lo as int, i as int).push(x@));
        i += 1;
        assert(views(out@) =~= views(old(out)@) + views(v@).subrange(lo as int, i as int));
    }
}

/// Folds the operation of highest priority, the first `/`, else the first
/// `*`, else the first `-`, else the first `+`, into one braced piece.
pub fn top_level_assembler(v: &Vec<Vec<char>>) -> (r: Vec<Vec<char>>)
    requires
        is_chain(views(v@)),
        v.len() >= 3,
    ensures
        views(r@) == folded(views(v@)),
        is_chain(views(r@)),
        r.len() == v.len() - 2,
{
    let ghost vv = views(v@);
    proof {
        lemma_fold_at(vv);
        lemma_folded_chain(vv);
    }
    let w = match find_piece(v, '/') {
        Some(k) => k,
        None => match find_piece(v, '*') {
            Some(k) => k,
            None => match find_piece(v, '-') {
                Some(k) => k,
                None => match find_piece(v, '+') {
                    Some(k) => k,
                    None => {
                        assert(false);
                        1
                    },
                },
            },
        },
    };
    assert(w == fold_at(vv));
    let mut result: Vec<Vec<char>> = Vec::new();
    copy_pieces(v, 0, w - 1, &mut result);
    let mut m: Vec<char> = Vec::new();
    m.push('(');
    push_all(&mut m, &v[w - 1]);
    push_all(&mut m, &v[w]);
    push_all(&mut m, &v[w + 1]);
    m.push(')');
    assert(m@ =~= merged(vv, w as int));
    result.push(m);
    assert(views(result@) =~= vv.subrange(0, w - 1).push(merged(vv, w as int)));
    copy_pieces(v, w + 2, v.len(), &mut result);
    assert(views(result@) =~= folded(vv));
    result
}

/// Folds `v` until at most one operation is left.
pub fn top_level_assembler_iter(v: &Vec<Vec<char>>) -> (r: Vec<Vec<char>>)
    requires
        is_chain(views(v@)),
    ensures
        views(r@) == fold_all(views(v@)),
        is_chain(views(r@)),
        r.len() <= 3,
{
    let mut result: Vec<Vec<char>> = Vec::new();
    copy_pieces(v, 0, v.len(), &mut result);
    assert(views(result@) =~= views(v@));
    while result.len() > 3
        invariant
            is_chain(views(result@)),
            fold_all(views(result@)) == fold_all(views(v@)),
        decreases result.len(),
    {
        proof {
            lemma_fold_at(views(result@));
        }
        result = top_level_assembler(&result);
    }
    result
}

/// Whether `s` starts with a digit.
pub fn is_digit(s: &Vec<char>) -> (r: bool)
    ensures
        r == starts_with_digit(s@),
{
    s.len() > 0 && '0' <= s[0] && s[0] <= '9'
}

fn operator_from(x: &Vec<char>) -> (r: Operator)
    ensures
        r == operator_of(x@),
{
    if x.len() == 1 {
        assert(x@ =~= seq![x@[0]]);
        if x[0] == '-' {
            Operator::Sub
        } else if x[0] == '*' {
            Operator::Mul
        } else if x[0] == '/' {
            Operator::Div
        } else {
            Operator::Add
        }
    } else {
        Operator::Add
    }
}

/// The tree of the expression `s`. An operand that starts with a digit is a
/// literal leaf, and so is the whole of `s` when it has no operator outside
/// braces (nothing is left to split); any other operand is built in turn.
pub fn create_node_from_str(s: &Vec<char>) -> (r: Node)
    ensures
        r.term() == build(s@),
    decreases weight(s@),
{
    let denuded = denude(s);
    let disassembled = top_level_disassembler(&denuded);
    let assembled = top_level_assembler_iter(&disassembled);
    let ghost a = views(assembled@);
    proof {
        lemma_operands_lighter(s@);
    }
    let first = &assembled[0];
    assert(a[0] == first@);
    let oprnd1 = if is_digit(first) || assembled.len() < 3 {
        Operand::Number(text_of(first))
    } else {
        Operand::Expression(Box::new(create_node_from_str(first)))
    };
    assert(crate::tree::operand_term(&oprnd1) == operand_of(a[0], s@));
    if assembled.len() < 3 {
        return Node {
            operator: Operator::Add,
            operand1: oprnd1,
            operand2: Operand::Number("0".to_owned()),
        };
    }
    let second = &assembled[2];
    assert(a[2] == second@);
    let oprnd2 = if is_digit(second) {
        Operand::Number(text_of(second))
    } else {
        Operand::Expression(Box::new(create_node_from_str(second)))
    };
    assert(crate::tree::operand_term(&oprnd2) == operand_of(a[2], s@));
    assert(a[1] == assembled@[1]@);
    Node { operator: operator_from(&assembled[1]), operand1: oprnd1, operand2: oprnd2 }
}

} // verus!
