//! Properties that relate several evaluations.
use vstd::prelude::*;

use crate::builder::{
    build, can_fold, denudable, denuded, find_from, fold_all, fold_at, folded, lemma_pieces_chain,
    merged, operand_of, operator_of, pieces, starts_with_digit, well_nested, weight,
};
use crate::preprocess::{is_digit_char, is_op_char};
use crate::tree::Term;
use crate::evaluation;
use crate::preprocess::{
    depth, first_overclose_from, preprocessed, primitive, with_zeros, without_white,
};

verus! {

/// Evaluation depends on the input text alone: equal texts give equal
/// outcomes, whenever and however often they are evaluated.
pub proof fn law_deterministic(a: Seq<char>, b: Seq<char>)
    requires
        a == b,
    ensures
        evaluation(a) == evaluation(b),
{
}

/// Whitespace does not matter: two texts that are equal once every
/// whitespace character is taken out, wherever it stood, evaluate alike.
pub proof fn law_whitespace_does_not_matter(a: Seq<char>, b: Seq<char>)
    requires
        without_white(a) == without_white(b),
    ensures
        evaluation(a) == evaluation(b),
{
}

/// `s` inside `n` brace pairs.
pub open spec fn wrapped(s: Seq<char>, n: nat) -> Seq<char>
    decreases n,
{
    if n == 0 {
        s
    } else {
        seq!['('] + wrapped(s, (n - 1) as nat) + seq![')']
    }
}

proof fn lemma_depth_open(x: Seq<char>)
    ensures
        depth(seq!['('] + x) == 1 + depth(x),
    decreases x.len(),
{
    if x.len() > 0 {
        lemma_depth_open(x.drop_last());
        assert((seq!['('] + x).drop_last() =~= seq!['('] + x.drop_last());
        assert((seq!['('] + x).last() == x.last());
    } else {
        assert(seq!['('] + x =~= seq!['(']);
        assert(seq!['('].drop_last() =~= Seq::<char>::empty());
        assert(seq!['('].last() == '(');
        assert(depth(Seq::<char>::empty()) == 0);
    }
}

proof fn lemma_weight_open(x: Seq<char>)
    ensures
        weight(seq!['('] + x) == weight(x),
    decreases x.len(),
{
    if x.len() > 0 {
        lemma_weight_open(x.drop_last());
        assert((seq!['('] + x).drop_last() =~= seq!['('] + x.drop_last());
        assert((seq!['('] + x).last() == x.last());
    } else {
        assert(seq!['('] + x =~= seq!['(']);
        assert(seq!['('].drop_last() =~= Seq::<char>::empty());
        assert(seq!['('].last() == '(');
        assert(weight(Seq::<char>::empty()) == 0);
    }
}

/// One brace pair around a well nested text: the pair can be stripped, and
/// the result is again well nested, with the same weight.
proof fn lemma_wrap_once(q: Seq<char>)
    requires
        well_nested(q),
    ensures
        well_nested(seq!['('] + q + seq![')']),
        denudable(seq!['('] + q + seq![')']),
        denuded(seq!['('] + q + seq![')']) == denuded(q),
        weight(seq!['('] + q + seq![')']) == weight(q),
{
    let open = seq!['('] + q;
    let w = open + seq![')'];
    assert(w.drop_last() =~= open);
    assert(w.subrange(1, w.len() - 1) =~= q);
    lemma_depth_open(q);
    lemma_weight_open(q);
    assert forall|k: int| 0 <= k <= w.len() implies #[trigger] depth(w.subrange(0, k)) >= 0 by {
        if k == 0 {
            assert(w.subrange(0, k) =~= Seq::<char>::empty());
        } else if k < w.len() {
            assert(w.subrange(0, k) =~= seq!['('] + q.subrange(0, k - 1));
            lemma_depth_open(q.subrange(0, k - 1));
        } else {
            assert(w.subrange(0, k) =~= w);
        }
    }
}

proof fn lemma_wrapped(p: Seq<char>, n: nat)
    requires
        well_nested(p),
    ensures
        well_nested(wrapped(p, n)),
        denuded(wrapped(p, n)) == denuded(p),
        weight(wrapped(p, n)) == weight(p),
    decreases n,
{
    if n > 0 {
        lemma_wrapped(p, (n - 1) as nat);
        lemma_wrap_once(wrapped(p, (n - 1) as nat));
    }
}

/// Wrapping a well nested expression in any number of brace pairs does not
/// change its tree.
pub proof fn law_outer_braces(p: Seq<char>, n: nat)
    requires
        well_nested(p),
    ensures
        build(wrapped(p, n)) == build(p),
{
    lemma_wrapped(p, n);
}

proof fn lemma_depth_concat(a: Seq<char>, b: Seq<char>)
    ensures
        depth(a + b) == depth(a) + depth(b),
    decreases b.len(),
{
    if b.len() == 0 {
        assert(a + b =~= a);
    } else {
        lemma_depth_concat(a, b.drop_last());
        assert((a + b).drop_last() =~= a + b.drop_last());
        assert((a + b).last() == b.last());
    }
}

proof fn lemma_no_overclose(p: Seq<char>, i: int)
    requires
        0 <= i <= p.len(),
        first_overclose_from(p, i) == p.len(),
        depth(p.subrange(0, i)) >= 0,
    ensures
        forall|k: int| i <= k <= p.len() ==> #[trigger] depth(p.subrange(0, k)) >= 0,
    decreases p.len() - i,
{
    if i < p.len() {
        assert(p.subrange(0, i + 1).drop_last() =~= p.subrange(0, i));
        lemma_no_overclose(p, i + 1);
    }
}

proof fn lemma_overclose_bound(p: Seq<char>, i: int)
    ensures
        first_overclose_from(p, i) <= p.len(),
    decreases p.len() - i,
{
    if 0 <= i < p.len() {
        lemma_overclose_bound(p, i + 1);
    }
}

proof fn lemma_depth_short(c: char)
    ensures
        depth(seq!['0']) == 0,
        depth(seq![c]) == depth(seq!['0', c]),
        depth(seq![c]) == if c == '(' {
            1int
        } else if c == ')' {
            -1int
        } else {
            0int
        },
{
    assert(seq!['0'].drop_last() =~= Seq::<char>::empty());
    assert(seq![c].drop_last() =~= Seq::<char>::empty());
    assert(seq!['0', c].drop_last() =~= seq!['0']);
    assert(depth(Seq::<char>::empty()) == 0);
}

/// Putting zeros before signs keeps every prefix's brace balance.
proof fn lemma_with_zeros_nested(s: Seq<char>)
    requires
        forall|j: int| 0 <= j <= s.len() ==> #[trigger] depth(s.subrange(0, j)) >= 0,
    ensures
        depth(with_zeros(s)) == depth(s),
        forall|k: int|
            0 <= k <= with_zeros(s).len() ==> #[trigger] depth(with_zeros(s).subrange(0, k))
                >= 0,
    decreases s.len(),
{
    let z = with_zeros(s);
    if s.len() == 0 {
        assert forall|k: int| 0 <= k <= z.len() implies #[trigger] depth(z.subrange(0, k))
            >= 0 by {
            assert(z.subrange(0, k) =~= Seq::<char>::empty());
        }
    } else {
        let init = s.drop_last();
        let n = s.len() - 1;
        let c = s[n];
        assert forall|j: int| 0 <= j <= init.len() implies #[trigger] depth(init.subrange(0, j))
            >= 0 by {
            assert(init.subrange(0, j) =~= s.subrange(0, j));
        }
        lemma_with_zeros_nested(init);
        let zi = with_zeros(init);
        let piece = if crate::preprocess::needs_zero(s, n) {
            seq!['0', c]
        } else {
            seq![c]
        };
        assert(z == zi + piece);
        lemma_depth_short(c);
        lemma_depth_concat(zi, piece);
        assert(s.subrange(0, s.len() as int) =~= s);
        assert(s =~= init.push(c));
        assert(init.push(c).drop_last() =~= init);
        assert(depth(s) == depth(init) + depth(seq![c]));
        assert(init.subrange(0, init.len() as int) =~= init);
        assert forall|k: int| 0 <= k <= z.len() implies #[trigger] depth(z.subrange(0, k))
            >= 0 by {
            if k <= zi.len() {
                assert(z.subrange(0, k) =~= zi.subrange(0, k));
            } else {
                let rest = piece.subrange(0, k - zi.len());
                assert(z.subrange(0, k) =~= zi + rest);
                lemma_depth_concat(zi, rest);
                if rest.len() == piece.len() {
                    assert(rest =~= piece);
                } else {
                    assert(rest =~= seq!['0']);
                }
            }
        }
    }
}

/// Every text that preprocessing accepts is well nested, so any number of
/// brace pairs around it leave its tree unchanged.
pub proof fn law_accepted_outer_braces(raw: Seq<char>, n: nat)
    requires
        preprocessed(raw) is Ok,
    ensures
        well_nested(preprocessed(raw)->Ok_0),
        build(wrapped(preprocessed(raw)->Ok_0, n)) == build(preprocessed(raw)->Ok_0),
{
    let p = primitive(raw);
    assert(p.subrange(0, 0) =~= Seq::<char>::empty());
    lemma_overclose_bound(p, 0);
    lemma_no_overclose(p, 0);
    lemma_with_zeros_nested(p);
    law_outer_braces(with_zeros(p), n);
}

/// A numeric literal: digits and decimal points, starting with a digit.
pub open spec fn is_literal(x: Seq<char>) -> bool {
    &&& x.len() > 0
    &&& is_digit_char(x[0])
    &&& forall|i: int| 0 <= i < x.len() ==> is_digit_char(#[trigger] x[i]) || x[i] == '.'
}

/// How early an operator is folded: `/`, then `*`, then `-`, then `+`.
pub open spec fn priority(o: char) -> int {
    if o == '/' {
        3
    } else if o == '*' {
        2
    } else if o == '-' {
        1
    } else {
        0
    }
}

pub open spec fn leaf_op(x: Seq<char>, o: char, y: Seq<char>) -> Term {
    Term::Bin(operator_of(seq![o]), Box::new(Term::Num(x)), Box::new(Term::Num(y)))
}

proof fn lemma_append_plain(s: Seq<char>, t: Seq<char>)
    requires
        forall|i: int| 0 <= i < t.len() ==> is_digit_char(#[trigger] t[i]) || t[i] == '.',
    ensures
        pieces(s + t) == pieces(s).update(pieces(s).len() - 1, pieces(s).last() + t),
        depth(s + t) == depth(s),
        weight(s + t) == weight(s) + t.len(),
    decreases t.len(),
{
    lemma_pieces_chain(s);
    let v = pieces(s);
    if t.len() == 0 {
        assert(s + t =~= s);
        assert(v.last() + t =~= v.last());
        assert(v.update(v.len() - 1, v.last() + t) =~= v);
    } else {
        let t0 = t.drop_last();
        let c = t.last();
        assert(is_digit_char(t[t.len() - 1]) || t[t.len() - 1] == '.');
        lemma_append_plain(s, t0);
        assert((s + t).drop_last() =~= s + t0);
        assert((s + t).last() == c);
        let p0 = v.update(v.len() - 1, v.last() + t0);
        assert(p0.last() == v.last() + t0);
        assert((v.last() + t0).push(c) =~= v.last() + t);
        assert(p0.update(p0.len() - 1, p0.last().push(c)) =~= v.update(
            v.len() - 1,
            v.last() + t,
        ));
    }
}

proof fn lemma_append_op(s: Seq<char>, o: char)
    requires
        is_op_char(o),
        depth(s) == 0,
    ensures
        pieces(s.push(o)) == pieces(s).push(seq![o]).push(Seq::empty()),
        depth(s.push(o)) == 0,
        weight(s.push(o)) == weight(s) + 1,
{
    assert(s.push(o).drop_last() =~= s);
    assert(s.push(o).last() == o);
}

proof fn lemma_no_braces_nested(s: Seq<char>)
    requires
        forall|i: int| 0 <= i < s.len() ==> #[trigger] s[i] != '(' && s[i] != ')',
    ensures
        depth(s) == 0,
    decreases s.len(),
{
    if s.len() > 0 {
        assert(s.drop_last().len() == s.len() - 1);
        assert forall|i: int| 0 <= i < s.drop_last().len() implies #[trigger] s.drop_last()[i]
            != '(' && s.drop_last()[i] != ')' by {
            assert(s.drop_last()[i] == s[i]);
        }
        lemma_no_braces_nested(s.drop_last());
        assert(s[s.len() - 1] != '(' && s[s.len() - 1] != ')');
    }
}

/// Two literals around one operator: their pieces, weight and tree.
proof fn lemma_simple(x: Seq<char>, o: char, y: Seq<char>)
    requires
        is_literal(x),
        is_literal(y),
        is_op_char(o),
    ensures
        pieces(x.push(o) + y) == seq![x, seq![o], y],
        depth(x.push(o) + y) == 0,
        weight(x.push(o) + y) == x.len() + y.len() + 1,
        well_nested(x.push(o) + y),
        build(x.push(o) + y) == leaf_op(x, o, y),
{
    let e = Seq::<char>::empty();
    lemma_append_plain(e, x);
    assert(e + x =~= x);
    assert(pieces(e) == seq![e]);
    assert(seq![e].update(0, e + x) =~= seq![x]);
    assert(weight(e) == 0);
    assert(depth(e) == 0);
    lemma_append_op(x, o);
    lemma_append_plain(x.push(o), y);
    let s = x.push(o) + y;
    let v = seq![x, seq![o], e];
    assert(v.update(2, e + y) =~= seq![x, seq![o], y]);
    assert(e + y =~= y);
    assert forall|i: int| 0 <= i < s.len() implies #[trigger] s[i] != '(' && s[i] != ')' by {
        if i < x.len() {
            assert(s[i] == x[i]);
        } else if i > x.len() {
            assert(s[i] == y[i - x.len() - 1]);
        }
    }
    assert forall|k: int| 0 <= k <= s.len() implies #[trigger] depth(s.subrange(0, k)) >= 0 by {
        let pre = s.subrange(0, k);
        assert forall|i: int| 0 <= i < pre.len() implies #[trigger] pre[i] != '(' && pre[i]
            != ')' by {
            assert(pre[i] == s[i]);
        }
        lemma_no_braces_nested(pre);
    }
    assert(s[0] == x[0]);
    assert(!denudable(s));
    let a = seq![x, seq![o], y];
    assert(!can_fold(a));
    assert(fold_all(a) == a);
    assert(starts_with_digit(x));
    assert(y[0] == a[2][0]);
    assert(starts_with_digit(a[2]));
}

proof fn lemma_find5(v: Seq<Seq<char>>, t: char, a: Seq<char>, o1: char, b: Seq<char>, o2: char, c: Seq<char>)
    requires
        v == seq![a, seq![o1], b, seq![o2], c],
        is_literal(a),
        is_literal(b),
        is_literal(c),
        is_op_char(t),
    ensures
        find_from(v, t, 0) == if o1 == t {
            1int
        } else if o2 == t {
            3int
        } else {
            -1int
        },
{
    assert(a != seq![t]) by {
        if a == seq![t] {
            assert(a[0] == t);
        }
    }
    assert(b != seq![t]) by {
        if b == seq![t] {
            assert(b[0] == t);
        }
    }
    assert(c != seq![t]) by {
        if c == seq![t] {
            assert(c[0] == t);
        }
    }
    assert(seq![o1] == seq![t] <==> o1 == t) by {
        if seq![o1] == seq![t] {
            assert(seq![o1][0] == seq![t][0]);
        }
    }
    assert(seq![o2] == seq![t] <==> o2 == t) by {
        if seq![o2] == seq![t] {
            assert(seq![o2][0] == seq![t][0]);
        }
    }
    assert(find_from(v, t, 5) == -1);
    assert(find_from(v, t, 4) == -1);
    assert(find_from(v, t, 3) == if o2 == t {
        3int
    } else {
        -1int
    });
    assert(find_from(v, t, 2) == find_from(v, t, 3));
    assert(find_from(v, t, 1) == if o1 == t {
        1int
    } else {
        find_from(v, t, 2)
    });
}

/// Precedence: in a chain of three literals, the operator that folds first
/// is grouped first. `*` and `/` are grouped before `+` and `-`, and of two
/// equal operators the leftmost is grouped first.
pub proof fn law_precedence(a: Seq<char>, o1: char, b: Seq<char>, o2: char, c: Seq<char>)
    requires
        is_literal(a),
        is_literal(b),
        is_literal(c),
        is_op_char(o1),
        is_op_char(o2),
    ensures
        build(a.push(o1) + b.push(o2) + c) == if priority(o2) > priority(o1) {
            Term::Bin(
                operator_of(seq![o1]),
                Box::new(Term::Num(a)),
                Box::new(leaf_op(b, o2, c)),
            )
        } else {
            Term::Bin(
                operator_of(seq![o2]),
                Box::new(leaf_op(a, o1, b)),
                Box::new(Term::Num(c)),
            )
        },
{
    let s = a.push(o1) + b.push(o2) + c;
    let left = a.push(o1) + b;
    let right = b.push(o2) + c;
    lemma_simple(a, o1, b);
    lemma_simple(b, o2, c);
    assert(s =~= left.push(o2) + c);
    lemma_append_op(left, o2);
    lemma_append_plain(left.push(o2), c);
    let v = seq![a, seq![o1], b, seq![o2], c];
    let e = Seq::<char>::empty();
    assert(seq![a, seq![o1], b, seq![o2], e].update(4, e + c) =~= v);
    assert(e + c =~= c);
    assert(seq![a, seq![o1], b].push(seq![o2]).push(e) =~= seq![a, seq![o1], b, seq![o2], e]);
    assert(pieces(s) == v);
    assert(s[0] == a[0]);
    assert(!denudable(s));
    lemma_find5(v, '/', a, o1, b, o2, c);
    lemma_find5(v, '*', a, o1, b, o2, c);
    lemma_find5(v, '-', a, o1, b, o2, c);
    lemma_find5(v, '+', a, o1, b, o2, c);
    let w = fold_at(v);
    assert(w == if priority(o2) > priority(o1) {
        3int
    } else {
        1int
    });
    assert(can_fold(v));
    let f = folded(v);
    assert(f.len() == 3);
    assert(!can_fold(f));
    assert(fold_all(f) == f);
    assert(fold_all(v) == fold_all(f));
    assert(weight(s) == a.len() + b.len() + c.len() + 2);
    if w == 1 {
        let m = merged(v, 1);
        assert(wrapped(left, 0) == left);
        assert(wrapped(left, 1) == seq!['('] + left + seq![')']);
        assert(m =~= wrapped(left, 1));
        law_outer_braces(left, 1);
        lemma_wrapped(left, 1);
        assert(f =~= seq![m, seq![o2], c]);
        assert(m[0] == '(');
        assert(!starts_with_digit(m));
        assert(operand_of(m, s) == build(left));
        assert(c[0] == f[2][0]);
        assert(operand_of(f[2], s) == Term::Num(c));
    } else {
        let m = merged(v, 3);
        assert(wrapped(right, 0) == right);
        assert(wrapped(right, 1) == seq!['('] + right + seq![')']);
        assert(m =~= wrapped(right, 1));
        law_outer_braces(right, 1);
        lemma_wrapped(right, 1);
        assert(f =~= seq![a, seq![o1], m]);
        assert(m[0] == '(');
        assert(!starts_with_digit(m));
        assert(operand_of(m, s) == build(right));
        assert(a[0] == f[0][0]);
        assert(operand_of(f[0], s) == Term::Num(a));
    }
}

} // verus!
