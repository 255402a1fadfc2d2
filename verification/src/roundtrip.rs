//! The round-trip law of the query grammar: rendering a well-formed query
//! and parsing the text back yields the query unchanged.
//!
//! Well-formedness carves out exactly the values the renderer can write
//! unambiguously: identifiers are non-empty runs of identifier characters,
//! trees have the shape the grammar can express (only the last child of a
//! node may itself have children), integers are in range and non-negative,
//! and string literals avoid the few texts whose rendering reads back
//! differently (a bare word must not look like a number or start like a
//! quote, a quoted string must not hold the quote character, and a literal
//! after `<` or `>` must not begin with `=`).

use vstd::prelude::*;

use crate::alg::is_ascii_number;
use crate::query::{
    digit_char, digit_pred, digit_val, digits_val, drop_ws, find_from, has_space, ident_pred,
    int_digits, is_ident_char, is_ws, lemma_find_from, lemma_run_len, lemma_run_len_unique,
    nonws_pred, preds_fuel, render_children, render_lit, render_op, render_pred, render_preds,
    render_query, render_tree, run_len, spec_parse_ident, spec_parse_lit, spec_parse_op,
    spec_parse_pred, spec_parse_preds, spec_parse_query, spec_parse_siblings, spec_parse_tree,
    tree_fuel, ws_pred, LitView, Operator, PredView, QueryView, TreeView,
};

verus! {

// ---------------------------------------------------------------------------
// Well-formedness: what the renderer writes unambiguously
// ---------------------------------------------------------------------------

/// A well-formed identifier: non-empty, identifier characters throughout.
pub open spec fn ident_wf(s: Seq<char>) -> bool {
    s.len() >= 1 && forall|i: int| 0 <= i < s.len() ==> is_ident_char(#[trigger] s[i])
}

/// A well-formed tree: identifiers throughout, and only the last child of
/// any node carries children of its own — the shape the grammar expresses.
pub open spec fn tree_wf(t: TreeView<Seq<char>>) -> bool
    decreases t,
{
    &&& ident_wf(t.root)
    &&& forall|i: int| 0 <= i < t.children.len() ==> tree_wf(#[trigger] t.children[i])
    &&& forall|i: int|
        0 <= i < t.children.len() - 1 ==> (#[trigger] t.children[i]).children.len() == 0
}

/// A well-formed literal: an integer in range, a quoted string free of the
/// quote character, or a bare word with no whitespace that cannot be read as
/// a number or a quote.
pub open spec fn lit_wf(l: LitView) -> bool {
    match l {
        LitView::Integer(i) => 0 <= i <= i64::MAX,
        LitView::Str(s) => if has_space(s) {
            forall|i: int| 0 <= i < s.len() ==> #[trigger] s[i] != '\''
        } else {
            &&& s.len() >= 1
            &&& forall|i: int| 0 <= i < s.len() ==> !is_ws(#[trigger] s[i])
            &&& !is_ascii_number(s[0])
            &&& s[0] != '\''
            &&& s[0] != '"'
        },
    }
}

/// A well-formed predicate; after `<` or `>` the literal must not begin
/// with `=`, which would read back as `<=` or `>=`.
pub open spec fn pred_wf(p: PredView) -> bool {
    &&& ident_wf(p.identifier)
    &&& lit_wf(p.value)
    &&& ((p.operator == Operator::Lt || p.operator == Operator::Gt) ==> render_lit(p.value)[0]
        != '=')
}

/// A well-formed query.
pub open spec fn query_wf(q: QueryView) -> bool {
    &&& tree_wf(q.object)
    &&& forall|i: int| 0 <= i < q.predicates.len() ==> pred_wf(#[trigger] q.predicates[i])
}

// ---------------------------------------------------------------------------
// Small facts
// ---------------------------------------------------------------------------

/// Identifier characters are none of the grammar's separators.
proof fn lemma_ident_char_facts(c: char)
    requires
        is_ident_char(c),
    ensures
        !is_ws(c),
        c != '>',
        c != '+',
        c != '=',
        c != '!',
        c != '<',
        c != '\'',
        c != '"',
{
}

/// Digit characters carry their values and classes.
proof fn lemma_digit_char_facts(d: int)
    requires
        0 <= d <= 9,
    ensures
        is_ascii_number(digit_char(d)),
        digit_val(digit_char(d)) == d,
{
}

/// ASCII digits are neither whitespace nor quotes.
proof fn lemma_number_char_facts(c: char)
    requires
        is_ascii_number(c),
    ensures
        !is_ws(c),
        c != '\'',
        c != '"',
{
}

/// The decimal digits of a non-negative integer: all digits, at least one,
/// and reading them back gives the integer.
proof fn lemma_int_digits(n: int)
    requires
        n >= 0,
    ensures
        int_digits(n).len() >= 1,
        forall|i: int| 0 <= i < int_digits(n).len() ==> is_ascii_number(#[trigger] int_digits(n)[i]),
        digits_val(int_digits(n)) == n,
    decreases n,
{
    if n < 10 {
        lemma_digit_char_facts(n);
        assert(int_digits(n) =~= seq![digit_char(n)]);
        assert(int_digits(n).drop_last() =~= Seq::<char>::empty());
        assert(digits_val(Seq::<char>::empty()) == 0);
        assert(int_digits(n).last() == digit_char(n));
        assert(digits_val(int_digits(n)) == digits_val(int_digits(n).drop_last()) * 10 + digit_val(
            int_digits(n).last(),
        ));
    } else {
        lemma_int_digits(n / 10);
        lemma_digit_char_facts(n % 10);
        assert(int_digits(n).drop_last() =~= int_digits(n / 10));
        assert(int_digits(n).last() == digit_char(n % 10));
        assert(digits_val(int_digits(n)) == digits_val(int_digits(n / 10)) * 10 + digit_val(
            digit_char(n % 10),
        ));
        assert((n / 10) * 10 + n % 10 == n) by (nonlinear_arith)
            requires
                n >= 10,
        ;
        assert forall|i: int| 0 <= i < int_digits(n).len() implies is_ascii_number(
            #[trigger] int_digits(n)[i],
        ) by {
            if i < int_digits(n).len() - 1 {
                assert(int_digits(n)[i] == int_digits(n / 10)[i]);
            } else {
                assert(int_digits(n)[i] == digit_char(n % 10));
            }
        }
    }
}

/// Dropping leading whitespace leaves none in front, and leaves strings that
/// start with none alone.
proof fn lemma_drop_ws(s: Seq<char>)
    ensures
        drop_ws(s).len() <= s.len(),
        drop_ws(s).len() > 0 ==> !is_ws(drop_ws(s)[0]),
        s.len() > 0 && !is_ws(s[0]) ==> drop_ws(s) == s,
        s.len() == 0 ==> drop_ws(s) == s,
{
    lemma_run_len(s, 0, ws_pred());
    if s.len() > 0 && !is_ws(s[0]) {
        lemma_run_len_unique(s, 0, ws_pred(), 0);
        assert(drop_ws(s) =~= s);
    }
    if s.len() == 0 {
        assert(drop_ws(s) =~= s);
    }
}

/// Parsing an identifier off its own rendering: the maximal run is exactly
/// the identifier when what follows starts otherwise.
proof fn lemma_parse_ident_exact(root: Seq<char>, rest: Seq<char>)
    requires
        ident_wf(root),
        rest.len() == 0 || !is_ident_char(rest[0]),
    ensures
        spec_parse_ident(root + rest) == Some((root, rest)),
{
    let s = root + rest;
    lemma_ident_char_facts(s[0]);
    lemma_run_len_unique(s, 0, ws_pred(), 0);
    lemma_run_len_unique(s, 0, ident_pred(), root.len() as int);
    assert(s.subrange(0, root.len() as int) =~= root);
    assert(s.subrange(root.len() as int, s.len() as int) =~= rest);
}

/// Parsing an operator off its own rendering.
proof fn lemma_parse_op_exact(op: Operator, rest: Seq<char>)
    requires
        op == Operator::Lt || op == Operator::Gt ==> rest.len() == 0 || rest[0] != '=',
    ensures
        spec_parse_op(render_op(op) + rest) == Some((op, rest)),
{
    let s = render_op(op) + rest;
    lemma_run_len_unique(s, 0, ws_pred(), 0);
    assert(s.subrange(0, s.len() as int) =~= s);
    match op {
        Operator::Eq | Operator::Lt | Operator::Gt => {
            assert(s.subrange(1, s.len() as int) =~= rest);
        },
        Operator::Ne | Operator::Le | Operator::Ge => {
            assert(s.subrange(2, s.len() as int) =~= rest);
        },
    }
}

/// Parsing a literal off its own rendering.
proof fn lemma_parse_lit_exact(l: LitView, rest: Seq<char>)
    requires
        lit_wf(l),
        rest.len() == 0 || is_ws(rest[0]),
    ensures
        spec_parse_lit(render_lit(l) + rest) == Some((l, rest)),
{
    let s = render_lit(l) + rest;
    match l {
        LitView::Integer(i) => {
            lemma_int_digits(i);
            let ds = int_digits(i);
            lemma_number_char_facts(ds[0]);
            assert(!is_ws(s[0]));
            lemma_run_len_unique(s, 0, ws_pred(), 0);
            assert(s.subrange(0, s.len() as int) =~= s);
            lemma_run_len_unique(s, 0, digit_pred(), ds.len() as int);
            assert(s.subrange(0, ds.len() as int) =~= ds);
            assert(s.subrange(ds.len() as int, s.len() as int) =~= rest);
            assert(s[0] != '\'' && s[0] != '"');
        },
        LitView::Str(body) => {
            if has_space(body) {
                // Rendered single-quoted.
                assert(s[0] == '\'');
                lemma_run_len_unique(s, 0, ws_pred(), 0);
                assert(s.subrange(0, s.len() as int) =~= s);
                let e = find_from(s, 1, '\'');
                lemma_find_from(s, 1, '\'');
                assert(s[body.len() as int + 1] == '\'');
                assert(forall|j: int| 1 <= j < body.len() as int + 1 ==> s[j] == body[j - 1]);
                assert(e == body.len() as int + 1);
                assert(s.subrange(1, e) =~= body);
                assert(s.subrange(e + 1, s.len() as int) =~= rest);
            } else {
                // Rendered bare.
                assert(s[0] == body[0]);
                assert(!is_ws(s[0]));
                lemma_run_len_unique(s, 0, ws_pred(), 0);
                assert(s.subrange(0, s.len() as int) =~= s);
                lemma_run_len_unique(s, 0, digit_pred(), 0);
                lemma_run_len_unique(s, 0, nonws_pred(), body.len() as int);
                assert(s.subrange(0, body.len() as int) =~= body);
                assert(s.subrange(body.len() as int, s.len() as int) =~= rest);
            }
        },
    }
}

/// Parsing a predicate off its own rendering.
proof fn lemma_parse_pred_exact(p: PredView, rest: Seq<char>)
    requires
        pred_wf(p),
        rest.len() == 0 || is_ws(rest[0]),
    ensures
        spec_parse_pred(render_pred(p) + rest) == Some((p, rest)),
{
    let s = render_pred(p) + rest;
    let after_ident = render_op(p.operator) + (render_lit(p.value) + rest);
    assert(s =~= p.identifier + after_ident);
    lemma_render_lit_shape(p.value);
    lemma_ident_char_facts(p.identifier[0]);
    assert(!is_ident_char(after_ident[0])) by {
        match p.operator {
            Operator::Eq => assert(after_ident[0] == '='),
            Operator::Ne => assert(after_ident[0] == '!'),
            Operator::Lt => assert(after_ident[0] == '<'),
            Operator::Gt => assert(after_ident[0] == '>'),
            Operator::Le => assert(after_ident[0] == '<'),
            Operator::Ge => assert(after_ident[0] == '>'),
        }
    }
    lemma_parse_ident_exact(p.identifier, after_ident);
    let after_op = render_lit(p.value) + rest;
    lemma_parse_op_exact(p.operator, after_op);
    lemma_parse_lit_exact(p.value, rest);
}

/// The rendering of a well-formed literal is non-empty, starts with no
/// whitespace, and starts with no identifier character unless bare.
proof fn lemma_render_lit_shape(l: LitView)
    requires
        lit_wf(l),
    ensures
        render_lit(l).len() >= 1,
        !is_ws(render_lit(l)[0]),
{
    match l {
        LitView::Integer(i) => {
            lemma_int_digits(i);
            lemma_number_char_facts(int_digits(i)[0]);
        },
        LitView::Str(body) => {
            if has_space(body) {
            } else {
            }
        },
    }
}

// ---------------------------------------------------------------------------
// Shapes of renderings
// ---------------------------------------------------------------------------

/// The rendering of a well-formed tree starts with its root identifier.
proof fn lemma_render_tree_shape(t: TreeView<Seq<char>>)
    requires
        tree_wf(t),
    ensures
        render_tree(t).len() >= t.root.len() >= 1,
        render_tree(t)[0] == t.root[0],
        is_ident_char(render_tree(t)[0]),
{
}

/// The rendering of the later siblings starts with the `+` separator.
proof fn lemma_render_children_shape(cs: Seq<TreeView<Seq<char>>>, k: int)
    requires
        1 <= k < cs.len(),
        tree_wf(cs[k]),
    ensures
        render_children(cs, k).len() >= 2,
        render_children(cs, k)[0] == '+',
{
    lemma_render_tree_shape(cs[k]);
}

/// The rendering of a well-formed predicate starts with its identifier and
/// holds at least the identifier and the operator.
proof fn lemma_render_pred_shape(p: PredView)
    requires
        pred_wf(p),
    ensures
        render_pred(p).len() >= 2,
        render_pred(p)[0] == p.identifier[0],
        is_ident_char(render_pred(p)[0]),
{
    lemma_render_lit_shape(p.value);
}

/// The rendering of the predicates from `k` on is empty or starts with a
/// space, and holds at least two characters per predicate.
proof fn lemma_render_preds_shape(ps: Seq<PredView>, k: int)
    requires
        0 <= k <= ps.len(),
        forall|i: int| 0 <= i < ps.len() ==> pred_wf(#[trigger] ps[i]),
    ensures
        render_preds(ps, k).len() >= 2 * (ps.len() - k),
        k < ps.len() ==> render_preds(ps, k)[0] == ' ',
    decreases ps.len() - k,
{
    if k < ps.len() {
        lemma_render_pred_shape(ps[k]);
        lemma_render_preds_shape(ps, k + 1);
    }
}

// ---------------------------------------------------------------------------
// Parsed trees are well-formed
// ---------------------------------------------------------------------------

/// A parsed identifier is well-formed, and the rest cannot extend it.
proof fn lemma_parse_ident_shape(s: Seq<char>)
    ensures
        match spec_parse_ident(s) {
            Some(p) => {
                &&& ident_wf(p.0)
                &&& p.1.len() < s.len()
                &&& (p.1.len() > 0 ==> !is_ident_char(p.1[0]))
            },
            None => true,
        },
{
    let a = run_len(s, 0, ws_pred());
    lemma_run_len(s, 0, ws_pred());
    if 0 <= a <= s.len() {
        lemma_run_len(s, a, ident_pred());
    }
}

/// Every tree the parser yields is well-formed: identifiers throughout, and
/// only the last child of a node has children. The remaining input starts
/// with no whitespace, and with no `+` when the tree has children (its own
/// sibling list would have consumed it).
pub proof fn lemma_parse_tree_wf(s: Seq<char>, fuel: nat)
    ensures
        match spec_parse_tree(s, fuel) {
            Some(p) => {
                &&& tree_wf(p.0)
                &&& (p.1.len() > 0 ==> !is_ws(p.1[0]))
                &&& (p.0.children.len() > 0 && p.1.len() > 0 ==> p.1[0] != '+')
            },
            None => true,
        },
    decreases fuel,
{
    if fuel > 0 && spec_parse_tree(s, fuel) is Some {
        lemma_parse_ident_shape(s);
        let (root, rest1) = spec_parse_ident(s)->Some_0;
        let w = run_len(rest1, 0, ws_pred());
        lemma_run_len(rest1, 0, ws_pred());
        let r2 = rest1.subrange(w, rest1.len() as int);
        if r2.len() > 0 && r2[0] == '>' {
            let inner = r2.subrange(1, r2.len() as int);
            lemma_parse_tree_wf(inner, (fuel - 1) as nat);
            let (first, rest3) = spec_parse_tree(inner, (fuel - 1) as nat)->Some_0;
            lemma_parse_siblings_wf(rest3, (fuel - 1) as nat);
            let (siblings, rest4) = spec_parse_siblings(rest3, (fuel - 1) as nat)->Some_0;
            let t = spec_parse_tree(s, fuel)->Some_0.0;
            assert(t.children =~= seq![first] + siblings);
            if siblings.len() > 0 {
                // The sibling list is non-empty only when the first child
                // stopped at a `+`, which a child with children never does.
                assert(rest3.len() > 0 && rest3[0] == '+') by {
                    lemma_drop_ws(rest3);
                    assert(rest3.subrange(run_len(rest3, 0, ws_pred()), rest3.len() as int)
                        == drop_ws(rest3));
                }
                assert(first.children.len() == 0);
            }
            assert forall|i: int| 0 <= i < t.children.len() implies tree_wf(
                #[trigger] t.children[i],
            ) by {
                if i > 0 {
                    assert(t.children[i] == siblings[i - 1]);
                }
            }
            assert forall|i: int|
                0 <= i < t.children.len() - 1 implies (#[trigger] t.children[i]).children.len()
                == 0 by {
                if i > 0 {
                    assert(t.children[i] == siblings[i - 1]);
                }
            }
        }
    }
}

/// Every sibling list the parser yields holds well-formed trees, all leaves
/// but possibly the last; what remains starts with no whitespace and no `+`.
pub proof fn lemma_parse_siblings_wf(s: Seq<char>, fuel: nat)
    ensures
        match spec_parse_siblings(s, fuel) {
            Some(p) => {
                &&& forall|i: int| 0 <= i < p.0.len() ==> tree_wf(#[trigger] p.0[i])
                &&& forall|i: int|
                    0 <= i < p.0.len() - 1 ==> (#[trigger] p.0[i]).children.len() == 0
                &&& (p.1.len() > 0 ==> !is_ws(p.1[0]) && p.1[0] != '+')
            },
            None => true,
        },
    decreases fuel,
{
    if fuel > 0 && spec_parse_siblings(s, fuel) is Some {
        let w = run_len(s, 0, ws_pred());
        lemma_run_len(s, 0, ws_pred());
        let r = s.subrange(w, s.len() as int);
        if r.len() > 0 && r[0] == '+' {
            let inner = r.subrange(1, r.len() as int);
            lemma_parse_tree_wf(inner, (fuel - 1) as nat);
            let (child, rest2) = spec_parse_tree(inner, (fuel - 1) as nat)->Some_0;
            lemma_parse_siblings_wf(rest2, (fuel - 1) as nat);
            let (more, rest3) = spec_parse_siblings(rest2, (fuel - 1) as nat)->Some_0;
            let cs = spec_parse_siblings(s, fuel)->Some_0.0;
            assert(cs =~= seq![child] + more);
            if more.len() > 0 {
                assert(rest2.len() > 0 && rest2[0] == '+') by {
                    lemma_drop_ws(rest2);
                    assert(rest2.subrange(run_len(rest2, 0, ws_pred()), rest2.len() as int)
                        == drop_ws(rest2));
                }
                assert(child.children.len() == 0);
            }
            assert forall|i: int| 0 <= i < cs.len() implies tree_wf(#[trigger] cs[i]) by {
                if i > 0 {
                    assert(cs[i] == more[i - 1]);
                }
            }
            assert forall|i: int|
                0 <= i < cs.len() - 1 implies (#[trigger] cs[i]).children.len() == 0 by {
                if i > 0 {
                    assert(cs[i] == more[i - 1]);
                }
            }
        }
    }
}

/// Every query the parser yields carries a well-formed object tree and
/// well-formed predicate identifiers. Only a literal can keep a parsed query
/// outside [`query_wf`]: a quoted string that reads back as a number or that
/// holds the quote character, or a stray `=` after `<` or `>`.
pub proof fn lemma_parse_query_tree_wf(s: Seq<char>)
    ensures
        match spec_parse_query(s) {
            Some(q) => {
                &&& tree_wf(q.object)
                &&& forall|i: int|
                    0 <= i < q.predicates.len() ==> ident_wf(
                        (#[trigger] q.predicates[i]).identifier,
                    )
            },
            None => true,
        },
{
    if spec_parse_query(s) is Some {
        lemma_parse_tree_wf(s, tree_fuel(s));
        let (t, r) = spec_parse_tree(s, tree_fuel(s))->Some_0;
        lemma_parse_preds_ident_wf(r, preds_fuel(r));
    }
}

/// Every predicate list the parser yields has well-formed identifiers.
proof fn lemma_parse_preds_ident_wf(s: Seq<char>, fuel: nat)
    ensures
        match spec_parse_preds(s, fuel) {
            Some(ps) => forall|i: int|
                0 <= i < ps.len() ==> ident_wf((#[trigger] ps[i]).identifier),
            None => true,
        },
    decreases fuel,
{
    if fuel > 0 && spec_parse_preds(s, fuel) is Some {
        let a = run_len(s, 0, ws_pred());
        lemma_run_len(s, 0, ws_pred());
        let r = s.subrange(a, s.len() as int);
        if r.len() > 0 {
            lemma_parse_ident_shape(r);
            let (p, r2) = spec_parse_pred(r)->Some_0;
            lemma_parse_preds_ident_wf(r2, (fuel - 1) as nat);
            let more = spec_parse_preds(r2, (fuel - 1) as nat)->Some_0;
            let ps = spec_parse_preds(s, fuel)->Some_0;
            assert(ps =~= seq![p] + more);
            assert forall|i: int| 0 <= i < ps.len() implies ident_wf(
                (#[trigger] ps[i]).identifier,
            ) by {
                if i > 0 {
                    assert(ps[i] == more[i - 1]);
                }
            }
        }
    }
}

// ---------------------------------------------------------------------------
// The round trip itself
// ---------------------------------------------------------------------------

/// What may follow a rendered tree without extending its parse: nothing that
/// would prolong the final identifier, and — after whitespace — no `>`, nor
/// a `+` when the tree has children of its own (a leaf followed by `+` is a
/// sibling, consumed by its parent's list, not by the leaf).
pub open spec fn tree_follow(t: TreeView<Seq<char>>, rest: Seq<char>) -> bool {
    &&& rest.len() == 0 || !is_ident_char(rest[0])
    &&& drop_ws(rest).len() == 0 || drop_ws(rest)[0] != '>'
    &&& t.children.len() > 0 ==> (drop_ws(rest).len() == 0 || drop_ws(rest)[0] != '+')
}

/// Parsing a rendered well-formed tree yields the tree back, consuming the
/// whitespace that follows it.
pub proof fn lemma_roundtrip_tree(t: TreeView<Seq<char>>, rest: Seq<char>, fuel: nat)
    requires
        tree_wf(t),
        tree_follow(t, rest),
        fuel >= 2 * (render_tree(t) + rest).len() + 2,
    ensures
        spec_parse_tree(render_tree(t) + rest, fuel) == Some((t, drop_ws(rest))),
    decreases t, 1int, 0int,
{
    let s = render_tree(t) + rest;
    lemma_drop_ws(rest);
    if t.children.len() == 0 {
        assert(s =~= t.root + rest);
        lemma_parse_ident_exact(t.root, rest);
        assert(spec_parse_ident(s) == Some((t.root, rest)));
        assert(rest.subrange(run_len(rest, 0, ws_pred()), rest.len() as int) == drop_ws(rest));
        let tv = TreeView { root: t.root, children: Seq::<TreeView<Seq<char>>>::empty() };
        assert(t.children =~= Seq::<TreeView<Seq<char>>>::empty());
        assert(tv =~= t);
        assert(spec_parse_tree(s, fuel) == Some((t, drop_ws(rest))));
    } else {
        let cs = t.children;
        let rest0 = render_children(cs, 1) + rest;
        let rest1 = seq!['>'] + (render_tree(cs[0]) + rest0);
        assert(render_children(cs, 0) =~= render_tree(cs[0]) + render_children(cs, 1));
        assert(s =~= t.root + rest1);
        lemma_parse_ident_exact(t.root, rest1);
        assert(spec_parse_ident(s) == Some((t.root, rest1)));
        // No whitespace before the `>`.
        lemma_run_len_unique(rest1, 0, ws_pred(), 0);
        assert(rest1.subrange(0, rest1.len() as int) =~= rest1);
        assert(rest1[0] == '>');
        // The first child.
        let input0 = rest1.subrange(1, rest1.len() as int);
        assert(input0 =~= render_tree(cs[0]) + rest0);
        lemma_render_tree_shape(cs[0]);
        if cs.len() > 1 {
            lemma_render_children_shape(cs, 1);
            assert(rest0[0] == '+');
            lemma_drop_ws(rest0);
            assert(drop_ws(rest0) == rest0);
        } else {
            assert(rest0 =~= rest);
        }
        assert(tree_follow(cs[0], rest0));
        lemma_render_tree_shape(t);
        assert(s.len() == render_tree(t).len() + rest.len());
        assert(render_tree(t) =~= t.root + seq!['>'] + render_children(cs, 0));
        assert(input0.len() < s.len());
        lemma_roundtrip_tree(cs[0], rest0, (fuel - 1) as nat);
        assert(spec_parse_tree(input0, (fuel - 1) as nat) == Some((cs[0], drop_ws(rest0))));
        // The remaining siblings.
        if cs.len() > 1 {
            lemma_roundtrip_siblings(cs, 1, rest, (fuel - 1) as nat);
            assert(spec_parse_siblings(drop_ws(rest0), (fuel - 1) as nat) == Some(
                (cs.subrange(1, cs.len() as int), drop_ws(rest)),
            ));
            assert(seq![cs[0]] + cs.subrange(1, cs.len() as int) =~= cs);
        } else {
            // Unfold the sibling parse on what follows the only child.
            let x = drop_ws(rest);
            lemma_drop_ws(x);
            if x.len() > 0 {
                lemma_run_len_unique(x, 0, ws_pred(), 0);
            }
            assert(x.subrange(run_len(x, 0, ws_pred()), x.len() as int) =~= x);
            assert(spec_parse_siblings(x, (fuel - 1) as nat) == Some(
                (Seq::<TreeView<Seq<char>>>::empty(), x),
            ));
            assert(seq![cs[0]] + Seq::<TreeView<Seq<char>>>::empty() =~= cs);
        }
        assert(spec_parse_tree(s, fuel) is Some);
        assert(spec_parse_tree(s, fuel)->Some_0.0 =~= t);
        assert(spec_parse_tree(s, fuel)->Some_0.1 == drop_ws(rest));
    }
}

/// Parsing the rendering of the siblings from `k` on yields them back.
pub proof fn lemma_roundtrip_siblings(
    cs: Seq<TreeView<Seq<char>>>,
    k: int,
    rest: Seq<char>,
    fuel: nat,
)
    requires
        1 <= k <= cs.len(),
        forall|i: int| k <= i < cs.len() ==> tree_wf(#[trigger] cs[i]),
        forall|i: int| k <= i < cs.len() - 1 ==> (#[trigger] cs[i]).children.len() == 0,
        rest.len() == 0 || !is_ident_char(rest[0]),
        drop_ws(rest).len() == 0 || (drop_ws(rest)[0] != '>' && drop_ws(rest)[0] != '+'),
        fuel >= 2 * (render_children(cs, k) + rest).len() + 2,
    ensures
        spec_parse_siblings(render_children(cs, k) + rest, fuel) == Some(
            (cs.subrange(k, cs.len() as int), drop_ws(rest)),
        ),
    decreases cs, 0int, cs.len() - k,
{
    let s = render_children(cs, k) + rest;
    lemma_drop_ws(rest);
    if k == cs.len() {
        assert(s =~= rest);
        assert(rest.subrange(run_len(rest, 0, ws_pred()), rest.len() as int) == drop_ws(rest));
        assert(cs.subrange(k, cs.len() as int) =~= Seq::<TreeView<Seq<char>>>::empty());
        assert(spec_parse_siblings(s, fuel) == Some(
            (Seq::<TreeView<Seq<char>>>::empty(), drop_ws(rest)),
        ));
    } else {
        let rest0 = render_children(cs, k + 1) + rest;
        assert(s =~= seq!['+'] + (render_tree(cs[k]) + rest0));
        lemma_run_len_unique(s, 0, ws_pred(), 0);
        assert(s.subrange(0, s.len() as int) =~= s);
        assert(s[0] == '+');
        let input0 = s.subrange(1, s.len() as int);
        assert(input0 =~= render_tree(cs[k]) + rest0);
        lemma_render_tree_shape(cs[k]);
        if k + 1 < cs.len() {
            lemma_render_children_shape(cs, k + 1);
            assert(rest0[0] == '+');
            lemma_drop_ws(rest0);
            assert(drop_ws(rest0) == rest0);
        } else {
            assert(rest0 =~= rest);
        }
        assert(tree_follow(cs[k], rest0));
        lemma_roundtrip_tree(cs[k], rest0, (fuel - 1) as nat);
        assert(spec_parse_tree(input0, (fuel - 1) as nat) == Some((cs[k], drop_ws(rest0))));
        if k + 1 < cs.len() {
            lemma_roundtrip_siblings(cs, k + 1, rest, (fuel - 1) as nat);
            assert(spec_parse_siblings(drop_ws(rest0), (fuel - 1) as nat) == Some(
                (cs.subrange(k + 1, cs.len() as int), drop_ws(rest)),
            ));
        } else {
            let x = drop_ws(rest);
            lemma_drop_ws(x);
            if x.len() > 0 {
                lemma_run_len_unique(x, 0, ws_pred(), 0);
            }
            assert(x.subrange(run_len(x, 0, ws_pred()), x.len() as int) =~= x);
            assert(spec_parse_siblings(x, (fuel - 1) as nat) == Some(
                (Seq::<TreeView<Seq<char>>>::empty(), x),
            ));
        }
        assert(seq![cs[k]] + cs.subrange(k + 1, cs.len() as int) =~= cs.subrange(
            k,
            cs.len() as int,
        ));
        assert(spec_parse_siblings(s, fuel) is Some);
        assert(spec_parse_siblings(s, fuel)->Some_0.0 =~= cs.subrange(k, cs.len() as int));
        assert(spec_parse_siblings(s, fuel)->Some_0.1 == drop_ws(rest));
    }
}

/// Parsing the rendering of the predicates from `k` on yields them back.
pub proof fn lemma_roundtrip_preds(ps: Seq<PredView>, k: int, fuel: nat)
    requires
        0 <= k <= ps.len(),
        forall|i: int| 0 <= i < ps.len() ==> pred_wf(#[trigger] ps[i]),
        fuel >= ps.len() - k + 1,
    ensures
        spec_parse_preds(render_preds(ps, k), fuel) == Some(ps.subrange(k, ps.len() as int)),
    decreases ps.len() - k,
{
    let s = render_preds(ps, k);
    if k == ps.len() {
        assert(s =~= Seq::<char>::empty());
        lemma_run_len_unique(s, 0, ws_pred(), 0);
        assert(s.subrange(0, 0) =~= s);
        assert(ps.subrange(k, ps.len() as int) =~= Seq::<PredView>::empty());
    } else {
        let rest2 = render_preds(ps, k + 1);
        assert(s =~= seq![' '] + (render_pred(ps[k]) + rest2));
        lemma_render_pred_shape(ps[k]);
        lemma_ident_char_facts(render_pred(ps[k])[0]);
        lemma_run_len_unique(s, 0, ws_pred(), 1);
        let r = s.subrange(1, s.len() as int);
        assert(r =~= render_pred(ps[k]) + rest2);
        lemma_render_preds_shape(ps, k + 1);
        lemma_parse_pred_exact(ps[k], rest2);
        assert(spec_parse_pred(r) == Some((ps[k], rest2)));
        lemma_roundtrip_preds(ps, k + 1, (fuel - 1) as nat);
        assert(seq![ps[k]] + ps.subrange(k + 1, ps.len() as int) =~= ps.subrange(
            k,
            ps.len() as int,
        ));
        assert(spec_parse_preds(s, fuel) is Some);
        assert(spec_parse_preds(s, fuel)->Some_0 =~= ps.subrange(k, ps.len() as int));
    }
}

/// The predicate parse skips leading whitespace itself: dropping it first
/// changes nothing.
proof fn lemma_preds_drop_ws(s: Seq<char>, fuel: nat)
    requires
        fuel >= 1,
    ensures
        spec_parse_preds(s, fuel) == spec_parse_preds(drop_ws(s), fuel),
{
    lemma_drop_ws(s);
    let x = drop_ws(s);
    if x.len() > 0 {
        lemma_run_len_unique(x, 0, ws_pred(), 0);
    }
    assert(s.subrange(run_len(s, 0, ws_pred()), s.len() as int) == x);
    assert(x.subrange(run_len(x, 0, ws_pred()), x.len() as int) =~= x);
}

/// The round trip: parsing the rendering of any well-formed query yields the
/// query unchanged. Since the parser's contract says it returns exactly
/// [`spec_parse_query`] of its input and the renderer's that it writes
/// exactly [`render_query`] of its argument, this carries over to the
/// executable pair.
pub proof fn lemma_parse_render_query(q: QueryView)
    requires
        query_wf(q),
    ensures
        spec_parse_query(render_query(q)) == Some(q),
{
    let ps = q.predicates;
    let rest = render_preds(ps, 0);
    let s = render_query(q);
    assert(s == render_tree(q.object) + rest);
    lemma_render_preds_shape(ps, 0);
    lemma_drop_ws(rest);
    if ps.len() > 0 {
        assert(rest[0] == ' ');
        assert(rest =~= seq![' '] + (render_pred(ps[0]) + render_preds(ps, 1)));
        lemma_render_pred_shape(ps[0]);
        lemma_run_len_unique(rest, 0, ws_pred(), 1);
        assert(drop_ws(rest) =~= render_pred(ps[0]) + render_preds(ps, 1));
        lemma_ident_char_facts(drop_ws(rest)[0]);
    } else {
        assert(rest =~= Seq::<char>::empty());
        lemma_run_len_unique(rest, 0, ws_pred(), 0);
        assert(drop_ws(rest) =~= Seq::<char>::empty());
    }
    assert(tree_follow(q.object, rest));
    lemma_roundtrip_tree(q.object, rest, tree_fuel(s));
    assert(spec_parse_tree(s, tree_fuel(s)) == Some((q.object, drop_ws(rest))));
    let f = preds_fuel(drop_ws(rest));
    lemma_preds_drop_ws(rest, f);
    assert(f >= ps.len() + 1) by {
        if ps.len() > 0 {
            assert(drop_ws(rest).len() == rest.len() - 1);
            assert(rest.len() >= 2 * ps.len());
        }
    }
    lemma_roundtrip_preds(ps, 0, f);
    assert(ps.subrange(0, ps.len() as int) =~= ps);
    assert(spec_parse_query(s) is Some);
    assert(spec_parse_query(s)->Some_0 =~= q);
}

} // verus!

