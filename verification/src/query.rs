//! The shorthand query language: its data model, a renderer back to text,
//! and a single-pass recursive-descent parser.

use vstd::prelude::*;

use crate::alg::{is_ascii_letter, is_ascii_number};

verus! {

// ---------------------------------------------------------------------------
// Data model
// ---------------------------------------------------------------------------

/// A literal value in a predicate.
#[derive(Debug, Clone, PartialEq)]
pub enum Literal {
    /// A string literal.
    Str(String),
    /// An integer literal.
    Integer(i64),
}

/// Boolean operators for query predicates.
#[derive(Debug, Clone, Copy, PartialEq, Eq, Structural)]
pub enum Operator {
    Eq,
    Ne,
    Lt,
    Gt,
    Le,
    Ge,
}

/// A tree structure representing a hierarchy of objects.
///
/// Models syntax like `a>b+c>d` where `a` is the root, `b` and `c` are
/// children of `a`, and `d` is a child of `c`.
#[derive(Debug, PartialEq)]
pub struct ObjectTree<T> {
    pub root: T,
    pub children: Vec<ObjectTree<T>>,
}

/// A predicate for filtering results in a query.
#[derive(Debug, Clone, PartialEq)]
pub struct Predicate<T> {
    pub identifier: T,
    pub operator: Operator,
    pub value: Literal,
}

/// Models a SQL-like query: the object hierarchy queried, and the predicates
/// filtering it.
#[derive(Debug, PartialEq)]
pub struct Query<O, P> {
    pub object: ObjectTree<O>,
    pub predicates: Vec<Predicate<P>>,
}

/// Error type for syntax errors encountered during parsing. It carries no
/// position information: callers get only "malformed input".
#[derive(Debug, Clone, Copy, PartialEq, Eq, Structural)]
pub struct SyntaxError;

// ---------------------------------------------------------------------------
// Mathematical views
// ---------------------------------------------------------------------------

/// The mathematical form of an object tree.
#[verifier::ext_equal]
pub struct TreeView<T> {
    pub root: T,
    pub children: Seq<TreeView<T>>,
}

/// The mathematical form of a literal.
pub enum LitView {
    Str(Seq<char>),
    Integer(int),
}

/// The mathematical form of a predicate.
#[verifier::ext_equal]
pub struct PredView {
    pub identifier: Seq<char>,
    pub operator: Operator,
    pub value: LitView,
}

/// The mathematical form of a query.
#[verifier::ext_equal]
pub struct QueryView {
    pub object: TreeView<Seq<char>>,
    pub predicates: Seq<PredView>,
}

impl ObjectTree<String> {
    /// The mathematical form of this tree.
    pub open spec fn view(&self) -> TreeView<Seq<char>>
        decreases *self,
    {
        TreeView {
            root: self.root@,
            children: Seq::new(
                self.children@.len(),
                |i: int|
                    if 0 <= i < self.children@.len() {
                        self.children@[i].view()
                    } else {
                        TreeView { root: Seq::empty(), children: Seq::empty() }
                    },
            ),
        }
    }
}

impl Literal {
    /// The mathematical form of this literal.
    pub open spec fn view(&self) -> LitView {
        match self {
            Literal::Str(s) => LitView::Str(s@),
            Literal::Integer(i) => LitView::Integer(*i as int),
        }
    }
}

impl Predicate<String> {
    /// The mathematical form of this predicate.
    pub open spec fn view(&self) -> PredView {
        PredView { identifier: self.identifier@, operator: self.operator, value: self.value@ }
    }
}

impl Query<String, String> {
    /// The mathematical form of this query.
    pub open spec fn view(&self) -> QueryView {
        QueryView {
            object: self.object@,
            predicates: self.predicates@.map_values(|p: Predicate<String>| p@),
        }
    }
}

// ---------------------------------------------------------------------------
// Character classes and text runs
// ---------------------------------------------------------------------------

/// Whitespace, as the grammar knows it: ASCII blanks.
pub open spec fn is_ws(c: char) -> bool {
    c == ' ' || c == '\t' || c == '\n' || c == '\r'
}

/// Characters an identifier may consist of: ASCII letters, ASCII digits and
/// the underscore.
pub open spec fn is_ident_char(c: char) -> bool {
    is_ascii_letter(c) || is_ascii_number(c) || c == '_'
}

/// The length of the run of characters satisfying `p` that starts at
/// position `i` of `s`.
pub open spec fn run_len(s: Seq<char>, i: int, p: spec_fn(char) -> bool) -> int
    decreases s.len() - i,
{
    if 0 <= i < s.len() && p(s[i]) {
        1 + run_len(s, i + 1, p)
    } else {
        0
    }
}

/// A run starting inside `s` stays inside `s`, covers only characters
/// satisfying `p`, and is maximal.
pub proof fn lemma_run_len(s: Seq<char>, i: int, p: spec_fn(char) -> bool)
    requires
        0 <= i <= s.len(),
    ensures
        i <= i + run_len(s, i, p) <= s.len(),
        forall|j: int| i <= j < i + run_len(s, i, p) ==> p(s[j]),
        i + run_len(s, i, p) < s.len() ==> !p(s[i + run_len(s, i, p)]),
    decreases s.len() - i,
{
    if i < s.len() && p(s[i]) {
        lemma_run_len(s, i + 1, p);
    }
}

/// The first position at or after `i` holding the character `c`, or the
/// length of `s` when there is none.
pub open spec fn find_from(s: Seq<char>, i: int, c: char) -> int
    decreases s.len() - i,
{
    if 0 <= i < s.len() {
        if s[i] == c {
            i
        } else {
            find_from(s, i + 1, c)
        }
    } else {
        s.len() as int
    }
}

/// `find_from` lands on the first occurrence, or past the end.
pub proof fn lemma_find_from(s: Seq<char>, i: int, c: char)
    requires
        0 <= i <= s.len(),
    ensures
        i <= find_from(s, i, c) <= s.len(),
        find_from(s, i, c) < s.len() ==> s[find_from(s, i, c)] == c,
        forall|j: int| i <= j < find_from(s, i, c) ==> s[j] != c,
    decreases s.len() - i,
{
    if i < s.len() && s[i] != c {
        lemma_find_from(s, i + 1, c);
    }
}

// ---------------------------------------------------------------------------
// Rendering, mathematically
// ---------------------------------------------------------------------------

/// The decimal digit character for a value between 0 and 9.
pub open spec fn digit_char(d: int) -> char {
    ((48 + d) as u8) as char
}

/// The numeric value of a decimal digit character.
pub open spec fn digit_val(c: char) -> int {
    c as u32 - 48
}

/// The decimal digits of a non-negative integer, most significant first.
pub open spec fn int_digits(n: int) -> Seq<char>
    decreases n,
{
    if n < 10 {
        seq![digit_char(n)]
    } else {
        int_digits(n / 10) + seq![digit_char(n % 10)]
    }
}

/// The decimal rendering of an integer, with a leading minus sign when
/// negative.
pub open spec fn int_str(n: int) -> Seq<char> {
    if n < 0 {
        seq!['-'] + int_digits(-n)
    } else {
        int_digits(n)
    }
}

/// True when the string holds a space character.
pub open spec fn has_space(s: Seq<char>) -> bool {
    exists|i: int| 0 <= i < s.len() && s[i] == ' '
}

/// How a literal renders: a string holding a space is single-quoted, any
/// other string prints bare, and an integer prints as decimal digits.
pub open spec fn render_lit(l: LitView) -> Seq<char> {
    match l {
        LitView::Str(s) => if has_space(s) {
            seq!['\''] + s + seq!['\'']
        } else {
            s
        },
        LitView::Integer(i) => int_str(i),
    }
}

/// How an operator renders.
pub open spec fn render_op(op: Operator) -> Seq<char> {
    match op {
        Operator::Eq => seq!['='],
        Operator::Ne => seq!['!', '='],
        Operator::Lt => seq!['<'],
        Operator::Gt => seq!['>'],
        Operator::Le => seq!['<', '='],
        Operator::Ge => seq!['>', '='],
    }
}

/// How a predicate renders: identifier, operator and value, unseparated.
pub open spec fn render_pred(p: PredView) -> Seq<char> {
    p.identifier + render_op(p.operator) + render_lit(p.value)
}

/// How the predicates from position `k` on render: each preceded by one
/// space.
pub open spec fn render_preds(ps: Seq<PredView>, k: int) -> Seq<char>
    decreases ps.len() - k,
{
    if 0 <= k < ps.len() {
        seq![' '] + render_pred(ps[k]) + render_preds(ps, k + 1)
    } else {
        Seq::empty()
    }
}

/// How the children of a node from position `k` on render: joined by `+`.
pub open spec fn render_children(cs: Seq<TreeView<Seq<char>>>, k: int) -> Seq<char>
    decreases cs, cs.len() - k,
{
    if 0 <= k < cs.len() {
        if k == 0 {
            render_tree(cs[0]) + render_children(cs, 1)
        } else {
            seq!['+'] + render_tree(cs[k]) + render_children(cs, k + 1)
        }
    } else {
        Seq::empty()
    }
}

/// How an object tree renders: the root identifier and, when there are
/// children, a `>` followed by the children joined by `+`.
pub open spec fn render_tree(t: TreeView<Seq<char>>) -> Seq<char>
    decreases t, 0int,
{
    if t.children.len() == 0 {
        t.root
    } else {
        t.root + seq!['>'] + render_children(t.children, 0)
    }
}

/// How a whole query renders: the object tree, then the predicates, each
/// preceded by one space.
pub open spec fn render_query(q: QueryView) -> Seq<char> {
    render_tree(q.object) + render_preds(q.predicates, 0)
}

// ---------------------------------------------------------------------------
// Parsing, mathematically
// ---------------------------------------------------------------------------

/// The whitespace class, as one value, so that every use names the same
/// function.
pub open spec fn ws_pred() -> spec_fn(char) -> bool {
    |c: char| is_ws(c)
}

/// The identifier-character class, as one value.
pub open spec fn ident_pred() -> spec_fn(char) -> bool {
    |c: char| is_ident_char(c)
}

/// The ASCII-digit class, as one value.
pub open spec fn digit_pred() -> spec_fn(char) -> bool {
    |c: char| is_ascii_number(c)
}

/// The non-whitespace class, as one value.
pub open spec fn nonws_pred() -> spec_fn(char) -> bool {
    |c: char| !is_ws(c)
}

/// A run is pinned down by its properties: if everything from `i` up to `k`
/// satisfies `p` and `k` is the end of the input or fails `p`, the run from
/// `i` ends exactly at `k`.
pub proof fn lemma_run_len_unique(s: Seq<char>, i: int, p: spec_fn(char) -> bool, k: int)
    requires
        0 <= i <= k <= s.len(),
        forall|j: int| i <= j < k ==> p(s[j]),
        k < s.len() ==> !p(s[k]),
    ensures
        run_len(s, i, p) == k - i,
    decreases k - i,
{
    if i < k {
        lemma_run_len_unique(s, i + 1, p, k);
    }
}

/// The numeric value of a run of decimal digit characters, most significant
/// first.
pub open spec fn digits_val(ds: Seq<char>) -> int
    decreases ds.len(),
{
    if ds.len() == 0 {
        0
    } else {
        digits_val(ds.drop_last()) * 10 + digit_val(ds.last())
    }
}

/// The value of a digit run is never negative.
pub proof fn lemma_digits_val_nonneg(ds: Seq<char>)
    requires
        forall|j: int| 0 <= j < ds.len() ==> is_ascii_number(#[trigger] ds[j]),
    ensures
        digits_val(ds) >= 0,
    decreases ds.len(),
{
    if ds.len() > 0 {
        lemma_digits_val_nonneg(ds.drop_last());
    }
}

/// The value of a digit run is at least the value of any of its prefixes.
pub proof fn lemma_digits_val_mono(ds: Seq<char>, k: int)
    requires
        0 <= k <= ds.len(),
        forall|j: int| 0 <= j < ds.len() ==> is_ascii_number(#[trigger] ds[j]),
    ensures
        digits_val(ds.subrange(0, k)) <= digits_val(ds),
    decreases ds.len() - k,
{
    if k == ds.len() {
        assert(ds.subrange(0, k) =~= ds);
    } else {
        lemma_digits_val_mono(ds, k + 1);
        let a = ds.subrange(0, k);
        let b = ds.subrange(0, k + 1);
        assert(b.drop_last() =~= a);
        lemma_digits_val_nonneg(a);
    }
}

/// Parses a leading identifier: optional whitespace, then a non-empty
/// maximal run of identifier characters. Yields the identifier and the rest
/// of the input.
pub open spec fn spec_parse_ident(s: Seq<char>) -> Option<(Seq<char>, Seq<char>)> {
    let a = run_len(s, 0, ws_pred());
    let l = run_len(s, a, ident_pred());
    if l == 0 {
        None
    } else {
        Some((s.subrange(a, a + l), s.subrange(a + l, s.len() as int)))
    }
}

/// Parses an object tree: an identifier, optionally followed by `>` and one
/// or more children separated by `+`. Trailing whitespace is consumed. The
/// fuel only bounds recursion depth; any fuel beyond twice the input length
/// gives the same answer.
pub open spec fn spec_parse_tree(s: Seq<char>, fuel: nat) -> Option<(TreeView<Seq<char>>, Seq<char>)>
    decreases fuel,
{
    if fuel == 0 {
        None
    } else {
        match spec_parse_ident(s) {
            None => None,
            Some((root, r1)) => {
                let w = run_len(r1, 0, ws_pred());
                let r2 = r1.subrange(w, r1.len() as int);
                if r2.len() > 0 && r2[0] == '>' {
                    match spec_parse_tree(r2.subrange(1, r2.len() as int), (fuel - 1) as nat) {
                        None => None,
                        Some((first, r3)) => match spec_parse_siblings(r3, (fuel - 1) as nat) {
                            None => None,
                            Some((rest_children, r4)) => Some(
                                (
                                    TreeView { root, children: seq![first] + rest_children },
                                    r4,
                                ),
                            ),
                        },
                    }
                } else {
                    Some((TreeView { root, children: Seq::empty() }, r2))
                }
            },
        }
    }
}

/// Parses the `+`-separated siblings that may follow a child tree, leaving
/// the input whitespace-skipped when no `+` follows.
pub open spec fn spec_parse_siblings(s: Seq<char>, fuel: nat) -> Option<
    (Seq<TreeView<Seq<char>>>, Seq<char>),
>
    decreases fuel,
{
    if fuel == 0 {
        None
    } else {
        let w = run_len(s, 0, ws_pred());
        let r = s.subrange(w, s.len() as int);
        if r.len() > 0 && r[0] == '+' {
            match spec_parse_tree(r.subrange(1, r.len() as int), (fuel - 1) as nat) {
                None => None,
                Some((child, r2)) => match spec_parse_siblings(r2, (fuel - 1) as nat) {
                    None => None,
                    Some((siblings, r3)) => Some((seq![child] + siblings, r3)),
                },
            }
        } else {
            Some((Seq::empty(), r))
        }
    }
}

/// Parses an operator: one of `=`, `!=`, `<`, `<=`, `>`, `>=`, after
/// optional whitespace.
pub open spec fn spec_parse_op(s: Seq<char>) -> Option<(Operator, Seq<char>)> {
    let a = run_len(s, 0, ws_pred());
    let r = s.subrange(a, s.len() as int);
    if r.len() == 0 {
        None
    } else if r[0] == '=' {
        Some((Operator::Eq, r.subrange(1, r.len() as int)))
    } else if r[0] == '!' {
        if r.len() >= 2 && r[1] == '=' {
            Some((Operator::Ne, r.subrange(2, r.len() as int)))
        } else {
            None
        }
    } else if r[0] == '<' {
        if r.len() >= 2 && r[1] == '=' {
            Some((Operator::Le, r.subrange(2, r.len() as int)))
        } else {
            Some((Operator::Lt, r.subrange(1, r.len() as int)))
        }
    } else if r[0] == '>' {
        if r.len() >= 2 && r[1] == '=' {
            Some((Operator::Ge, r.subrange(2, r.len() as int)))
        } else {
            Some((Operator::Gt, r.subrange(1, r.len() as int)))
        }
    } else {
        None
    }
}

/// Parses a literal: a quoted string, else a maximal digit run read as an
/// integer (rejected if it exceeds the integer range), else a bare word up
/// to the next whitespace.
pub open spec fn spec_parse_lit(s: Seq<char>) -> Option<(LitView, Seq<char>)> {
    let a = run_len(s, 0, ws_pred());
    let r = s.subrange(a, s.len() as int);
    if r.len() == 0 {
        None
    } else if r[0] == '\'' || r[0] == '"' {
        let e = find_from(r, 1, r[0]);
        if e < r.len() {
            Some((LitView::Str(r.subrange(1, e)), r.subrange(e + 1, r.len() as int)))
        } else {
            None
        }
    } else {
        let d = run_len(r, 0, digit_pred());
        if d > 0 {
            let v = digits_val(r.subrange(0, d));
            if v <= i64::MAX {
                Some((LitView::Integer(v), r.subrange(d, r.len() as int)))
            } else {
                None
            }
        } else {
            let w = run_len(r, 0, nonws_pred());
            if w > 0 {
                Some((LitView::Str(r.subrange(0, w)), r.subrange(w, r.len() as int)))
            } else {
                None
            }
        }
    }
}

/// Parses a predicate: identifier, operator, literal.
pub open spec fn spec_parse_pred(s: Seq<char>) -> Option<(PredView, Seq<char>)> {
    match spec_parse_ident(s) {
        None => None,
        Some((id, r1)) => match spec_parse_op(r1) {
            None => None,
            Some((op, r2)) => match spec_parse_lit(r2) {
                None => None,
                Some((v, r3)) => Some(
                    (PredView { identifier: id, operator: op, value: v }, r3),
                ),
            },
        },
    }
}

/// Parses the predicate list that ends a query: predicates until the input,
/// after whitespace, is exhausted. Any fuel beyond the input length gives
/// the same answer.
pub open spec fn spec_parse_preds(s: Seq<char>, fuel: nat) -> Option<Seq<PredView>>
    decreases fuel,
{
    if fuel == 0 {
        None
    } else {
        let a = run_len(s, 0, ws_pred());
        let r = s.subrange(a, s.len() as int);
        if r.len() == 0 {
            Some(Seq::empty())
        } else {
            match spec_parse_pred(r) {
                None => None,
                Some((p, r2)) => match spec_parse_preds(r2, (fuel - 1) as nat) {
                    None => None,
                    Some(ps) => Some(seq![p] + ps),
                },
            }
        }
    }
}

/// The input with its leading whitespace dropped.
pub open spec fn drop_ws(s: Seq<char>) -> Seq<char> {
    s.subrange(run_len(s, 0, ws_pred()), s.len() as int)
}

/// Fuel that is always sufficient for [`spec_parse_tree`] on `s`.
pub open spec fn tree_fuel(s: Seq<char>) -> nat {
    (2 * s.len() + 2) as nat
}

/// Fuel that is always sufficient for [`spec_parse_preds`] on `s`.
pub open spec fn preds_fuel(s: Seq<char>) -> nat {
    (s.len() + 1) as nat
}

/// Parses a whole query: an object tree followed by predicates until the
/// input is exhausted. `None` is a syntax error; the parse is all-or-nothing.
pub open spec fn spec_parse_query(s: Seq<char>) -> Option<QueryView> {
    match spec_parse_tree(s, tree_fuel(s)) {
        None => None,
        Some((t, r)) => match spec_parse_preds(r, preds_fuel(r)) {
            None => None,
            Some(ps) => Some(QueryView { object: t, predicates: ps }),
        },
    }
}

// ---------------------------------------------------------------------------
// Parsing, executably
// ---------------------------------------------------------------------------

/// Exec mirror of [`is_ws`].
fn ws_char(c: char) -> (r: bool)
    ensures
        r == is_ws(c),
{
    c == ' ' || c == '\t' || c == '\n' || c == '\r'
}

/// Exec mirror of [`is_ident_char`].
fn ident_char(c: char) -> (r: bool)
    ensures
        r == is_ident_char(c),
{
    crate::alg::ascii_letter(c) || crate::alg::ascii_number(c) || c == '_'
}

/// The end of the whitespace run at the start of `s`.
fn ws_run_end(s: &str) -> (i: usize)
    ensures
        i == run_len(s@, 0, ws_pred()),
        i <= s@.len(),
{
    let n = s.unicode_len();
    let mut i: usize = 0;
    while i < n
        invariant
            n == s@.len(),
            i <= n,
            forall|j: int| 0 <= j < i ==> is_ws(s@[j]),
        decreases n - i,
    {
        if !ws_char(s.get_char(i)) {
            proof {
                lemma_run_len_unique(s@, 0, ws_pred(), i as int);
            }
            return i;
        }
        i = i + 1;
    }
    proof {
        lemma_run_len_unique(s@, 0, ws_pred(), n as int);
    }
    n
}

/// The end of the identifier-character run of `s` starting at `from`.
fn ident_run_end(s: &str, from: usize) -> (e: usize)
    requires
        from <= s@.len(),
    ensures
        from <= e <= s@.len(),
        e == from + run_len(s@, from as int, ident_pred()),
{
    let n = s.unicode_len();
    let mut i: usize = from;
    while i < n
        invariant
            n == s@.len(),
            from <= i <= n,
            forall|j: int| from <= j < i ==> is_ident_char(s@[j]),
        decreases n - i,
    {
        if !ident_char(s.get_char(i)) {
            proof {
                lemma_run_len_unique(s@, from as int, ident_pred(), i as int);
            }
            return i;
        }
        i = i + 1;
    }
    proof {
        lemma_run_len_unique(s@, from as int, ident_pred(), n as int);
    }
    n
}

/// The end of the ASCII-digit run of `s` starting at `from`.
fn digit_run_end(s: &str, from: usize) -> (e: usize)
    requires
        from <= s@.len(),
    ensures
        from <= e <= s@.len(),
        e == from + run_len(s@, from as int, digit_pred()),
{
    let n = s.unicode_len();
    let mut i: usize = from;
    while i < n
        invariant
            n == s@.len(),
            from <= i <= n,
            forall|j: int| from <= j < i ==> is_ascii_number(s@[j]),
        decreases n - i,
    {
        if !crate::alg::ascii_number(s.get_char(i)) {
            proof {
                lemma_run_len_unique(s@, from as int, digit_pred(), i as int);
            }
            return i;
        }
        i = i + 1;
    }
    proof {
        lemma_run_len_unique(s@, from as int, digit_pred(), n as int);
    }
    n
}

/// The end of the non-whitespace run of `s` starting at `from`.
fn nonws_run_end(s: &str, from: usize) -> (e: usize)
    requires
        from <= s@.len(),
    ensures
        from <= e <= s@.len(),
        e == from + run_len(s@, from as int, nonws_pred()),
{
    let n = s.unicode_len();
    let mut i: usize = from;
    while i < n
        invariant
            n == s@.len(),
            from <= i <= n,
            forall|j: int| from <= j < i ==> !is_ws(s@[j]),
        decreases n - i,
    {
        if ws_char(s.get_char(i)) {
            proof {
                lemma_run_len_unique(s@, from as int, nonws_pred(), i as int);
            }
            return i;
        }
        i = i + 1;
    }
    proof {
        lemma_run_len_unique(s@, from as int, nonws_pred(), n as int);
    }
    n
}

/// Skips the leading whitespace of the input.
pub fn skip_whitespace(input: &str) -> (r: &str)
    ensures
        r@ == input@.subrange(run_len(input@, 0, ws_pred()), input@.len() as int),
        r@.len() <= input@.len(),
{
    let n = input.unicode_len();
    let a = ws_run_end(input);
    input.substring_char(a, n)
}

/// Parses an identifier from the input string: optional whitespace, then a
/// non-empty maximal run of identifier characters. Returns the rest of the
/// input and the identifier.
pub fn parse_identifier<'a>(input: &'a str) -> (r: Result<(&'a str, String), SyntaxError>)
    ensures
        match r {
            Ok(p) => {
                &&& spec_parse_ident(input@) == Some((p.1@, p.0@))
                &&& p.0@.len() < input@.len()
            },
            Err(_) => spec_parse_ident(input@) is None,
        },
{
    let n = input.unicode_len();
    let a = ws_run_end(input);
    let e = ident_run_end(input, a);
    if e == a {
        return Err(SyntaxError);
    }
    let ident = input.substring_char(a, e).to_owned();
    let rest = input.substring_char(e, n);
    Ok((rest, ident))
}

/// The views of a sequence of trees.
pub open spec fn tree_views(cs: Seq<ObjectTree<String>>) -> Seq<TreeView<Seq<char>>> {
    Seq::new(
        cs.len(),
        |i: int|
            if 0 <= i < cs.len() {
                cs[i]@
            } else {
                TreeView { root: Seq::empty(), children: Seq::empty() }
            },
    )
}

/// Parses an object tree from the input: a root identifier and, after `>`,
/// one or more children separated by `+`. Trailing whitespace is consumed.
pub fn parse_object_tree<'a>(input: &'a str) -> (r: Result<
    (&'a str, ObjectTree<String>),
    SyntaxError,
>)
    ensures
        match r {
            Ok(p) => {
                &&& forall|fuel: nat|
                    fuel >= tree_fuel(input@) ==> #[trigger] spec_parse_tree(input@, fuel)
                        == Some((p.1@, p.0@))
                &&& p.0@.len() < input@.len()
            },
            Err(_) => forall|fuel: nat|
                fuel >= tree_fuel(input@) ==> #[trigger] spec_parse_tree(input@, fuel) is None,
        },
    decreases input@.len(),
{
    let root = match parse_identifier(input) {
        Err(e) => {
            return Err(e);
        },
        Ok(p) => p,
    };
    let (rest1, root_name) = root;
    let rest2 = skip_whitespace(rest1);
    let n2 = rest2.unicode_len();
    proof {
        assert(rest2@ == {
            let w = run_len(rest1@, 0, ws_pred());
            rest1@.subrange(w, rest1@.len() as int)
        });
    }
    if n2 > 0 && rest2.get_char(0) == '>' {
        let tail = rest2.substring_char(1, n2);
        proof {
            assert(tail@ == rest2@.subrange(1, rest2@.len() as int));
            assert(tail@.len() < input@.len());
        }
        let first = match parse_object_tree(tail) {
            Err(e) => {
                proof {
                    assert forall|fuel: nat| fuel >= tree_fuel(input@) implies #[trigger]
                        spec_parse_tree(input@, fuel) is None by {
                        assert(spec_parse_tree(tail@, (fuel - 1) as nat) is None);
                    }
                }
                return Err(e);
            },
            Ok(p) => p,
        };
        let (rest3, first_tree) = first;
        let sibs = match parse_siblings(rest3) {
            Err(e) => {
                proof {
                    assert forall|fuel: nat| fuel >= tree_fuel(input@) implies #[trigger]
                        spec_parse_tree(input@, fuel) is None by {
                        assert(spec_parse_tree(tail@, (fuel - 1) as nat) == Some(
                            (first_tree@, rest3@),
                        ));
                        assert(spec_parse_siblings(rest3@, (fuel - 1) as nat) is None);
                    }
                }
                return Err(e);
            },
            Ok(p) => p,
        };
        let (rest4, mut siblings) = sibs;
        let mut children: Vec<ObjectTree<String>> = Vec::new();
        children.push(first_tree);
        children.append(&mut siblings);
        let tree = ObjectTree { root: root_name, children };
        proof {
            assert(tree@.children =~= seq![first_tree@] + tree_views(sibs.1@));
            assert forall|fuel: nat| fuel >= tree_fuel(input@) implies #[trigger] spec_parse_tree(
                input@,
                fuel,
            ) == Some((tree@, rest4@)) by {
                assert(spec_parse_tree(tail@, (fuel - 1) as nat) == Some((first_tree@, rest3@)));
                assert(spec_parse_siblings(rest3@, (fuel - 1) as nat) == Some(
                    (tree_views(sibs.1@), rest4@),
                ));
                assert(spec_parse_tree(input@, fuel)->Some_0.0 =~= tree@);
            }
        }
        Ok((rest4, tree))
    } else {
        let tree = ObjectTree { root: root_name, children: Vec::new() };
        proof {
            assert(tree@.children =~= Seq::<TreeView<Seq<char>>>::empty());
            assert forall|fuel: nat| fuel >= tree_fuel(input@) implies #[trigger] spec_parse_tree(
                input@,
                fuel,
            ) == Some((tree@, rest2@)) by {
                assert(spec_parse_tree(input@, fuel)->Some_0.0 =~= tree@);
            }
        }
        Ok((rest2, tree))
    }
}

/// Parses the `+`-separated siblings that may follow a child tree.
fn parse_siblings<'a>(input: &'a str) -> (r: Result<
    (&'a str, Vec<ObjectTree<String>>),
    SyntaxError,
>)
    ensures
        match r {
            Ok(p) => {
                &&& forall|fuel: nat|
                    fuel >= tree_fuel(input@) ==> #[trigger] spec_parse_siblings(input@, fuel)
                        == Some((tree_views(p.1@), p.0@))
                &&& p.0@.len() <= input@.len()
            },
            Err(_) => forall|fuel: nat|
                fuel >= tree_fuel(input@) ==> #[trigger] spec_parse_siblings(input@, fuel) is None,
        },
    decreases input@.len(),
{
    let rest = skip_whitespace(input);
    let n = rest.unicode_len();
    if n > 0 && rest.get_char(0) == '+' {
        let tail = rest.substring_char(1, n);
        proof {
            assert(tail@ == rest@.subrange(1, rest@.len() as int));
        }
        let child = match parse_object_tree(tail) {
            Err(e) => {
                proof {
                    assert forall|fuel: nat| fuel >= tree_fuel(input@) implies #[trigger]
                        spec_parse_siblings(input@, fuel) is None by {
                        assert(spec_parse_tree(tail@, (fuel - 1) as nat) is None);
                    }
                }
                return Err(e);
            },
            Ok(p) => p,
        };
        let (rest2, child_tree) = child;
        let more = match parse_siblings(rest2) {
            Err(e) => {
                proof {
                    assert forall|fuel: nat| fuel >= tree_fuel(input@) implies #[trigger]
                        spec_parse_siblings(input@, fuel) is None by {
                        assert(spec_parse_tree(tail@, (fuel - 1) as nat) == Some(
                            (child_tree@, rest2@),
                        ));
                        assert(spec_parse_siblings(rest2@, (fuel - 1) as nat) is None);
                    }
                }
                return Err(e);
            },
            Ok(p) => p,
        };
        let (rest3, mut more_trees) = more;
        let mut out: Vec<ObjectTree<String>> = Vec::new();
        out.push(child_tree);
        out.append(&mut more_trees);
        proof {
            assert(tree_views(out@) =~= seq![child_tree@] + tree_views(more.1@));
            assert forall|fuel: nat| fuel >= tree_fuel(input@) implies #[trigger]
                spec_parse_siblings(input@, fuel) == Some((tree_views(out@), rest3@)) by {
                assert(spec_parse_tree(tail@, (fuel - 1) as nat) == Some((child_tree@, rest2@)));
                assert(spec_parse_siblings(rest2@, (fuel - 1) as nat) == Some(
                    (tree_views(more.1@), rest3@),
                ));
            }
        }
        Ok((rest3, out))
    } else {
        let out: Vec<ObjectTree<String>> = Vec::new();
        proof {
            assert(tree_views(out@) =~= Seq::<TreeView<Seq<char>>>::empty());
        }
        Ok((rest, out))
    }
}

/// Parses an operator from the input string.
pub fn parse_operator<'a>(input: &'a str) -> (r: Result<(&'a str, Operator), SyntaxError>)
    ensures
        match r {
            Ok(p) => {
                &&& spec_parse_op(input@) == Some((p.1, p.0@))
                &&& p.0@.len() < input@.len()
            },
            Err(_) => spec_parse_op(input@) is None,
        },
{
    let n = input.unicode_len();
    let a = ws_run_end(input);
    if a >= n {
        return Err(SyntaxError);
    }
    proof {
        let r = input@.subrange(a as int, n as int);
        assert(r.subrange(1, r.len() as int) =~= input@.subrange(a + 1, n as int));
        if a + 2 <= n {
            assert(r.subrange(2, r.len() as int) =~= input@.subrange(a + 2, n as int));
        }
    }
    let c0 = input.get_char(a);
    if c0 == '=' {
        Ok((input.substring_char(a + 1, n), Operator::Eq))
    } else if c0 == '!' {
        if a + 1 < n && input.get_char(a + 1) == '=' {
            Ok((input.substring_char(a + 2, n), Operator::Ne))
        } else {
            Err(SyntaxError)
        }
    } else if c0 == '<' {
        if a + 1 < n && input.get_char(a + 1) == '=' {
            Ok((input.substring_char(a + 2, n), Operator::Le))
        } else {
            Ok((input.substring_char(a + 1, n), Operator::Lt))
        }
    } else if c0 == '>' {
        if a + 1 < n && input.get_char(a + 1) == '=' {
            Ok((input.substring_char(a + 2, n), Operator::Ge))
        } else {
            Ok((input.substring_char(a + 1, n), Operator::Gt))
        }
    } else {
        Err(SyntaxError)
    }
}

/// Parses a literal value from the input string.
///
/// A literal can be a string or an integer. String literals are enclosed in
/// single or double quotes, or are a single word without spaces. Integer
/// literals are maximal sequences of digits; one too large for the integer
/// type is a syntax error.
pub fn parse_literal<'a>(input: &'a str) -> (r: Result<(&'a str, Literal), SyntaxError>)
    ensures
        match r {
            Ok(p) => {
                &&& spec_parse_lit(input@) == Some((p.1@, p.0@))
                &&& p.0@.len() < input@.len()
            },
            Err(_) => spec_parse_lit(input@) is None,
        },
{
    let n = input.unicode_len();
    let a = ws_run_end(input);
    let ghost rv = input@.subrange(a as int, n as int);
    if a >= n {
        return Err(SyntaxError);
    }
    let c0 = input.get_char(a);
    if c0 == '\'' || c0 == '"' {
        // Find the closing quote.
        let mut j: usize = a + 1;
        while j < n
            invariant
                a + 1 <= j <= n,
                n == input@.len(),
                a < n,
                a == run_len(input@, 0, ws_pred()),
                c0 == input@[a as int],
                c0 == '\'' || c0 == '"',
                rv == input@.subrange(a as int, n as int),
                forall|k: int| a + 1 <= k < j ==> input@[k] != c0,
            decreases n - j,
        {
            if input.get_char(j) == c0 {
                proof {
                    lemma_find_from(rv, 1, c0);
                    let e = find_from(rv, 1, c0);
                    assert(rv[j - a] == c0);
                    assert(forall|k: int| 1 <= k < j - a ==> rv[k] != c0);
                    assert(e == j - a);
                    assert(rv.subrange(1, j - a) =~= input@.subrange(a + 1, j as int));
                    assert(rv.subrange(j - a + 1, rv.len() as int) =~= input@.subrange(
                        j + 1,
                        n as int,
                    ));
                }
                let value = input.substring_char(a + 1, j).to_owned();
                let rest = input.substring_char(j + 1, n);
                return Ok((rest, Literal::Str(value)));
            }
            j = j + 1;
        }
        proof {
            lemma_find_from(rv, 1, c0);
            assert(find_from(rv, 1, c0) == rv.len());
        }
        return Err(SyntaxError);
    }
    let d_end = digit_run_end(input, a);
    proof {
        lemma_run_len(input@, a as int, digit_pred());
        lemma_run_len_unique(rv, 0, digit_pred(), d_end - a);
    }
    if d_end > a {
        // A maximal digit run: read it as an integer.
        let ghost all_digits = rv.subrange(0, d_end - a);
        proof {
            assert(all_digits =~= input@.subrange(a as int, d_end as int));
            lemma_run_len(input@, a as int, digit_pred());
        }
        let mut v: i64 = 0;
        let mut k: usize = a;
        while k < d_end
            invariant
                a <= k <= d_end <= n,
                a < d_end,
                n == input@.len(),
                a == run_len(input@, 0, ws_pred()),
                rv == input@.subrange(a as int, n as int),
                input@[a as int] != '\'' && input@[a as int] != '"',
                d_end - a == run_len(rv, 0, digit_pred()),
                all_digits == input@.subrange(a as int, d_end as int),
                forall|m: int| a <= m < d_end ==> is_ascii_number(#[trigger] input@[m]),
                v == digits_val(input@.subrange(a as int, k as int)),
                v >= 0,
            decreases d_end - k,
        {
            let c = input.get_char(k);
            let dv = ((c as u32) - 48) as i64;
            let step = match v.checked_mul(10) {
                Some(x) => x.checked_add(dv),
                None => None,
            };
            proof {
                assert(input@.subrange(a as int, k + 1).drop_last() =~= input@.subrange(
                    a as int,
                    k as int,
                ));
            }
            match step {
                Some(x) => {
                    v = x;
                },
                None => {
                    // The run exceeds the integer range; its full value can
                    // only be larger still.
                    proof {
                        assert(input@.subrange(a as int, k + 1) =~= all_digits.subrange(
                            0,
                            k + 1 - a,
                        ));
                        assert(digits_val(all_digits.subrange(0, k + 1 - a)) == v * 10 + dv);
                        lemma_digits_val_mono(all_digits, k + 1 - a);
                        assert(digits_val(all_digits) > i64::MAX);
                        assert(rv.subrange(0, d_end - a) =~= all_digits);
                    }
                    return Err(SyntaxError);
                },
            }
            k = k + 1;
        }
        proof {
            assert(input@.subrange(a as int, d_end as int) =~= all_digits);
            assert(rv.subrange(d_end - a, rv.len() as int) =~= input@.subrange(
                d_end as int,
                n as int,
            ));
        }
        let rest = input.substring_char(d_end, n);
        return Ok((rest, Literal::Integer(v)));
    }
    let w_end = nonws_run_end(input, a);
    proof {
        lemma_run_len(input@, a as int, nonws_pred());
        lemma_run_len_unique(rv, 0, nonws_pred(), w_end - a);
    }
    if w_end > a {
        proof {
            assert(rv.subrange(0, w_end - a) =~= input@.subrange(a as int, w_end as int));
            assert(rv.subrange(w_end - a, rv.len() as int) =~= input@.subrange(
                w_end as int,
                n as int,
            ));
        }
        let value = input.substring_char(a, w_end).to_owned();
        let rest = input.substring_char(w_end, n);
        Ok((rest, Literal::Str(value)))
    } else {
        Err(SyntaxError)
    }
}

/// Parses a predicate from the input string: identifier, operator, value.
pub fn parse_predicate<'a>(input: &'a str) -> (r: Result<
    (&'a str, Predicate<String>),
    SyntaxError,
>)
    ensures
        match r {
            Ok(p) => {
                &&& spec_parse_pred(input@) == Some((p.1@, p.0@))
                &&& p.0@.len() < input@.len()
            },
            Err(_) => spec_parse_pred(input@) is None,
        },
{
    let (rest1, identifier) = match parse_identifier(input) {
        Err(e) => {
            return Err(e);
        },
        Ok(p) => p,
    };
    let (rest2, operator) = match parse_operator(rest1) {
        Err(e) => {
            return Err(e);
        },
        Ok(p) => p,
    };
    let (rest3, value) = match parse_literal(rest2) {
        Err(e) => {
            return Err(e);
        },
        Ok(p) => p,
    };
    Ok((rest3, Predicate { identifier, operator, value }))
}

/// The views of a sequence of predicates.
pub open spec fn pred_views(ps: Seq<Predicate<String>>) -> Seq<PredView> {
    Seq::new(
        ps.len(),
        |i: int|
            if 0 <= i < ps.len() {
                ps[i]@
            } else {
                PredView {
                    identifier: Seq::empty(),
                    operator: Operator::Eq,
                    value: LitView::Integer(0),
                }
            },
    )
}

/// Parses the predicate list that ends a query.
fn parse_predicates(input: &str) -> (r: Result<Vec<Predicate<String>>, SyntaxError>)
    ensures
        match r {
            Ok(ps) => forall|fuel: nat|
                fuel >= preds_fuel(input@) ==> #[trigger] spec_parse_preds(input@, fuel) == Some(
                    pred_views(ps@),
                ),
            Err(_) => forall|fuel: nat|
                fuel >= preds_fuel(input@) ==> #[trigger] spec_parse_preds(input@, fuel) is None,
        },
    decreases input@.len(),
{
    let rest = skip_whitespace(input);
    if rest.unicode_len() == 0 {
        let ps: Vec<Predicate<String>> = Vec::new();
        proof {
            assert(pred_views(ps@) =~= Seq::<PredView>::empty());
        }
        return Ok(ps);
    }
    let (rest2, pred) = match parse_predicate(rest) {
        Err(e) => {
            proof {
                assert forall|fuel: nat| fuel >= preds_fuel(input@) implies #[trigger]
                    spec_parse_preds(input@, fuel) is None by {
                    assert(spec_parse_pred(rest@) is None);
                }
            }
            return Err(e);
        },
        Ok(p) => p,
    };
    let mut more = match parse_predicates(rest2) {
        Err(e) => {
            proof {
                assert forall|fuel: nat| fuel >= preds_fuel(input@) implies #[trigger]
                    spec_parse_preds(input@, fuel) is None by {
                    assert(spec_parse_pred(rest@) == Some((pred@, rest2@)));
                    assert(spec_parse_preds(rest2@, (fuel - 1) as nat) is None);
                }
            }
            return Err(e);
        },
        Ok(p) => p,
    };
    let ghost more_snapshot = more@;
    let mut out: Vec<Predicate<String>> = Vec::new();
    out.push(pred);
    out.append(&mut more);
    proof {
        assert(pred_views(out@) =~= seq![pred@] + pred_views(more_snapshot));
        assert forall|fuel: nat| fuel >= preds_fuel(input@) implies #[trigger] spec_parse_preds(
            input@,
            fuel,
        ) == Some(pred_views(out@)) by {
            assert(spec_parse_pred(rest@) == Some((pred@, rest2@)));
            assert(spec_parse_preds(rest2@, (fuel - 1) as nat) == Some(pred_views(more_snapshot)));
        }
    }
    Ok(out)
}

/// Parses a SQL-like query from a string input.
///
/// A query is split into two parts: an object tree and a list of predicates.
/// The object tree defines the table or view being queried along with any
/// joined objects, while the predicates define conditions for filtering
/// results. The parse is all-or-nothing: malformed input yields a syntax
/// error and no partial result.
pub fn parse(input: &str) -> (r: Result<Query<String, String>, SyntaxError>)
    ensures
        match r {
            Ok(q) => spec_parse_query(input@) == Some(q@),
            Err(_) => spec_parse_query(input@) is None,
        },
{
    let (rest, object) = match parse_object_tree(input) {
        Err(e) => {
            return Err(e);
        },
        Ok(p) => p,
    };
    let predicates = match parse_predicates(rest) {
        Err(e) => {
            return Err(e);
        },
        Ok(p) => p,
    };
    let q = Query { object, predicates };
    proof {
        assert(q@.predicates =~= pred_views(q.predicates@));
        assert(spec_parse_query(input@)->Some_0 =~= q@);
    }
    Ok(q)
}

// ---------------------------------------------------------------------------
// Rendering, executably
// ---------------------------------------------------------------------------

/// One decimal digit as a string.
fn digit_str(d: u64) -> (r: &'static str)
    requires
        d < 10,
    ensures
        r@ == seq![digit_char(d as int)],
{
    proof {
        reveal_strlit("0");
        reveal_strlit("1");
        reveal_strlit("2");
        reveal_strlit("3");
        reveal_strlit("4");
        reveal_strlit("5");
        reveal_strlit("6");
        reveal_strlit("7");
        reveal_strlit("8");
        reveal_strlit("9");
    }
    match d {
        0 => "0",
        1 => "1",
        2 => "2",
        3 => "3",
        4 => "4",
        5 => "5",
        6 => "6",
        7 => "7",
        8 => "8",
        _ => "9",
    }
}

/// The decimal digits of an unsigned value, as a string.
fn u64_digits(n: u64) -> (r: String)
    ensures
        r@ == int_digits(n as int),
    decreases n,
{
    if n < 10 {
        String::from_str(digit_str(n))
    } else {
        let mut r = u64_digits(n / 10);
        r.append(digit_str(n % 10));
        r
    }
}

/// The decimal rendering of a signed value.
pub fn int_to_string(n: i64) -> (r: String)
    ensures
        r@ == int_str(n as int),
{
    if n < 0 {
        let mag: u64 = if n == i64::MIN {
            9223372036854775808u64
        } else {
            (-n) as u64
        };
        proof {
            reveal_strlit("-");
        }
        let mut r = String::from_str("-");
        let digits = u64_digits(mag);
        r.append(digits.as_str());
        proof {
            assert(r@ =~= int_str(n as int));
        }
        r
    } else {
        u64_digits(n as u64)
    }
}

/// Whether a string holds a space character.
fn str_has_space(s: &str) -> (r: bool)
    ensures
        r == has_space(s@),
{
    let n = s.unicode_len();
    let mut i: usize = 0;
    while i < n
        invariant
            n == s@.len(),
            i <= n,
            forall|j: int| 0 <= j < i ==> s@[j] != ' ',
        decreases n - i,
    {
        if s.get_char(i) == ' ' {
            return true;
        }
        i = i + 1;
    }
    false
}

impl Literal {
    /// Renders this literal back to text, per the formatting rules of the
    /// grammar.
    pub fn render(&self) -> (r: String)
        ensures
            r@ == render_lit(self@),
    {
        match self {
            Literal::Str(s) => {
                if str_has_space(s.as_str()) {
                    proof {
                        reveal_strlit("'");
                    }
                    let mut r = String::from_str("'");
                    r.append(s.as_str());
                    r.append("'");
                    proof {
                        assert(r@ =~= render_lit(self@));
                    }
                    r
                } else {
                    s.clone()
                }
            },
            Literal::Integer(i) => int_to_string(*i),
        }
    }
}

impl Operator {
    /// Renders this operator back to text.
    pub fn render(&self) -> (r: &'static str)
        ensures
            r@ == render_op(*self),
    {
        proof {
            reveal_strlit("=");
            reveal_strlit("!=");
            reveal_strlit("<");
            reveal_strlit(">");
            reveal_strlit("<=");
            reveal_strlit(">=");
        }
        match self {
            Operator::Eq => "=",
            Operator::Ne => "!=",
            Operator::Lt => "<",
            Operator::Gt => ">",
            Operator::Le => "<=",
            Operator::Ge => ">=",
        }
    }
}

impl Predicate<String> {
    /// Renders this predicate back to text.
    pub fn render(&self) -> (r: String)
        ensures
            r@ == render_pred(self@),
    {
        let mut r = self.identifier.clone();
        r.append(self.operator.render());
        let value = self.value.render();
        r.append(value.as_str());
        r
    }
}

impl ObjectTree<String> {
    /// Renders this tree back to text: the root identifier and, when there
    /// are children, a `>` followed by the children joined by `+`.
    pub fn render(&self) -> (r: String)
        ensures
            r@ == render_tree(self@),
        decreases *self,
    {
        let mut r = self.root.clone();
        if self.children.len() == 0 {
            return r;
        }
        proof {
            reveal_strlit(">");
            reveal_strlit("+");
        }
        r.append(">");
        let mut i: usize = 0;
        while i < self.children.len()
            invariant
                i <= self.children@.len(),
                self.children@.len() > 0,
                r@ + render_children(self@.children, i as int) == render_tree(self@),
            decreases self.children@.len() - i,
        {
            proof {
                reveal_strlit("+");
            }
            if i > 0 {
                r.append("+");
            }
            let child = self.children[i].render();
            r.append(child.as_str());
            proof {
                assert(self@.children[i as int] == self.children@[i as int]@);
                assert(r@ + render_children(self@.children, i + 1) =~= render_tree(self@));
            }
            i = i + 1;
        }
        r
    }
}

impl Query<String, String> {
    /// Renders this query back to text. The result reproduces a parsed query
    /// structurally: children joined by `+`, predicates separated by single
    /// spaces, string literals holding a space single-quoted.
    pub fn render(&self) -> (r: String)
        ensures
            r@ == render_query(self@),
    {
        let mut r = self.object.render();
        proof {
            reveal_strlit(" ");
        }
        let mut i: usize = 0;
        while i < self.predicates.len()
            invariant
                i <= self.predicates@.len(),
                r@ + render_preds(self@.predicates, i as int) == render_query(self@),
            decreases self.predicates@.len() - i,
        {
            proof {
                reveal_strlit(" ");
            }
            r.append(" ");
            let p = self.predicates[i].render();
            r.append(p.as_str());
            proof {
                assert(self@.predicates[i as int] == self.predicates@[i as int]@);
                assert(r@ + render_preds(self@.predicates, i + 1) =~= render_query(self@));
            }
            i = i + 1;
        }
        proof {
            assert(r@ =~= render_query(self@));
        }
        r
    }
}

} // verus!
