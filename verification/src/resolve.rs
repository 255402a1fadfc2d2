//! The name resolver: a single depth-first pass that binds each raw
//! identifier of a parsed object tree to a schema object.
//!
//! At the root every object is a candidate; at a non-root node only the
//! objects that declare a foreign key referencing the resolved parent are.
//! Candidates are ranked per the keyword matching and scoring rules; the
//! winner takes a score hit and resolution recurses into the children. A
//! node with no matching candidate aborts the whole resolution with its
//! identifier; hits already applied to ancestors remain applied.

use vstd::prelude::*;

use crate::alg::{
    find_best, hit_score, is_exact_match, name_matches, ranks_before, Name, Score,
};
use crate::arena::{Arena, Id};
use crate::query::{ObjectTree, Query, TreeView};
use crate::schema::{Object, Schema};

verus! {

/// Error raised when a tree node has no matching candidate: it carries the
/// offending raw identifier.
#[derive(Debug, Clone, PartialEq)]
pub struct ResolveError {
    pub identifier: String,
}

impl ObjectTree<Id<Object>> {
    /// The mathematical form of a resolved tree: allocation positions.
    pub open spec fn view(&self) -> TreeView<int>
        decreases *self,
    {
        TreeView {
            root: self.root.pos(),
            children: Seq::new(
                self.children@.len(),
                |i: int|
                    if 0 <= i < self.children@.len() {
                        self.children@[i].view()
                    } else {
                        TreeView { root: 0, children: Seq::empty() }
                    },
            ),
        }
    }
}

/// The views of a sequence of resolved trees.
pub open spec fn resolved_views(cs: Seq<ObjectTree<Id<Object>>>) -> Seq<TreeView<int>> {
    Seq::new(
        cs.len(),
        |i: int|
            if 0 <= i < cs.len() {
                cs[i]@
            } else {
                TreeView { root: 0, children: Seq::empty() }
            },
    )
}

/// The score an entity position carries in a score map, if any.
pub open spec fn score_opt(scores: Map<int, Score>, i: int) -> Option<Score> {
    if scores.dom().contains(i) {
        Some(scores[i])
    } else {
        None
    }
}

/// True when position `i` is in the candidate universe: every object at the
/// root, and under a resolved parent only the objects that declare a foreign
/// key referencing it.
pub open spec fn is_candidate(objects: Seq<Object>, parent: Option<int>, i: int) -> bool {
    &&& 0 <= i < objects.len()
    &&& match parent {
        None => true,
        Some(p) => objects[i].references(p),
    }
}

/// True when position `i` is a candidate whose name matches the token.
pub open spec fn cand_matches(
    objects: Seq<Object>,
    parent: Option<int>,
    pat: Seq<char>,
    i: int,
) -> bool {
    is_candidate(objects, parent, i) && name_matches(objects[i].view_name(), pat)
}

/// True when any candidate of the universe matches the token.
pub open spec fn has_match(objects: Seq<Object>, parent: Option<int>, pat: Seq<char>) -> bool {
    exists|j: int| cand_matches(objects, parent, pat, j)
}

/// The ranking entry of a candidate position: exactness, score, and
/// allocation order.
pub open spec fn cand_entry(
    objects: Seq<Object>,
    scores: Map<int, Score>,
    pat: Seq<char>,
    i: int,
) -> (bool, Option<Score>, int) {
    (is_exact_match(objects[i].view_name(), pat), score_opt(scores, i), i)
}

/// True when position `i` is the winning candidate for the token: it
/// matches, and it ranks before every other matching candidate.
pub open spec fn is_winner(
    objects: Seq<Object>,
    scores: Map<int, Score>,
    parent: Option<int>,
    pat: Seq<char>,
    i: int,
) -> bool {
    &&& cand_matches(objects, parent, pat, i)
    &&& forall|j: int|
        cand_matches(objects, parent, pat, j) && j != i ==> ranks_before(
            cand_entry(objects, scores, pat, i),
            cand_entry(objects, scores, pat, j),
        )
}

/// The winning candidate position for a token, where one exists.
pub open spec fn the_winner(
    objects: Seq<Object>,
    scores: Map<int, Score>,
    parent: Option<int>,
    pat: Seq<char>,
) -> int {
    choose|w: int| is_winner(objects, scores, parent, pat, w)
}

/// At most one candidate wins.
pub proof fn lemma_winner_unique(
    objects: Seq<Object>,
    scores: Map<int, Score>,
    parent: Option<int>,
    pat: Seq<char>,
    w1: int,
    w2: int,
)
    requires
        is_winner(objects, scores, parent, pat, w1),
        is_winner(objects, scores, parent, pat, w2),
    ensures
        w1 == w2,
{
    if w1 != w2 {
        assert(ranks_before(
            cand_entry(objects, scores, pat, w1),
            cand_entry(objects, scores, pat, w2),
        ));
        assert(ranks_before(
            cand_entry(objects, scores, pat, w2),
            cand_entry(objects, scores, pat, w1),
        ));
    }
}

/// The scores after the winner at position `w` takes a hit at time `now`.
pub open spec fn after_hit(scores: Map<int, Score>, w: int, now: u64) -> Map<int, Score> {
    scores.insert(w, hit_score(score_opt(scores, w), now))
}

/// The score table after a tree resolved to `out`: the root's hit, then the
/// children's hits in depth-first order.
pub open spec fn scores_after_tree(
    objects: Seq<Object>,
    scores0: Map<int, Score>,
    t: TreeView<Seq<char>>,
    out: TreeView<int>,
    now: u64,
) -> Map<int, Score>
    decreases t, 1int, 0int,
{
    scores_after_children(objects, after_hit(scores0, out.root, now), t.children, 0, out.children, now)
}

/// The score table after the children from position `k` on resolved to
/// `outs`, each handing its table to the next.
pub open spec fn scores_after_children(
    objects: Seq<Object>,
    scores0: Map<int, Score>,
    kids: Seq<TreeView<Seq<char>>>,
    k: int,
    outs: Seq<TreeView<int>>,
    now: u64,
) -> Map<int, Score>
    decreases kids, 0int, kids.len() - k,
{
    if k < 0 || k >= kids.len() || outs.len() == 0 {
        scores0
    } else {
        scores_after_children(
            objects,
            scores_after_tree(objects, scores0, kids[k], outs[0], now),
            kids,
            k + 1,
            outs.drop_first(),
            now,
        )
    }
}

/// How one tree node resolves: its root binds to the winning candidate of
/// its universe, the winner's score takes a hit, and the children resolve in
/// order under the winner, each seeing the score table its predecessors
/// left. The final table is [`scores_after_tree`].
pub open spec fn resolves_tree(
    objects: Seq<Object>,
    scores0: Map<int, Score>,
    t: TreeView<Seq<char>>,
    parent: Option<int>,
    now: u64,
    out: TreeView<int>,
) -> bool
    decreases t, 1int, 0int,
{
    &&& is_winner(objects, scores0, parent, t.root, out.root)
    &&& resolves_children(
        objects,
        after_hit(scores0, out.root, now),
        t.children,
        0,
        out.root,
        now,
        out.children,
    )
}

/// How the children of a resolved node resolve, from position `k` on:
/// `outs` holds the resolved forms of `kids[k..]`, in order.
pub open spec fn resolves_children(
    objects: Seq<Object>,
    scores0: Map<int, Score>,
    kids: Seq<TreeView<Seq<char>>>,
    k: int,
    parent: int,
    now: u64,
    outs: Seq<TreeView<int>>,
) -> bool
    decreases kids, 0int, kids.len() - k,
{
    if k < 0 || k >= kids.len() {
        outs.len() == 0
    } else {
        &&& outs.len() == kids.len() - k
        &&& resolves_tree(objects, scores0, kids[k], Some(parent), now, outs[0])
        &&& resolves_children(
            objects,
            scores_after_tree(objects, scores0, kids[k], outs[0], now),
            kids,
            k + 1,
            parent,
            now,
            outs.drop_first(),
        )
    }
}

/// A tree resolves at most one way: the winner of every node is unique.
pub proof fn lemma_resolution_unique(
    objects: Seq<Object>,
    scores0: Map<int, Score>,
    t: TreeView<Seq<char>>,
    parent: Option<int>,
    now: u64,
    out1: TreeView<int>,
    out2: TreeView<int>,
)
    requires
        resolves_tree(objects, scores0, t, parent, now, out1),
        resolves_tree(objects, scores0, t, parent, now, out2),
    ensures
        out1 == out2,
    decreases t, 1int, 0int,
{
    lemma_winner_unique(objects, scores0, parent, t.root, out1.root, out2.root);
    lemma_resolution_unique_children(
        objects,
        after_hit(scores0, out1.root, now),
        t.children,
        0,
        out1.root,
        now,
        out1.children,
        out2.children,
    );
    assert(out1 =~= out2);
}

/// Child lists resolve at most one way.
pub proof fn lemma_resolution_unique_children(
    objects: Seq<Object>,
    scores0: Map<int, Score>,
    kids: Seq<TreeView<Seq<char>>>,
    k: int,
    parent: int,
    now: u64,
    outs1: Seq<TreeView<int>>,
    outs2: Seq<TreeView<int>>,
)
    requires
        resolves_children(objects, scores0, kids, k, parent, now, outs1),
        resolves_children(objects, scores0, kids, k, parent, now, outs2),
    ensures
        outs1 == outs2,
    decreases kids, 0int, kids.len() - k,
{
    if k < 0 || k >= kids.len() {
        assert(outs1 =~= outs2);
    } else {
        lemma_resolution_unique(objects, scores0, kids[k], Some(parent), now, outs1[0], outs2[0]);
        lemma_resolution_unique_children(
            objects,
            scores_after_tree(objects, scores0, kids[k], outs1[0], now),
            kids,
            k + 1,
            parent,
            now,
            outs1.drop_first(),
            outs2.drop_first(),
        );
        assert forall|i: int| 0 <= i < outs1.len() implies outs1[i] == outs2[i] by {
            if i > 0 {
                assert(outs1[i] == outs1.drop_first()[i - 1]);
                assert(outs2[i] == outs2.drop_first()[i - 1]);
            }
        }
        assert(outs1 =~= outs2);
    }
}

/// True when a tree can be resolved at all.
pub open spec fn resolvable(
    objects: Seq<Object>,
    scores0: Map<int, Score>,
    t: TreeView<Seq<char>>,
    parent: Option<int>,
    now: u64,
) -> bool {
    exists|out: TreeView<int>| resolves_tree(objects, scores0, t, parent, now, out)
}

/// The resolved form of a tree, where one exists.
pub open spec fn resolution_of(
    objects: Seq<Object>,
    scores0: Map<int, Score>,
    t: TreeView<Seq<char>>,
    parent: Option<int>,
    now: u64,
) -> TreeView<int> {
    choose|out: TreeView<int>| resolves_tree(objects, scores0, t, parent, now, out)
}

/// How a resolution fails: the first node in depth-first order whose
/// candidate universe holds no match aborts the walk with that node's raw
/// identifier. Hits applied to nodes resolved before the failure remain in
/// the score table, whose final state is `scores1`.
pub open spec fn resolve_fails(
    objects: Seq<Object>,
    scores0: Map<int, Score>,
    t: TreeView<Seq<char>>,
    parent: Option<int>,
    now: u64,
    err: Seq<char>,
    scores1: Map<int, Score>,
) -> bool
    decreases t, 1int, 0int,
{
    if !has_match(objects, parent, t.root) {
        err == t.root && scores1 == scores0
    } else {
        fails_children(
            objects,
            after_hit(scores0, the_winner(objects, scores0, parent, t.root), now),
            t.children,
            0,
            the_winner(objects, scores0, parent, t.root),
            now,
            err,
            scores1,
        )
    }
}

/// How a child list fails, from position `k` on: some child fails after all
/// its earlier siblings resolved.
pub open spec fn fails_children(
    objects: Seq<Object>,
    scores0: Map<int, Score>,
    kids: Seq<TreeView<Seq<char>>>,
    k: int,
    parent: int,
    now: u64,
    err: Seq<char>,
    scores1: Map<int, Score>,
) -> bool
    decreases kids, 0int, kids.len() - k,
{
    &&& 0 <= k < kids.len()
    &&& {
        ||| resolve_fails(objects, scores0, kids[k], Some(parent), now, err, scores1)
        ||| (resolvable(objects, scores0, kids[k], Some(parent), now) && fails_children(
            objects,
            scores_after_tree(
                objects,
                scores0,
                kids[k],
                resolution_of(objects, scores0, kids[k], Some(parent), now),
                now,
            ),
            kids,
            k + 1,
            parent,
            now,
            err,
            scores1,
        ))
    }
}

/// The allocation position a resolved parent stands for, if any.
pub open spec fn parent_pos(parent: Option<Id<Object>>) -> Option<int> {
    match parent {
        None => None,
        Some(p) => Some(p.pos()),
    }
}

/// The candidate universe for a node, as ids in allocation order.
pub(crate) fn candidate_ids(schema: &Schema, parent: Option<Id<Object>>) -> (r: Vec<Id<Object>>)
    ensures
        forall|k: int|
            0 <= k < r@.len() ==> is_candidate(
                schema.objects.contents(),
                parent_pos(parent),
                (#[trigger] r@[k]).pos(),
            ),
        forall|k1: int, k2: int| 0 <= k1 < k2 < r@.len() ==> r@[k1].pos() < r@[k2].pos(),
        forall|p: int|
            #[trigger] is_candidate(schema.objects.contents(), parent_pos(parent), p) ==> exists|
                k: int,
            | 0 <= k < r@.len() && (#[trigger] r@[k]).pos() == p,
{
    match parent {
        Some(p) => schema.foreign_objects(p),
        None => {
            let n = schema.objects.len();
            let mut r: Vec<Id<Object>> = Vec::new();
            let mut i: usize = 0;
            while i < n
                invariant
                    n == schema.objects.contents().len(),
                    i <= n,
                    r@.len() == i,
                    forall|k: int| 0 <= k < i ==> (#[trigger] r@[k]).pos() == k,
                decreases n - i,
            {
                r.push(Id::from_index(i));
                i = i + 1;
            }
            proof {
                assert forall|p: int|
                    #[trigger] is_candidate(schema.objects.contents(), parent_pos(parent), p)
                        implies exists|k: int| 0 <= k < r@.len() && (#[trigger] r@[k]).pos()
                    == p by {
                    assert(r@[p].pos() == p);
                }
            }
            r
        },
    }
}

/// The names and scores of the candidates, aligned with `cands`.
pub(crate) fn gather_candidates(schema: &Schema, cands: &Vec<Id<Object>>) -> (r: (
    Vec<String>,
    Vec<Option<Score>>,
))
    requires
        forall|k: int|
            0 <= k < cands@.len() ==> 0 <= (#[trigger] cands@[k]).pos()
                < schema.objects.contents().len(),
    ensures
        r.0@.len() == cands@.len(),
        r.1@.len() == cands@.len(),
        forall|k: int|
            0 <= k < cands@.len() ==> (#[trigger] r.0@[k])@ == schema.objects.contents()[(
            cands@[k]).pos()].view_name(),
        forall|k: int|
            0 <= k < cands@.len() ==> #[trigger] r.1@[k] == score_opt(
                schema.object_scores@,
                cands@[k].pos(),
            ),
{
    let mut names: Vec<String> = Vec::new();
    let mut scores: Vec<Option<Score>> = Vec::new();
    let mut i: usize = 0;
    while i < cands.len()
        invariant
            i <= cands@.len(),
            names@.len() == i,
            scores@.len() == i,
            forall|k: int|
                0 <= k < cands@.len() ==> 0 <= (#[trigger] cands@[k]).pos()
                    < schema.objects.contents().len(),
            forall|k: int|
                0 <= k < i ==> (#[trigger] names@[k])@ == schema.objects.contents()[(
                cands@[k]).pos()].view_name(),
            forall|k: int|
                0 <= k < i ==> #[trigger] scores@[k] == score_opt(
                    schema.object_scores@,
                    cands@[k].pos(),
                ),
        decreases cands@.len() - i,
    {
        let id = cands[i];
        match schema.objects.get(id) {
            Some(object) => {
                names.push(object.name().to_owned());
                scores.push(schema.object_scores.get(id));
            },
            None => {
                proof {
                    assert(false);
                }
            },
        }
        i = i + 1;
    }
    (names, scores)
}

/// Resolves one tree node and, recursively, its children: binds the root to
/// the winning candidate of its universe, applies the winner's score hit,
/// and walks the children under the winner. Fails with the node's raw
/// identifier when nothing matches.
pub fn resolve_tree(
    schema: &mut Schema,
    t: &ObjectTree<String>,
    parent: Option<Id<Object>>,
    now: u64,
) -> (r: Result<ObjectTree<Id<Object>>, ResolveError>)
    ensures
        final(schema).objects == old(schema).objects,
        final(schema).columns == old(schema).columns,
        final(schema).column_scores == old(schema).column_scores,
        match r {
            Ok(out) => {
                &&& resolves_tree(
                    old(schema).objects.contents(),
                    old(schema).object_scores@,
                    t@,
                    parent_pos(parent),
                    now,
                    out@,
                )
                &&& final(schema).object_scores@ == scores_after_tree(
                    old(schema).objects.contents(),
                    old(schema).object_scores@,
                    t@,
                    out@,
                    now,
                )
            },
            Err(e) => resolve_fails(
                old(schema).objects.contents(),
                old(schema).object_scores@,
                t@,
                parent_pos(parent),
                now,
                e.identifier@,
                final(schema).object_scores@,
            ),
        },
    decreases *t, 1int, 0int,
{
    let ghost objects = schema.objects.contents();
    let ghost scores0 = schema.object_scores@;
    let ghost pp = parent_pos(parent);
    let cands = candidate_ids(schema, parent);
    let (names, scores) = gather_candidates(schema, &cands);
    match find_best(t.root.as_str(), &names, &scores) {
        None => {
            proof {
                assert forall|j: int| !cand_matches(objects, pp, t@.root, j) by {
                    if cand_matches(objects, pp, t@.root, j) {
                        let k = choose|k: int| 0 <= k < cands@.len() && cands@[k].pos() == j;
                        assert(name_matches(names@[k]@, t.root@));
                    }
                }
                assert(!has_match(objects, pp, t@.root));
            }
            Err(ResolveError { identifier: t.root.clone() })
        },
        Some(k) => {
            let winner = cands[k];
            let ghost w = winner.pos();
            proof {
                // The winner of the compacted candidate list wins over the
                // whole universe: positions map one-to-one, in order.
                assert(cand_matches(objects, pp, t@.root, w));
                assert forall|j: int|
                    cand_matches(objects, pp, t@.root, j) && j != w implies ranks_before(
                    cand_entry(objects, scores0, t@.root, w),
                    cand_entry(objects, scores0, t@.root, j),
                ) by {
                    let kj = choose|kj: int| 0 <= kj < cands@.len() && cands@[kj].pos() == j;
                    assert(name_matches(names@[kj]@, t.root@));
                    assert(kj != k);
                    assert(ranks_before(
                        crate::alg::rank_entry(names@, scores@, t.root@, k as int),
                        crate::alg::rank_entry(names@, scores@, t.root@, kj),
                    ));
                    if (k as int) < kj {
                        assert(w < j);
                    } else {
                        assert(j < w);
                    }
                }
                assert(is_winner(objects, scores0, pp, t@.root, w));
            }
            schema.object_scores.apply_hit(winner, now);
            proof {
                assert(schema.object_scores@ =~= after_hit(scores0, w, now));
            }
            match resolve_children(schema, t, 0, winner, now) {
                Ok(children) => {
                    let out = ObjectTree { root: winner, children };
                    proof {
                        assert(out@.children =~= resolved_views(out.children@));
                    }
                    Ok(out)
                },
                Err(e) => {
                    proof {
                        lemma_winner_unique(
                            objects,
                            scores0,
                            pp,
                            t@.root,
                            w,
                            the_winner(objects, scores0, pp, t@.root),
                        );
                    }
                    Err(e)
                },
            }
        },
    }
}

/// Resolves the children of `t` from position `from` on, under the resolved
/// parent, threading the score table through in order.
fn resolve_children(
    schema: &mut Schema,
    t: &ObjectTree<String>,
    from: usize,
    parent: Id<Object>,
    now: u64,
) -> (r: Result<Vec<ObjectTree<Id<Object>>>, ResolveError>)
    requires
        from <= t.children@.len(),
    ensures
        final(schema).objects == old(schema).objects,
        final(schema).columns == old(schema).columns,
        final(schema).column_scores == old(schema).column_scores,
        match r {
            Ok(outs) => {
                &&& resolves_children(
                    old(schema).objects.contents(),
                    old(schema).object_scores@,
                    t@.children,
                    from as int,
                    parent.pos(),
                    now,
                    resolved_views(outs@),
                )
                &&& final(schema).object_scores@ == scores_after_children(
                    old(schema).objects.contents(),
                    old(schema).object_scores@,
                    t@.children,
                    from as int,
                    resolved_views(outs@),
                    now,
                )
            },
            Err(e) => fails_children(
                old(schema).objects.contents(),
                old(schema).object_scores@,
                t@.children,
                from as int,
                parent.pos(),
                now,
                e.identifier@,
                final(schema).object_scores@,
            ),
        },
    decreases *t, 0int, t.children@.len() - from,
{
    if from >= t.children.len() {
        let outs: Vec<ObjectTree<Id<Object>>> = Vec::new();
        proof {
            assert(resolved_views(outs@) =~= Seq::<TreeView<int>>::empty());
        }
        return Ok(outs);
    }
    let ghost objects = schema.objects.contents();
    let ghost scores0 = schema.object_scores@;
    let head = match resolve_tree(schema, &t.children[from], Some(parent), now) {
        Err(e) => {
            proof {
                assert(t.children@[from as int]@ == t@.children[from as int]);
            }
            return Err(e);
        },
        Ok(out) => out,
    };
    let ghost mid = schema.object_scores@;
    proof {
        assert(t.children@[from as int]@ == t@.children[from as int]);
    }
    let tail = match resolve_children(schema, t, from + 1, parent, now) {
        Err(e) => {
            proof {
                lemma_resolution_unique(
                    objects,
                    scores0,
                    t@.children[from as int],
                    Some(parent.pos()),
                    now,
                    head@,
                    resolution_of(objects, scores0, t@.children[from as int], Some(parent.pos()), now),
                );
            }
            return Err(e);
        },
        Ok(outs) => outs,
    };
    let ghost tail_snapshot = tail@;
    let mut outs: Vec<ObjectTree<Id<Object>>> = Vec::new();
    outs.push(head);
    let mut tail_vec = tail;
    outs.append(&mut tail_vec);
    proof {
        assert(outs@ =~= seq![head] + tail_snapshot);
        assert(resolved_views(outs@).drop_first() =~= resolved_views(tail_snapshot));
        assert(resolved_views(outs@)[0] == head@);
    }
    Ok(outs)
}

/// Resolves a parsed query against the schema: the object tree is bound
/// node by node, depth-first, and the predicates are carried over with
/// their identifiers left raw. On failure no partial result is returned;
/// score hits already applied to resolved ancestors remain.
pub fn resolve(schema: &mut Schema, query: Query<String, String>, now: u64) -> (r: Result<
    Query<Id<Object>, String>,
    ResolveError,
>)
    ensures
        final(schema).objects == old(schema).objects,
        final(schema).columns == old(schema).columns,
        final(schema).column_scores == old(schema).column_scores,
        match r {
            Ok(out) => {
                &&& resolves_tree(
                    old(schema).objects.contents(),
                    old(schema).object_scores@,
                    query.object@,
                    None,
                    now,
                    out.object@,
                )
                &&& final(schema).object_scores@ == scores_after_tree(
                    old(schema).objects.contents(),
                    old(schema).object_scores@,
                    query.object@,
                    out.object@,
                    now,
                )
                &&& out.predicates == query.predicates
            },
            Err(e) => resolve_fails(
                old(schema).objects.contents(),
                old(schema).object_scores@,
                query.object@,
                None,
                now,
                e.identifier@,
                final(schema).object_scores@,
            ),
        },
{
    let Query { object, predicates } = query;
    match resolve_tree(schema, &object, None, now) {
        Ok(resolved) => Ok(Query { object: resolved, predicates }),
        Err(e) => Err(e),
    }
}

} // verus!
