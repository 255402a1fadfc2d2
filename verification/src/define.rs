//! Describing a schema object: look one up by fuzzy name and list its
//! column names, sorted.

use vstd::prelude::*;
use vstd::seq_lib::group_to_multiset_ensures;

use crate::alg::{find_best, name_matches, ranks_before, Name, Score};
use crate::arena::{Arena, Id};
use crate::resolve::{
    cand_entry, cand_matches, candidate_ids, gather_candidates, is_winner, score_opt,
};
use crate::schema::{Column, Object, Schema};

verus! {

broadcast use group_to_multiset_ensures;

/// Why an object's definition could not be produced.
#[derive(Debug, Clone, Copy, PartialEq, Eq, Structural)]
pub enum DefineError {
    /// No object name matched the given token.
    UnknownObject,
    /// The chosen object names a column the schema does not hold.
    UnknownColumn,
}

/// Lexicographic order on character sequences, by code point.
pub open spec fn lex_leq(a: Seq<char>, b: Seq<char>) -> bool
    decreases a.len(),
{
    if a.len() == 0 {
        true
    } else if b.len() == 0 {
        false
    } else if (a[0] as u32) < (b[0] as u32) {
        true
    } else if (a[0] as u32) > (b[0] as u32) {
        false
    } else {
        lex_leq(a.drop_first(), b.drop_first())
    }
}

/// The lexicographic order is total.
pub proof fn lemma_lex_leq_total(a: Seq<char>, b: Seq<char>)
    ensures
        lex_leq(a, b) || lex_leq(b, a),
    decreases a.len(),
{
    if a.len() > 0 && b.len() > 0 && (a[0] as u32) == (b[0] as u32) {
        lemma_lex_leq_total(a.drop_first(), b.drop_first());
    }
}

/// The lexicographic order is transitive.
pub proof fn lemma_lex_leq_trans(a: Seq<char>, b: Seq<char>, c: Seq<char>)
    requires
        lex_leq(a, b),
        lex_leq(b, c),
    ensures
        lex_leq(a, c),
    decreases a.len(),
{
    if a.len() > 0 && b.len() > 0 && c.len() > 0 && (a[0] as u32) == (b[0] as u32) && (b[0] as u32)
        == (c[0] as u32) {
        lemma_lex_leq_trans(a.drop_first(), b.drop_first(), c.drop_first());
    }
}

/// Exec mirror of [`lex_leq`] on string slices.
pub fn lex_leq_str(a: &str, b: &str) -> (r: bool)
    ensures
        r == lex_leq(a@, b@),
{
    let an = a.unicode_len();
    let bn = b.unicode_len();
    let mut i: usize = 0;
    proof {
        assert(a@.skip(0) =~= a@);
        assert(b@.skip(0) =~= b@);
    }
    loop
        invariant
            an == a@.len(),
            bn == b@.len(),
            i <= an,
            i <= bn,
            lex_leq(a@, b@) == lex_leq(a@.skip(i as int), b@.skip(i as int)),
            lex_leq(b@, a@) == lex_leq(b@.skip(i as int), a@.skip(i as int)),
        ensures
            i <= an,
            i <= bn,
            lex_leq(a@, b@) == (i == an || (i < bn && (a@[i as int] as u32) < (b@[i as int]
                as u32))),
        decreases an - i,
    {
        if i == an {
            proof {
                assert(a@.skip(i as int).len() == 0);
            }
            break ;
        }
        if i == bn {
            proof {
                assert(b@.skip(i as int).len() == 0);
                assert(a@.skip(i as int).len() > 0);
            }
            break ;
        }
        let ca = a.get_char(i);
        let cb = b.get_char(i);
        if (ca as u32) < (cb as u32) {
            proof {
                assert(a@.skip(i as int)[0] == a@[i as int]);
                assert(b@.skip(i as int)[0] == b@[i as int]);
            }
            break ;
        }
        if (ca as u32) > (cb as u32) {
            proof {
                assert(a@.skip(i as int)[0] == a@[i as int]);
                assert(b@.skip(i as int)[0] == b@[i as int]);
            }
            break ;
        }
        proof {
            assert(a@.skip(i as int)[0] == a@[i as int]);
            assert(b@.skip(i as int)[0] == b@[i as int]);
            assert(a@.skip(i as int).drop_first() =~= a@.skip(i + 1));
            assert(b@.skip(i as int).drop_first() =~= b@.skip(i + 1));
        }
        i = i + 1;
    }
    if i == an {
        true
    } else if i == bn {
        false
    } else {
        (a.get_char(i) as u32) < (b.get_char(i) as u32)
    }
}

/// All-pairs sortedness under the lexicographic order.
pub open spec fn names_sorted(v: Seq<String>) -> bool {
    forall|i: int, j: int| 0 <= i < j < v.len() ==> lex_leq(#[trigger] v[i]@, #[trigger] v[j]@)
}

/// Sorts names lexicographically: the result is an ordered rearrangement of
/// the input, nothing added, nothing lost.
pub fn sort_names(v: Vec<String>) -> (r: Vec<String>)
    ensures
        name_views(r@).to_multiset() == name_views(v@).to_multiset(),
        names_sorted(r@),
{
    let mut out: Vec<String> = Vec::new();
    let mut work = v;
    proof {
        assert(name_views(out@) =~= Seq::<Seq<char>>::empty());
        assert(name_views(work@).to_multiset() =~= name_views(v@).to_multiset());
        assert(name_views(out@).to_multiset().add(name_views(work@).to_multiset())
            =~= name_views(v@).to_multiset());
    }
    while work.len() > 0
        invariant
            name_views(out@).to_multiset().add(name_views(work@).to_multiset()) == name_views(
                v@,
            ).to_multiset(),
            names_sorted(out@),
            forall|i: int, j: int|
                0 <= i < out@.len() && 0 <= j < work@.len() ==> lex_leq(
                    #[trigger] out@[i]@,
                    #[trigger] work@[j]@,
                ),
        decreases work@.len(),
    {
        // Find the least remaining name.
        let mut m: usize = 0;
        let mut i: usize = 1;
        proof {
            lemma_lex_leq_total(work@[0]@, work@[0]@);
        }
        while i < work.len()
            invariant
                work@.len() > 0,
                m < i <= work@.len(),
                forall|j: int| 0 <= j < i ==> lex_leq(work@[m as int]@, (#[trigger] work@[j])@),
            decreases work@.len() - i,
        {
            if !lex_leq_str(work[m].as_str(), work[i].as_str()) {
                proof {
                    lemma_lex_leq_total(work@[m as int]@, work@[i as int]@);
                    lemma_lex_leq_total(work@[i as int]@, work@[i as int]@);
                    assert forall|j: int| 0 <= j < i + 1 implies lex_leq(
                        work@[i as int]@,
                        (#[trigger] work@[j])@,
                    ) by {
                        if j < i {
                            lemma_lex_leq_trans(work@[i as int]@, work@[m as int]@, work@[j]@);
                        }
                    }
                }
                m = i;
            }
            i = i + 1;
        }
        let ghost prev_out = out@;
        let ghost prev_work = work@;
        let x = work.remove(m);
        out.push(x);
        proof {
            let pov = name_views(prev_out);
            let pwv = name_views(prev_work);
            assert(name_views(work@) =~= pwv.remove(m as int));
            assert(name_views(out@) =~= pov.push(x@));
            assert(pwv.remove(m as int).to_multiset() =~= pwv.to_multiset().remove(pwv[m as int]));
            assert(pov.push(x@).to_multiset() =~= pov.to_multiset().insert(x@));
            assert(pwv[m as int] == x@);
            assert(pwv.to_multiset().count(x@) > 0) by {
                assert(pwv.contains(pwv[m as int]));
            }
            assert(name_views(out@).to_multiset().add(name_views(work@).to_multiset())
                =~= name_views(v@).to_multiset());
        }
    }
    out
}

/// The names of the columns a column-id list points at, in order.
pub open spec fn column_names(columns: Seq<Column>, ids: Seq<Id<Column>>) -> Seq<Seq<char>> {
    Seq::new(
        ids.len(),
        |i: int|
            if 0 <= i < ids.len() {
                columns[ids[i].pos()].name@
            } else {
                Seq::empty()
            },
    )
}

/// The views of a list of names.
pub open spec fn name_views(v: Seq<String>) -> Seq<Seq<char>> {
    Seq::new(
        v.len(),
        |i: int|
            if 0 <= i < v.len() {
                v[i]@
            } else {
                Seq::empty()
            },
    )
}

/// Describes the object best matching a token: the names of its columns,
/// sorted. The object is chosen exactly as the resolver would choose a root:
/// best match over every object, by classification, score and allocation
/// order — but looking it up applies no score hit.
pub fn object_definition(schema: &Schema, name: &str) -> (r: Result<Vec<String>, DefineError>)
    ensures
        match r {
            Ok(cols) => exists|w: int|
                {
                    &&& #[trigger] is_winner(
                        schema.objects.contents(),
                        schema.object_scores@,
                        None,
                        name@,
                        w,
                    )
                    &&& name_views(cols@).to_multiset() == column_names(
                        schema.columns.contents(),
                        schema.objects.contents()[w].view_columns(),
                    ).to_multiset()
                    &&& names_sorted(cols@)
                },
            Err(DefineError::UnknownObject) => forall|j: int|
                !cand_matches(schema.objects.contents(), None, name@, j),
            Err(DefineError::UnknownColumn) => exists|w: int|
                {
                    &&& #[trigger] is_winner(
                        schema.objects.contents(),
                        schema.object_scores@,
                        None,
                        name@,
                        w,
                    )
                    &&& exists|k: int|
                        0 <= k < schema.objects.contents()[w].view_columns().len() && !(0 <= (
                        #[trigger] schema.objects.contents()[w].view_columns()[k]).pos()
                            < schema.columns.contents().len())
                },
        },
{
    let ghost objects = schema.objects.contents();
    let ghost scores0 = schema.object_scores@;
    let cands = candidate_ids(schema, None);
    let (names, scores) = gather_candidates(schema, &cands);
    match find_best(name, &names, &scores) {
        None => {
            proof {
                assert forall|j: int| !cand_matches(objects, None, name@, j) by {
                    if cand_matches(objects, None, name@, j) {
                        let k = choose|k: int| 0 <= k < cands@.len() && cands@[k].pos() == j;
                        assert(name_matches(names@[k]@, name@));
                    }
                }
            }
            Err(DefineError::UnknownObject)
        },
        Some(k) => {
            let winner = cands[k];
            let ghost w = winner.pos();
            proof {
                assert(cand_matches(objects, None, name@, w));
                assert forall|j: int|
                    cand_matches(objects, None, name@, j) && j != w implies ranks_before(
                    cand_entry(objects, scores0, name@, w),
                    cand_entry(objects, scores0, name@, j),
                ) by {
                    let kj = choose|kj: int| 0 <= kj < cands@.len() && cands@[kj].pos() == j;
                    assert(name_matches(names@[kj]@, name@));
                    assert(kj != k);
                    assert(ranks_before(
                        crate::alg::rank_entry(names@, scores@, name@, k as int),
                        crate::alg::rank_entry(names@, scores@, name@, kj),
                    ));
                    if (k as int) < kj {
                        assert(w < j);
                    } else {
                        assert(j < w);
                    }
                }
                assert(is_winner(objects, scores0, None, name@, w));
            }
            let object = match schema.objects.get(winner) {
                Some(o) => o,
                None => {
                    proof {
                        assert(false);
                    }
                    return Err(DefineError::UnknownObject);
                },
            };
            let ids = object.columns();
            let mut cols: Vec<String> = Vec::new();
            let mut i: usize = 0;
            while i < ids.len()
                invariant
                    i <= ids@.len(),
                    ids@ == objects[w as int].view_columns(),
                    0 <= w < objects.len(),
                    objects == schema.objects.contents(),
                    scores0 == schema.object_scores@,
                    is_winner(objects, scores0, None, name@, w),
                    cols@.len() == i,
                    forall|j: int|
                        0 <= j < i ==> (#[trigger] cols@[j])@ == column_names(
                            schema.columns.contents(),
                            ids@,
                        )[j],
                decreases ids@.len() - i,
            {
                let id = ids[i];
                match schema.columns.get(id) {
                    Some(column) => {
                        cols.push(column.name().to_owned());
                    },
                    None => {
                        return Err(DefineError::UnknownColumn);
                    },
                }
                i = i + 1;
            }
            proof {
                assert(name_views(cols@) =~= column_names(schema.columns.contents(), ids@));
            }
            let sorted = sort_names(cols);
            Ok(sorted)
        },
    }
}

/// Every object's name, in allocation order.
pub fn object_names(schema: &Schema) -> (r: Vec<String>)
    ensures
        r@.len() == schema.objects.contents().len(),
        forall|i: int|
            0 <= i < r@.len() ==> (#[trigger] r@[i])@ == schema.objects.contents()[i].view_name(),
{
    let n = schema.objects.len();
    let mut r: Vec<String> = Vec::new();
    let mut i: usize = 0;
    while i < n
        invariant
            n == schema.objects.contents().len(),
            i <= n,
            r@.len() == i,
            forall|j: int|
                0 <= j < i ==> (#[trigger] r@[j])@ == schema.objects.contents()[j].view_name(),
        decreases n - i,
    {
        match schema.objects.get(Id::from_index(i)) {
            Some(object) => {
                r.push(object.name().to_owned());
            },
            None => {
                proof {
                    assert(false);
                }
            },
        }
        i = i + 1;
    }
    r
}

} // verus!
