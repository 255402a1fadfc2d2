//! The schema model: columns and objects held in arenas, foreign-key edges,
//! and the per-entity score tables.

use core::marker::PhantomData;
use vstd::prelude::*;

use crate::alg::{hit_score, Name, Score};
use crate::arena::{Arena, Id, PersistedArena};

verus! {

/// The data type of a column, as far as the model distinguishes them.
#[derive(Clone, Copy, PartialEq, Eq, Structural, Debug)]
pub enum DataType {
    Unknown,
    Integer,
}

impl Default for DataType {
    fn default() -> (r: Self)
        ensures
            r == DataType::Unknown,
    {
        DataType::Unknown
    }
}

/// A column of a table or view.
#[derive(Clone, Debug)]
pub struct Column {
    pub name: String,
    pub data_type: DataType,
    pub nullable: bool,
}

impl Name for Column {
    open spec fn spec_name(&self) -> Seq<char> {
        self.name@
    }

    fn name(&self) -> (r: &str) {
        self.name.as_str()
    }
}

/// Models a foreign key relationship between columns in different objects:
/// a directed edge from the holding table to the referenced object.
#[derive(Clone, Copy, Debug)]
pub struct ForeignKey {
    pub column: Id<Column>,
    pub referenced_object: Id<Object>,
    pub referenced_column: Id<Column>,
}

/// A schema object: a table or a view. Both carry a name and an ordered list
/// of column ids; only a table carries foreign keys.
#[derive(Clone, Debug)]
pub enum Object {
    Table {
        name: String,
        columns: Vec<Id<Column>>,
        foreign_keys: Vec<ForeignKey>,
    },
    View {
        name: String,
        columns: Vec<Id<Column>>,
    },
}

impl Object {
    /// The object's name.
    pub open spec fn view_name(&self) -> Seq<char> {
        match self {
            Object::Table { name, .. } => name@,
            Object::View { name, .. } => name@,
        }
    }

    /// The object's column ids, in declaration order.
    pub open spec fn view_columns(&self) -> Seq<Id<Column>> {
        match self {
            Object::Table { columns, .. } => columns@,
            Object::View { columns, .. } => columns@,
        }
    }

    /// The object's foreign keys: those declared for a table, none for a
    /// view.
    pub open spec fn view_foreign_keys(&self) -> Seq<ForeignKey> {
        match self {
            Object::Table { foreign_keys, .. } => foreign_keys@,
            Object::View { .. } => Seq::empty(),
        }
    }

    /// True when this object declares a foreign key whose referenced object
    /// sits at allocation position `target`.
    pub open spec fn references(&self, target: int) -> bool {
        exists|k: int|
            0 <= k < self.view_foreign_keys().len()
                && (#[trigger] self.view_foreign_keys()[k]).referenced_object.pos() == target
    }

    /// The object's column ids, in declaration order.
    pub fn columns(&self) -> (r: &Vec<Id<Column>>)
        ensures
            r@ == self.view_columns(),
    {
        match self {
            Object::Table { columns, .. } => columns,
            Object::View { columns, .. } => columns,
        }
    }

    /// The foreign keys this object declares; a view declares none.
    pub fn foreign_keys(&self) -> (r: Vec<ForeignKey>)
        ensures
            r@ == self.view_foreign_keys(),
    {
        match self {
            Object::Table { foreign_keys, .. } => {
                let mut r: Vec<ForeignKey> = Vec::new();
                let mut i: usize = 0;
                while i < foreign_keys.len()
                    invariant
                        i <= foreign_keys@.len(),
                        r@ == foreign_keys@.subrange(0, i as int),
                    decreases foreign_keys@.len() - i,
                {
                    r.push(foreign_keys[i]);
                    i = i + 1;
                    proof {
                        assert(r@ =~= foreign_keys@.subrange(0, i as int));
                    }
                }
                proof {
                    assert(r@ =~= foreign_keys@);
                }
                r
            },
            Object::View { .. } => Vec::new(),
        }
    }

    /// Exec mirror of [`Object::references`].
    pub fn references_target(&self, target: Id<Object>) -> (r: bool)
        ensures
            r == self.references(target.pos()),
    {
        match self {
            Object::View { .. } => false,
            Object::Table { foreign_keys, .. } => {
                let mut i: usize = 0;
                while i < foreign_keys.len()
                    invariant
                        i <= foreign_keys@.len(),
                        foreign_keys@ == self.view_foreign_keys(),
                        forall|k: int|
                            0 <= k < i ==> (#[trigger] foreign_keys@[k]).referenced_object.pos()
                                != target.pos(),
                    decreases foreign_keys@.len() - i,
                {
                    if foreign_keys[i].referenced_object == target {
                        return true;
                    }
                    i = i + 1;
                }
                false
            },
        }
    }
}

impl Name for Object {
    open spec fn spec_name(&self) -> Seq<char> {
        self.view_name()
    }

    fn name(&self) -> (r: &str) {
        match self {
            Object::Table { name, .. } => name.as_str(),
            Object::View { name, .. } => name.as_str(),
        }
    }
}

/// A table of usage scores keyed by entity id, kept beside (not inside) the
/// arena that issued the ids. An id with no entry has never been hit.
pub struct ScoreTable<T> {
    entries: Vec<Option<Score>>,
    _marker: PhantomData<T>,
}

impl<T> ScoreTable<T> {
    /// The scores held, as a map from allocation position to score.
    pub closed spec fn view(&self) -> Map<int, Score> {
        Map::new(
            |p: int| 0 <= p < self.entries@.len() && self.entries@[p] is Some,
            |p: int| self.entries@[p]->Some_0,
        )
    }

    /// The score recorded at a given position, if any.
    pub open spec fn score_at(&self, p: int) -> Option<Score> {
        if self@.dom().contains(p) {
            Some(self@[p])
        } else {
            None
        }
    }

    /// Creates an empty score table.
    pub fn new() -> (r: Self)
        ensures
            r@ == Map::<int, Score>::empty(),
    {
        let r = ScoreTable { entries: Vec::new(), _marker: PhantomData };
        proof {
            assert(r@ =~= Map::<int, Score>::empty());
        }
        r
    }

    /// Reads the score of an entity; `None` when it has never been hit.
    pub fn get(&self, id: Id<T>) -> (r: Option<Score>)
        ensures
            r == self.score_at(id.pos()),
    {
        let index = id.index();
        if index < self.entries.len() {
            self.entries[index]
        } else {
            None
        }
    }

    /// Records a score for an entity outright, as a loaded snapshot or a
    /// test fixture would. Every other entry is untouched.
    pub fn set(&mut self, id: Id<T>, score: Score)
        ensures
            final(self)@ == old(self)@.insert(id.pos(), score),
    {
        let index = id.index();
        while self.entries.len() <= index
            invariant
                self@ == old(self)@,
                index == id.pos(),
            decreases index + 1 - self.entries@.len(),
        {
            let ghost prev = self@;
            self.entries.push(None);
            proof {
                assert(self@ =~= prev);
            }
        }
        let ghost prev = self@;
        self.entries.set(index, Some(score));
        proof {
            assert(self@ =~= prev.insert(id.pos(), score));
        }
    }

    /// Applies one hit to an entity's score at time `now`: the single
    /// mutation the score table admits. Every other entry is untouched.
    pub fn apply_hit(&mut self, id: Id<T>, now: u64)
        ensures
            final(self)@ == old(self)@.insert(
                id.pos(),
                hit_score(old(self).score_at(id.pos()), now),
            ),
    {
        let index = id.index();
        while self.entries.len() <= index
            invariant
                self@ == old(self)@,
                index == id.pos(),
            decreases index + 1 - self.entries@.len(),
        {
            let ghost prev = self@;
            self.entries.push(None);
            proof {
                assert(self@ =~= prev);
            }
        }
        let mut slot = self.entries[index];
        crate::alg::update_score(&mut slot, now);
        let ghost prev = self@;
        self.entries.set(index, slot);
        proof {
            assert(self@ =~= prev.insert(id.pos(), hit_score(old(self).score_at(id.pos()), now)));
        }
    }
}

/// A database schema: the column and object arenas, and the score table of
/// each entity kind, kept separately so that object and column ids are never
/// confused.
pub struct Schema {
    pub objects: PersistedArena<Object>,
    pub columns: PersistedArena<Column>,
    pub object_scores: ScoreTable<Object>,
    pub column_scores: ScoreTable<Column>,
}

impl Schema {
    /// Creates an empty schema.
    pub fn new() -> (r: Self)
        ensures
            r.objects.contents() == Seq::<Object>::empty(),
            r.columns.contents() == Seq::<Column>::empty(),
            r.object_scores@ == Map::<int, Score>::empty(),
            r.column_scores@ == Map::<int, Score>::empty(),
    {
        Schema {
            objects: PersistedArena::new(),
            columns: PersistedArena::new(),
            object_scores: ScoreTable::new(),
            column_scores: ScoreTable::new(),
        }
    }

    /// Fetches all objects that reference a given object via a foreign key,
    /// as ids in allocation order.
    pub fn foreign_objects(&self, id: Id<Object>) -> (r: Vec<Id<Object>>)
        ensures
            forall|k: int|
                0 <= k < r@.len() ==> {
                    &&& 0 <= (#[trigger] r@[k]).pos() < self.objects.contents().len()
                    &&& self.objects.contents()[r@[k].pos()].references(id.pos())
                },
            forall|k1: int, k2: int| 0 <= k1 < k2 < r@.len() ==> r@[k1].pos() < r@[k2].pos(),
            forall|p: int|
                0 <= p < self.objects.contents().len() && (#[trigger] self.objects.contents()[p])
                    .references(id.pos()) ==> exists|k: int| 0 <= k < r@.len() && r@[k].pos() == p,
    {
        let mut r: Vec<Id<Object>> = Vec::new();
        let n = self.objects.len();
        let mut p: usize = 0;
        while p < n
            invariant
                n == self.objects.contents().len(),
                p <= n,
                forall|k: int|
                    0 <= k < r@.len() ==> {
                        &&& 0 <= (#[trigger] r@[k]).pos() < p
                        &&& self.objects.contents()[r@[k].pos()].references(id.pos())
                    },
                forall|k1: int, k2: int| 0 <= k1 < k2 < r@.len() ==> r@[k1].pos() < r@[k2].pos(),
                forall|q: int|
                    0 <= q < p && (#[trigger] self.objects.contents()[q]).references(id.pos())
                        ==> exists|k: int| 0 <= k < r@.len() && r@[k].pos() == q,
            decreases n - p,
        {
            let oid = Id::<Object>::from_index(p);
            match self.objects.get(oid) {
                Some(object) => {
                    if object.references_target(id) {
                        let ghost prev = r@;
                        r.push(oid);
                        proof {
                            assert(r@[r@.len() - 1].pos() == p);
                            assert forall|q: int|
                                0 <= q < p + 1 && (#[trigger] self.objects.contents()[q])
                                    .references(id.pos()) implies exists|k: int|
                                0 <= k < r@.len() && r@[k].pos() == q by {
                                if q == p {
                                    assert(r@[r@.len() - 1].pos() == q);
                                } else {
                                    let k = choose|k: int| 0 <= k < prev.len() && prev[k].pos() == q;
                                    assert(r@[k].pos() == q);
                                }
                            }
                        }
                    }
                },
                None => (),
            }
            p = p + 1;
        }
        r
    }
}

} // verus!
