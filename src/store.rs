use vstd::prelude::*;
use crate::types::{Id, Body, copy_body};

verus! {

/// A stored cell: its id, its schema and its body.
pub struct Cell {
    pub id: Id,
    pub schema: u32,
    pub data: Body,
}

/// `a` and `b` hold the same id, schema and body.
pub open spec fn same_cell(a: Cell, b: Cell) -> bool {
    a.id == b.id && a.schema == b.schema && a.data@ == b.data@
}

impl Cell {
    pub fn copy(&self) -> (r: Cell)
        ensures
            same_cell(r, *self),
    {
        Cell { id: self.id, schema: self.schema, data: copy_body(&self.data) }
    }
}

/// The address of an adjacency id-list: owning vertex, slot field and the
/// edge schema whose membership it tracks.
#[derive(Clone, Copy, Debug, PartialEq, Eq, Structural)]
pub struct ListKey {
    pub owner: Id,
    pub slot: u64,
    pub schema: u32,
}

pub struct IdList {
    pub key: ListKey,
    pub ids: Vec<Id>,
}

/// The last cell in `s` with id `id`.
pub open spec fn cell_of(s: Seq<Cell>, id: Id) -> Option<Cell>
    decreases s.len(),
{
    if s.len() == 0 {
        None
    } else if s.last().id == id {
        Some(s.last())
    } else {
        cell_of(s.drop_last(), id)
    }
}

/// The entries of the last list in `s` under `k`; empty where there is none.
pub open spec fn list_of(s: Seq<IdList>, k: ListKey) -> Seq<Id>
    decreases s.len(),
{
    if s.len() == 0 {
        Seq::empty()
    } else if s.last().key == k {
        s.last().ids@
    } else {
        list_of(s.drop_last(), k)
    }
}

pub proof fn lemma_cell_of_id(s: Seq<Cell>, id: Id)
    ensures
        cell_of(s, id) is Some ==> cell_of(s, id)->Some_0.id == id,
    decreases s.len(),
{
    if s.len() > 0 {
        lemma_cell_of_id(s.drop_last(), id);
    }
}

pub proof fn lemma_stored_ids(s: Seq<Cell>)
    ensures
        forall|j: int| 0 <= j < s.len() ==> cell_of(s, #[trigger] s[j].id) is Some,
    decreases s.len(),
{
    if s.len() > 0 {
        lemma_stored_ids(s.drop_last());
        assert forall|j: int| 0 <= j < s.len() implies cell_of(s, #[trigger] s[j].id) is Some by {
            if j < s.len() - 1 && s[j].id != s.last().id {
                assert(s.drop_last()[j] == s[j]);
            }
        }
    }
}

/// `i` is the first position of `x` in `s`.
pub open spec fn is_first_index(s: Seq<Id>, x: Id, i: int) -> bool {
    0 <= i < s.len() && s[i] == x && forall|j: int| 0 <= j < i ==> s[j] != x
}

/// `s` without the first occurrence of `x`; `s` itself where `x` is absent.
pub open spec fn remove_first(s: Seq<Id>, x: Id) -> Seq<Id> {
    if s.contains(x) {
        s.remove(choose|i: int| is_first_index(s, x, i))
    } else {
        s
    }
}

pub proof fn lemma_remove_first_at(s: Seq<Id>, x: Id, i: int)
    requires
        is_first_index(s, x, i),
    ensures
        remove_first(s, x) == s.remove(i),
{
    assert(s.contains(x));
    let k = choose|k: int| is_first_index(s, x, k);
    assert(is_first_index(s, x, k));
    if k < i {
        assert(s[k] != x);
    }
    if i < k {
        assert(s[i] != x);
    }
}

/// The cells a graph transaction works on, and the adjacency id-lists kept
/// beside them. A list is addressed by its owner, slot field and edge
/// schema, so a vertex has one list per direction and edge schema; the slot
/// fields of a vertex cell keep the unit id. A list that is emptied is
/// reclaimed, and one never written reads as empty.
pub struct CellStore {
    cells: Vec<Cell>,
    lists: Vec<IdList>,
    next_id: u64,
}

impl CellStore {
    /// The stored cells, by id.
    pub closed spec fn cells(&self) -> Map<Id, Cell> {
        Map::new(|x: Id| cell_of(self.cells@, x) is Some, |x: Id| cell_of(self.cells@, x)->Some_0)
    }

    /// The entries of every id-list; a list never written is empty.
    pub closed spec fn lists(&self) -> Map<ListKey, Seq<Id>> {
        Map::new(|k: ListKey| true, |k: ListKey| list_of(self.lists@, k))
    }

    /// The low word of the id the next written cell receives.
    pub closed spec fn next_id(&self) -> u64 {
        self.next_id
    }

    /// Every list key has a list, empty where nothing was written.
    pub proof fn lemma_lists_total(&self)
        ensures
            forall|k: ListKey| #[trigger] self.lists().contains_key(k),
    {
    }

    /// Every stored cell carries its own id, handed out before `next_id`.
    pub proof fn lemma_ids_below_next(&self)
        requires
            self.wf(),
        ensures
            forall|x: Id| #[trigger] self.cells().contains_key(x) ==> x.higher == 0 && x.lower < self.next_id()
                && self.cells()[x].id == x,
    {
    }

    /// Every stored cell has an id handed out before `next_id`.
    pub closed spec fn wf(&self) -> bool {
        &&& self.next_id >= 1
        &&& forall|x: Id| #[trigger] self.cells().contains_key(x) ==> x.higher == 0 && 1 <= x.lower
            < self.next_id
        &&& forall|x: Id| #[trigger] self.cells().contains_key(x) ==> self.cells()[x].id == x
    }

    /// Whether a further cell id can be handed out.
    pub fn can_allocate(&self) -> (r: bool)
        ensures
            r == (self.next_id() < u64::MAX),
    {
        self.next_id < u64::MAX
    }

    /// An empty store.
    pub fn new() -> (r: CellStore)
        ensures
            r.wf(),
            r.cells() == Map::<Id, Cell>::empty(),
            forall|k: ListKey| #[trigger] r.lists()[k] == Seq::<Id>::empty(),
            r.lists().dom() == Set::<ListKey>::full(),
            r.next_id() == 1,
    {
        let r = CellStore { cells: Vec::new(), lists: Vec::new(), next_id: 1 };
        assert(r.cells() =~= Map::<Id, Cell>::empty());
        assert(r.lists().dom() =~= Set::<ListKey>::full());
        r
    }

    /// A copy of cell `id`, if it is stored.
    pub fn read(&self, id: Id) -> (r: Option<Cell>)
        ensures
            r is Some <==> self.cells().contains_key(id),
            r is Some ==> same_cell(r->Some_0, self.cells()[id]) && r->Some_0.id == id,
    {
        proof {
            lemma_cell_of_id(self.cells@, id);
        }
        let mut i: usize = self.cells.len();
        assert(self.cells@.take(i as int) =~= self.cells@);
        while i > 0
            invariant
                i <= self.cells@.len(),
                cell_of(self.cells@.take(i as int), id) == cell_of(self.cells@, id),
            decreases i,
        {
            assert(self.cells@.take(i as int).drop_last() =~= self.cells@.take(i - 1));
            if self.cells[i - 1].id == id {
                return Some(self.cells[i - 1].copy());
            }
            i = i - 1;
        }
        None
    }

    /// Whether cell `id` is stored.
    pub fn contains(&self, id: Id) -> (r: bool)
        ensures
            r == self.cells().contains_key(id),
    {
        let mut i: usize = self.cells.len();
        assert(self.cells@.take(i as int) =~= self.cells@);
        while i > 0
            invariant
                i <= self.cells@.len(),
                cell_of(self.cells@.take(i as int), id) == cell_of(self.cells@, id),
            decreases i,
        {
            assert(self.cells@.take(i as int).drop_last() =~= self.cells@.take(i - 1));
            if self.cells[i - 1].id == id {
                return true;
            }
            i = i - 1;
        }
        false
    }

    /// The schema of cell `id`, if it is stored.
    pub fn schema_of(&self, id: Id) -> (r: Option<u32>)
        ensures
            r is Some <==> self.cells().contains_key(id),
            r is Some ==> r->Some_0 == self.cells()[id].schema,
    {
        let mut i: usize = self.cells.len();
        assert(self.cells@.take(i as int) =~= self.cells@);
        while i > 0
            invariant
                i <= self.cells@.len(),
                cell_of(self.cells@.take(i as int), id) == cell_of(self.cells@, id),
            decreases i,
        {
            assert(self.cells@.take(i as int).drop_last() =~= self.cells@.take(i - 1));
            if self.cells[i - 1].id == id {
                return Some(self.cells[i - 1].schema);
            }
            i = i - 1;
        }
        None
    }

    /// Writes a new cell of `schema` with body `data` under a fresh id.
    pub fn write_new(&mut self, schema: u32, data: Body) -> (r: Id)
        requires
            old(self).wf(),
            old(self).next_id() < u64::MAX,
        ensures
            final(self).wf(),
            r == (Id { higher: 0, lower: old(self).next_id() }),
            !old(self).cells().contains_key(r),
            final(self).cells() == old(self).cells().insert(r, Cell { id: r, schema, data }),
            final(self).lists() == old(self).lists(),
            final(self).next_id() == old(self).next_id() + 1,
    {
        let id = Id { higher: 0, lower: self.next_id };
        let ghost c = Cell { id, schema, data };
        self.cells.push(Cell { id, schema, data });
        self.next_id = self.next_id + 1;
        assert(self.cells@.drop_last() =~= old(self).cells@);
        assert(self.cells() =~= old(self).cells().insert(id, c));
        assert(self.lists() =~= old(self).lists());
        id
    }

    /// Removes cell `id`; nothing happens where it is absent.
    pub fn remove(&mut self, id: Id)
        requires
            old(self).wf(),
        ensures
            final(self).wf(),
            final(self).cells() == old(self).cells().remove(id),
            final(self).lists() == old(self).lists(),
            final(self).next_id() == old(self).next_id(),
    {
        let mut rest: Vec<Cell> = Vec::new();
        std::mem::swap(&mut rest, &mut self.cells);
        let ghost s = rest@;
        let n: usize = rest.len();
        let mut kept: Vec<Cell> = Vec::new();
        let mut i: usize = 0;
        while rest.len() > 0
            invariant
                n == s.len(),
                i <= s.len(),
                rest@ == s.skip(i as int),
                rest@.len() == s.len() - i,
                forall|x: Id| #[trigger] cell_of(kept@, x) == if x == id {
                    None
                } else {
                    cell_of(s.take(i as int), x)
                },
            decreases rest@.len(),
        {
            assert(s.take(i + 1).drop_last() =~= s.take(i as int));
            let c = rest.remove(0);
            assert(c == s[i as int]);
            assert(rest@ =~= s.skip(i + 1));
            let ghost before = kept@;
            if c.id != id {
                kept.push(c);
                assert(kept@.drop_last() =~= before);
            }
            assert forall|x: Id| #[trigger] cell_of(kept@, x) == if x == id {
                None
            } else {
                cell_of(s.take(i + 1), x)
            } by {
                assert(s.take(i + 1).last() == s[i as int]);
                assert(cell_of(before, x) == if x == id {
                    None
                } else {
                    cell_of(s.take(i as int), x)
                });
            }
            i = i + 1;
        }
        assert(s.take(i as int) =~= s);
        assert(s.take(s.len() as int) =~= s);
        self.cells = kept;
        assert(self.cells() =~= old(self).cells().remove(id));
        assert(self.lists() =~= old(self).lists());
    }

    /// The entries of list `k`.
    pub fn list_ids(&self, k: ListKey) -> (r: Vec<Id>)
        ensures
            r@ == self.lists()[k],
    {
        let mut i: usize = self.lists.len();
        assert(self.lists@.take(i as int) =~= self.lists@);
        while i > 0
            invariant
                i <= self.lists@.len(),
                list_of(self.lists@.take(i as int), k) == list_of(self.lists@, k),
            decreases i,
        {
            assert(self.lists@.take(i as int).drop_last() =~= self.lists@.take(i - 1));
            if self.lists[i - 1].key == k {
                let src = &self.lists[i - 1].ids;
                let mut r: Vec<Id> = Vec::new();
                let mut j: usize = 0;
                while j < src.len()
                    invariant
                        j <= src@.len(),
                        r@ == src@.take(j as int),
                    decreases src@.len() - j,
                {
                    r.push(src[j]);
                    j = j + 1;
                    assert(r@ =~= src@.take(j as int));
                }
                assert(src@.take(src@.len() as int) =~= src@);
                return r;
            }
            i = i - 1;
        }
        Vec::new()
    }

    /// The number of entries of list `k`, without copying them.
    pub fn list_count(&self, k: ListKey) -> (r: usize)
        ensures
            r == self.lists()[k].len(),
    {
        let mut i: usize = self.lists.len();
        assert(self.lists@.take(i as int) =~= self.lists@);
        while i > 0
            invariant
                i <= self.lists@.len(),
                list_of(self.lists@.take(i as int), k) == list_of(self.lists@, k),
            decreases i,
        {
            assert(self.lists@.take(i as int).drop_last() =~= self.lists@.take(i - 1));
            if self.lists[i - 1].key == k {
                return self.lists[i - 1].ids.len();
            }
            i = i - 1;
        }
        0
    }

    /// The keys of every list that holds an entry, and maybe of others.
    pub(crate) fn list_keys(&self) -> (r: Vec<ListKey>)
        ensures
            forall|k: ListKey| self.lists()[k].len() > 0 ==> r@.contains(k),
    {
        let mut r: Vec<ListKey> = Vec::new();
        let mut i: usize = 0;
        while i < self.lists.len()
            invariant
                i <= self.lists@.len(),
                forall|k: ListKey| list_of(self.lists@.take(i as int), k).len() > 0 ==> r@.contains(k),
            decreases self.lists@.len() - i,
        {
            assert(self.lists@.take(i + 1).drop_last() =~= self.lists@.take(i as int));
            let ghost before = r@;
            r.push(self.lists[i].key);
            assert forall|k: ListKey| list_of(self.lists@.take(i + 1), k).len() > 0 implies r@.contains(k) by {
                if k == self.lists@[i as int].key {
                    assert(r@[r@.len() - 1] == k);
                } else {
                    assert(before.contains(k));
                    let j = choose|j: int| 0 <= j < before.len() && before[j] == k;
                    assert(r@[j] == k);
                }
            }
            i = i + 1;
        }
        assert(self.lists@.take(self.lists@.len() as int) =~= self.lists@);
        r
    }

    /// The ids of every stored cell.
    pub fn cell_ids(&self) -> (r: Vec<Id>)
        ensures
            forall|x: Id| self.cells().contains_key(x) <==> r@.contains(x),
    {
        proof {
            lemma_stored_ids(self.cells@);
        }
        let mut r: Vec<Id> = Vec::new();
        let mut i: usize = 0;
        while i < self.cells.len()
            invariant
                i <= self.cells@.len(),
                forall|x: Id| cell_of(self.cells@.take(i as int), x) is Some ==> r@.contains(x),
                forall|j: int| 0 <= j < r@.len() ==> r@[j] == self.cells@[j].id,
                r@.len() == i,
            decreases self.cells@.len() - i,
        {
            assert(self.cells@.take(i + 1).drop_last() =~= self.cells@.take(i as int));
            let ghost before = r@;
            r.push(self.cells[i].id);
            assert forall|x: Id| cell_of(self.cells@.take(i + 1), x) is Some implies r@.contains(x) by {
                if x == self.cells@[i as int].id {
                    assert(r@[r@.len() - 1] == x);
                } else {
                    assert(before.contains(x));
                    let j = choose|j: int| 0 <= j < before.len() && before[j] == x;
                    assert(r@[j] == x);
                }
            }
            i = i + 1;
        }
        assert(self.cells@.take(self.cells@.len() as int) =~= self.cells@);
        assert forall|x: Id| r@.contains(x) implies self.cells().contains_key(x) by {
            let j = choose|j: int| 0 <= j < r@.len() && #[trigger] r@[j] == x;
            assert(self.cells@[j].id == x);
        }
        r
    }

    /// Replaces the entries of list `k`; an emptied list is reclaimed.
    pub fn set_list(&mut self, k: ListKey, ids: Vec<Id>)
        requires
            old(self).wf(),
        ensures
            final(self).wf(),
            final(self).cells() == old(self).cells(),
            final(self).lists() == old(self).lists().insert(k, ids@),
            final(self).next_id() == old(self).next_id(),
    {
        let mut rest: Vec<IdList> = Vec::new();
        std::mem::swap(&mut rest, &mut self.lists);
        let ghost s = rest@;
        let n: usize = rest.len();
        let mut kept: Vec<IdList> = Vec::new();
        let mut i: usize = 0;
        while rest.len() > 0
            invariant
                n == s.len(),
                i <= s.len(),
                rest@ == s.skip(i as int),
                rest@.len() == s.len() - i,
                forall|x: ListKey| #[trigger] list_of(kept@, x) == if x == k {
                    Seq::<Id>::empty()
                } else {
                    list_of(s.take(i as int), x)
                },
            decreases rest@.len(),
        {
            assert(s.take(i + 1).drop_last() =~= s.take(i as int));
            let l = rest.remove(0);
            assert(l == s[i as int]);
            assert(rest@ =~= s.skip(i + 1));
            let ghost before = kept@;
            if l.key != k {
                kept.push(l);
                assert(kept@.drop_last() =~= before);
            }
            assert forall|x: ListKey| #[trigger] list_of(kept@, x) == if x == k {
                Seq::<Id>::empty()
            } else {
                list_of(s.take(i + 1), x)
            } by {
                assert(s.take(i + 1).last() == s[i as int]);
                assert(list_of(before, x) == if x == k {
                    Seq::<Id>::empty()
                } else {
                    list_of(s.take(i as int), x)
                });
            }
            i = i + 1;
        }
        assert(s.take(i as int) =~= s);
        let ghost v = ids@;
        let ghost before = kept@;
        if ids.len() > 0 {
            kept.push(IdList { key: k, ids });
            assert(kept@.drop_last() =~= before);
        } else {
            assert(v =~= Seq::<Id>::empty());
        }
        assert forall|x: ListKey| #[trigger] list_of(kept@, x) == if x == k {
            v
        } else {
            list_of(s, x)
        } by {
            assert(list_of(before, x) == if x == k {
                Seq::<Id>::empty()
            } else {
                list_of(s, x)
            });
        }
        self.lists = kept;
        assert(self.lists() =~= old(self).lists().insert(k, v));
        assert(self.cells() =~= old(self).cells());
    }

    /// Appends `x` to list `k`.
    pub fn append(&mut self, k: ListKey, x: Id)
        requires
            old(self).wf(),
        ensures
            final(self).wf(),
            final(self).cells() == old(self).cells(),
            final(self).lists() == old(self).lists().insert(k, old(self).lists()[k].push(x)),
            final(self).next_id() == old(self).next_id(),
    {
        let mut ids = self.list_ids(k);
        ids.push(x);
        self.set_list(k, ids);
    }

    /// Removes the first occurrence of `x` from list `k`, if there is one.
    pub fn remove_entry(&mut self, k: ListKey, x: Id)
        requires
            old(self).wf(),
        ensures
            final(self).wf(),
            final(self).cells() == old(self).cells(),
            final(self).lists() == old(self).lists().insert(k, remove_first(old(self).lists()[k], x)),
            final(self).next_id() == old(self).next_id(),
    {
        let mut ids = self.list_ids(k);
        let mut i: usize = 0;
        while i < ids.len()
            invariant
                *self == *old(self),
                self.wf(),
                ids@ == old(self).lists()[k],
                i <= ids@.len(),
                forall|j: int| 0 <= j < i ==> ids@[j] != x,
            decreases ids@.len() - i,
        {
            if ids[i] == x {
                proof {
                    lemma_remove_first_at(ids@, x, i as int);
                }
                ids.remove(i);
                self.set_list(k, ids);
                return;
            }
            i = i + 1;
        }
        assert(!ids@.contains(x));
        assert(self.lists().insert(k, ids@) =~= self.lists());
    }

    /// Replaces the body of the stored cell `id`; its id and schema stay.
    pub fn update_data(&mut self, id: Id, data: Body)
        requires
            old(self).wf(),
            old(self).cells().contains_key(id),
        ensures
            final(self).wf(),
            final(self).cells() == old(self).cells().insert(
                id,
                Cell { id, schema: old(self).cells()[id].schema, data },
            ),
            final(self).lists() == old(self).lists(),
            final(self).next_id() == old(self).next_id(),
    {
        let schema = match self.schema_of(id) {
            Some(s) => s,
            None => 0,
        };
        let ghost c = Cell { id, schema, data };
        self.remove(id);
        let ghost before = self.cells@;
        let ghost mid = self.cells();
        self.cells.push(Cell { id, schema, data });
        assert(self.cells@.drop_last() =~= before);
        assert forall|x: Id| #[trigger] cell_of(self.cells@, x) == if x == id {
            Some(c)
        } else {
            cell_of(before, x)
        } by {}
        assert(self.cells() =~= mid.insert(id, c));
        assert(self.cells() =~= old(self).cells().insert(id, c));
        assert(self.lists() =~= old(self).lists());
    }
}

} // verus!
