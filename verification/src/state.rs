//! The state of each identifier during a pass, and the table that keeps it.
//!
//! An identifier starts out awaiting its path and collects the members that arrive in the
//! meantime. Once its pathname member has been read it has a known path, or it is in error when
//! the member could not be read.

use vstd::prelude::*;

verus! {

/// The members of an identifier that arrived before its path was known.
pub struct AssetParts<B> {
    /// The content of the asset, if it has arrived.
    pub asset: Option<B>,
    /// The metadata of the asset, if it has arrived.
    pub metadata: Option<B>,
}

/// What the pass knows of one identifier.
pub enum ItemStatus<B> {
    /// The path is not known yet; the parts collect what has arrived.
    AwaitingPath(AssetParts<B>),
    /// The pathname member has been read: the path under which the asset is written.
    KnownPath(String),
    /// The pathname member could not be read.
    Error,
}

/// The mathematical value of an [`AssetParts`]: each part by the view of its content.
pub struct PartsView<V> {
    pub asset: Option<V>,
    pub metadata: Option<V>,
}

/// The mathematical value of an [`ItemStatus`].
pub enum StatusView<V> {
    AwaitingPath(PartsView<V>),
    KnownPath(Seq<char>),
    Error,
}

/// The view of a content that may be missing.
pub open spec fn content_view<B: View>(content: Option<B>) -> Option<B::V> {
    match content {
        Some(b) => Some(b@),
        None => None,
    }
}

impl<B: View> View for AssetParts<B> {
    type V = PartsView<B::V>;

    open spec fn view(&self) -> PartsView<B::V> {
        PartsView { asset: content_view(self.asset), metadata: content_view(self.metadata) }
    }
}

impl<B: View> View for ItemStatus<B> {
    type V = StatusView<B::V>;

    open spec fn view(&self) -> StatusView<B::V> {
        match self {
            ItemStatus::AwaitingPath(parts) => StatusView::AwaitingPath(parts@),
            ItemStatus::KnownPath(path) => StatusView::KnownPath(path@),
            ItemStatus::Error => StatusView::Error,
        }
    }
}

/// The state in which every identifier starts: no path yet, and no part.
pub open spec fn initial_status<V>() -> StatusView<V> {
    StatusView::AwaitingPath(PartsView { asset: None, metadata: None })
}

/// The state of `id` in `paths`: what the table holds for it, or the initial state.
pub open spec fn status_of<V>(paths: Map<Seq<u8>, StatusView<V>>, id: Seq<u8>) -> StatusView<V> {
    if paths.contains_key(id) {
        paths[id]
    } else {
        initial_status()
    }
}

impl<B> Default for AssetParts<B> {
    fn default() -> (parts: Self)
        ensures
            parts.asset is None,
            parts.metadata is None,
    {
        AssetParts { asset: None, metadata: None }
    }
}

impl<B> Default for ItemStatus<B> {
    fn default() -> (status: Self)
        ensures
            status == ItemStatus::AwaitingPath(AssetParts::<B> { asset: None, metadata: None }),
    {
        ItemStatus::AwaitingPath(AssetParts::default())
    }
}

/// One identifier of the table with its state.
pub struct Slot<B> {
    id: Vec<u8>,
    status: ItemStatus<B>,
}

/// The table of the identifiers seen so far, each with its state.
///
/// The table only grows: an identifier that has been entered stays, whatever its state.
/// The state of an identifier stands in the first slot that names it; no operation adds a
/// second one.
pub struct PathTable<B> {
    slots: Vec<Slot<B>>,
}

/// Whether the slot at `i` is the first one of `id`.
spec fn first_at<B>(slots: Seq<Slot<B>>, i: int, id: Seq<u8>) -> bool {
    &&& 0 <= i < slots.len()
    &&& slots[i].id@ == id
    &&& forall|j: int| 0 <= j < i ==> slots[j].id@ != id
}

/// Whether some slot is the one of `id`.
spec fn holds<B>(slots: Seq<Slot<B>>, id: Seq<u8>) -> bool {
    exists|i: int| first_at(slots, i, id)
}

/// The place of the first slot of `id`.
spec fn place<B>(slots: Seq<Slot<B>>, id: Seq<u8>) -> int {
    choose|i: int| first_at(slots, i, id)
}

/// Whether no identifier stands in two of the slots.
spec fn no_twice<B>(slots: Seq<Slot<B>>) -> bool {
    forall|i: int, j: int| 0 <= i < j < slots.len() ==> slots[i].id@ != slots[j].id@
}

/// The table that the slots stand for.
spec fn table_of<B: View>(slots: Seq<Slot<B>>) -> Map<Seq<u8>, StatusView<B::V>> {
    Map::new(|id: Seq<u8>| holds(slots, id), |id: Seq<u8>| slots[place(slots, id)].status@)
}

/// The first slot of an identifier is the only place that is first for it.
proof fn lemma_place<B>(slots: Seq<Slot<B>>, i: int, id: Seq<u8>)
    requires
        first_at(slots, i, id),
    ensures
        holds(slots, id),
        place(slots, id) == i,
{
    let k = place(slots, id);
    assert(first_at(slots, k, id));
}

/// An identifier that some slot names has a first slot.
proof fn lemma_named_has_first<B>(slots: Seq<Slot<B>>, i: int, id: Seq<u8>)
    requires
        0 <= i < slots.len(),
        slots[i].id@ == id,
    ensures
        holds(slots, id),
        place(slots, id) <= i,
    decreases i,
{
    if exists|j: int| 0 <= j < i && slots[j].id@ == id {
        let j = choose|j: int| 0 <= j < i && slots[j].id@ == id;
        lemma_named_has_first(slots, j, id);
    } else {
        assert(first_at(slots, i, id));
        lemma_place(slots, i, id);
    }
}

/// Slots whose first one of `id` got another state stand for the table with that state for
/// `id`, and with what it held for the others.
proof fn lemma_after_update<B: View>(
    after: Seq<Slot<B>>,
    before: Seq<Slot<B>>,
    i: int,
    id: Seq<u8>,
)
    requires
        first_at(before, i, id),
        after.len() == before.len(),
        forall|j: int| 0 <= j < after.len() ==> after[j].id == before[j].id,
        forall|j: int| 0 <= j < after.len() && j != i ==> after[j].status == before[j].status,
    ensures
        table_of(after) == table_of(before).insert(id, after[i].status@),
        no_twice(before) ==> no_twice(after),
{
    assert(no_twice(before) ==> no_twice(after)) by {
        if no_twice(before) {
            assert forall|h: int, j: int| 0 <= h < j < after.len() implies after[h].id@
                != after[j].id@ by {
                assert(before[h].id@ != before[j].id@);
            }
        }
    }
    let goal = table_of(before).insert(id, after[i].status@);
    assert forall|k: Seq<u8>, j: int| first_at(after, j, k) == first_at(before, j, k) by {}
    assert forall|k: Seq<u8>| holds(after, k) implies holds(before, k) && place(after, k) == place(
        before,
        k,
    ) by {
        let j = place(after, k);
        assert(first_at(before, j, k));
        lemma_place(before, j, k);
    }
    assert forall|k: Seq<u8>| holds(before, k) implies holds(after, k) by {
        let j = place(before, k);
        assert(first_at(after, j, k));
    }
    lemma_place(before, i, id);
    lemma_place(after, i, id);
    assert forall|k: Seq<u8>| #[trigger] table_of(after).contains_key(k) implies table_of(after)[k]
        == goal[k] by {
        let j = place(after, k);
        assert(first_at(after, j, k));
    }
    assert(table_of(after) =~= goal);
}

/// Slots that got one more for an identifier which they did not hold stand for the table with
/// that slot's state for it, and with what it held for the others.
proof fn lemma_after_push<B: View>(before: Seq<Slot<B>>, slot: Slot<B>)
    requires
        !holds(before, slot.id@),
    ensures
        table_of(before.push(slot)) == table_of(before).insert(slot.id@, slot.status@),
        first_at(before.push(slot), before.len() as int, slot.id@),
        no_twice(before) ==> no_twice(before.push(slot)),
{
    let after = before.push(slot);
    let n = before.len() as int;
    let goal = table_of(before).insert(slot.id@, slot.status@);
    assert forall|j: int| 0 <= j < n implies before[j].id@ != slot.id@ by {
        if before[j].id@ == slot.id@ {
            lemma_named_has_first(before, j, slot.id@);
        }
    }
    assert(first_at(after, n, slot.id@));
    lemma_place(after, n, slot.id@);
    assert forall|k: Seq<u8>| k != slot.id@ && holds(before, k) implies holds(after, k) && place(
        after,
        k,
    ) == place(before, k) by {
        let j = place(before, k);
        assert(first_at(before, j, k));
        assert(first_at(after, j, k));
        lemma_place(after, j, k);
    }
    assert forall|k: Seq<u8>| k != slot.id@ && holds(after, k) implies holds(before, k) by {
        let j = place(after, k);
        assert(first_at(after, j, k));
        assert(j < n);
        assert forall|h: int| 0 <= h < j implies before[h].id@ != k by {
            assert(after[h].id@ != k);
        }
        assert(first_at(before, j, k));
    }
    assert(table_of(after) =~= goal);
}

impl<B: View> View for PathTable<B> {
    type V = Map<Seq<u8>, StatusView<B::V>>;

    closed spec fn view(&self) -> Map<Seq<u8>, StatusView<B::V>> {
        table_of(self.slots@)
    }
}

impl<B> PathTable<B> {
    /// Whether every identifier stands in the table once. A table is made so, and stays so.
    pub closed spec fn distinct(&self) -> bool {
        no_twice(self.slots@)
    }
}

impl<B: View> PathTable<B> {
    /// A table with no identifier.
    pub fn new() -> (table: Self)
        ensures
            table@ == Map::<Seq<u8>, StatusView<B::V>>::empty(),
            table.distinct(),
    {
        let table = PathTable { slots: Vec::new() };
        assert(table@ =~= Map::<Seq<u8>, StatusView<B::V>>::empty());
        table
    }

    /// The index of the first slot of `id`, if it has one.
    fn position(&self, id: &[u8]) -> (found: Option<usize>)
        ensures
            match found {
                Some(i) => first_at(self.slots@, i as int, id@) && self@.contains_key(id@),
                None => !holds(self.slots@, id@) && !self@.contains_key(id@),
            },
    {
        let mut i: usize = 0;
        while i < self.slots.len()
            invariant
                i <= self.slots@.len(),
                forall|j: int| 0 <= j < i ==> self.slots@[j].id@ != id@,
            decreases self.slots@.len() - i,
        {
            if crate::member::same_bytes(self.slots[i].id.as_slice(), id) {
                proof {
                    lemma_place(self.slots@, i as int, id@);
                }
                return Some(i);
            }
            i += 1;
        }
        None
    }

    /// The state that the table holds for `id`, if it holds one.
    pub fn get(&self, id: &[u8]) -> (status: Option<&ItemStatus<B>>)
        ensures
            match status {
                Some(s) => self@.contains_key(id@) && s@ == self@[id@],
                None => !self@.contains_key(id@),
            },
    {
        match self.position(id) {
            Some(i) => {
                proof {
                    lemma_place(self.slots@, i as int, id@);
                }
                Some(&self.slots[i].status)
            },
            None => None,
        }
    }

    /// Puts `status` in the place of what the table holds for `id`, and hands back what it
    /// held before, if it held anything.
    pub fn set(&mut self, id: Vec<u8>, status: ItemStatus<B>) -> (previous: Option<ItemStatus<B>>)
        ensures
            final(self)@ == old(self)@.insert(id@, status@),
            match previous {
                Some(p) => old(self)@.contains_key(id@) && p@ == old(self)@[id@],
                None => !old(self)@.contains_key(id@),
            },
            old(self).distinct() ==> final(self).distinct(),
    {
        let ghost before = self.slots@;
        match self.position(id.as_slice()) {
            Some(i) => {
                let mut status = status;
                proof {
                    lemma_place(before, i as int, id@);
                }
                std::mem::swap(&mut self.slots[i].status, &mut status);
                proof {
                    lemma_after_update(self.slots@, before, i as int, id@);
                }
                Some(status)
            },
            None => {
                let slot = Slot { id, status };
                proof {
                    lemma_after_push(before, slot);
                }
                self.slots.push(slot);
                None
            },
        }
    }

    /// The state of `id`, which is entered in its initial state if the table does not hold it.
    pub fn get_or_create(&mut self, id: Vec<u8>) -> (status: &mut ItemStatus<B>)
        ensures
            status@ == status_of(old(self)@, id@),
            final(self)@ == old(self)@.insert(id@, final(status)@),
            old(self).distinct() ==> final(self).distinct(),
    {
        let ghost before = self.slots@;
        let i = match self.position(id.as_slice()) {
            Some(i) => {
                proof {
                    lemma_place(before, i as int, id@);
                }
                i
            },
            None => {
                let slot = Slot { id, status: ItemStatus::default() };
                proof {
                    lemma_after_push(before, slot);
                }
                self.slots.push(slot);
                self.slots.len() - 1
            },
        };
        let ghost entered = self.slots@;
        let status = &mut self.slots[i].status;
        proof {
            lemma_after_update(after_borrow(self.slots)@, entered, i as int, id@);
        }
        status
    }
}

} // verus!
