//! What the monitor tells about the watched threads.

use std::sync::Arc;
use std::time::Duration;

use vstd::prelude::*;

verus! {

/// How often a thread was seen in each state over a span of time.
///
/// `interval` is the length of the span; `measures` is the number of samples taken in it.
#[derive(Debug, Clone, Copy)]
pub struct ThreadInfo {
    pub payload: usize,
    pub idle: usize,
    pub wait: usize,
    pub measures: usize,
    pub interval: Duration,
}

/// The report on one thread.
#[derive(Debug, Clone)]
pub struct ThreadInfoItem {
    name: Arc<String>,
    info: ThreadInfo,
}

/// A report, with the name as a sequence of characters.
pub struct ItemModel {
    pub name: Seq<char>,
    pub info: ThreadInfo,
}

impl View for ThreadInfoItem {
    type V = ItemModel;

    closed spec fn view(&self) -> ItemModel {
        ItemModel { name: self.name@, info: self.info }
    }
}

impl ThreadInfoItem {
    /// The thread's name.
    pub fn name(&self) -> (name: &str)
        ensures
            name@ == self@.name,
    {
        self.name.as_str()
    }

    /// What was seen of the thread.
    pub fn info(&self) -> (info: ThreadInfo)
        ensures
            info == self@.info,
    {
        self.info
    }
}

/// What the items say, in the order of the items.
pub open spec fn models(items: Seq<ThreadInfoItem>) -> Seq<ItemModel> {
    items.map_values(|item: ThreadInfoItem| item@)
}

/// What the items in the occupied slots say, in the order of the slots.
pub open spec fn occupied(slots: Seq<Option<ThreadInfoItem>>) -> Seq<ItemModel>
    decreases slots.len(),
{
    if slots.len() == 0 {
        Seq::empty()
    } else {
        match slots.last() {
            Some(item) => occupied(slots.drop_last()).push(item@),
            None => occupied(slots.drop_last()),
        }
    }
}

/// The items themselves, in a fixed number of slots or in a vector.
pub enum ThreadInfoIteratorInner {
    Static([Option<ThreadInfoItem>; 16]),
    Vec(Vec<ThreadInfoItem>),
}

impl ThreadInfoIteratorInner {
    /// The items in the order in which they were filed.
    pub open spec fn filed(&self) -> Seq<ItemModel> {
        match self {
            ThreadInfoIteratorInner::Static(slots) => occupied(slots@),
            ThreadInfoIteratorInner::Vec(items) => models(items@),
        }
    }

    /// The items in the order in which they will be handed out: slots from the first, a vector
    /// from the last.
    pub open spec fn queued(&self) -> Seq<ItemModel> {
        match self {
            ThreadInfoIteratorInner::Static(slots) => occupied(slots@),
            ThreadInfoIteratorInner::Vec(items) => models(items@).reverse(),
        }
    }

    /// Room for `sz` items: a vector for up to sixteen, and empty slots beyond that.
    pub fn new(sz: usize) -> (inner: ThreadInfoIteratorInner)
        ensures
            inner.filed() == Seq::<ItemModel>::empty(),
            inner is Static <==> sz > 16,
    {
        if sz > 16 {
            let slots = [
                None,
                None,
                None,
                None,
                None,
                None,
                None,
                None,
                None,
                None,
                None,
                None,
                None,
                None,
                None,
                None,
            ];
            proof {
                lemma_vacant(slots@);
            }
            ThreadInfoIteratorInner::Static(slots)
        } else {
            ThreadInfoIteratorInner::Vec(Vec::with_capacity(sz))
        }
    }

    /// Files one more item. Slots give way to a vector, which takes over what they held.
    pub fn push(&mut self, name: Arc<String>, info: ThreadInfo)
        ensures
            *final(self) is Vec,
            final(self).filed() == old(self).filed().push(ItemModel { name: name@, info }),
    {
        let item = ThreadInfoItem { name, info };
        match self {
            ThreadInfoIteratorInner::Static(slots) => {
                let ghost held = slots@;
                let mut v: Vec<ThreadInfoItem> = Vec::with_capacity(32);
                let mut i: usize = 0;
                while i < 16
                    invariant
                        i <= 16,
                        held.len() == 16,
                        forall|j: int| i <= j < 16 ==> slots@[j] == held[j],
                        models(v@) == occupied(held.take(i as int)),
                    decreases 16 - i,
                {
                    if let Some(it) = slots[i].take() {
                        v.push(it);
                    }
                    assert(held.take(i + 1).drop_last() =~= held.take(i as int));
                    i += 1;
                }
                assert(held.take(16) =~= held);
                v.push(item);
                *self = ThreadInfoIteratorInner::Vec(v);
            },
            ThreadInfoIteratorInner::Vec(v) => v.push(item),
        }
    }

    /// Hands out the next item.
    #[verifier::loop_isolation(false)]
    pub fn next(&mut self) -> (r: Option<ThreadInfoItem>)
        ensures
            *final(self) is Static <==> *old(self) is Static,
            match r {
                Some(item) => old(self).queued().len() > 0 && item@ == old(self).queued().first()
                    && final(self).queued() == old(self).queued().drop_first(),
                None => old(self).queued().len() == 0 && final(self).queued().len() == 0,
            },
            match *old(self) {
                ThreadInfoIteratorInner::Static(slots) => match r {
                    Some(item) => exists|i: int|
                        0 <= i < 16 && #[trigger] slots@[i] == Some(item) && (forall|j: int|
                            0 <= j < i ==> slots@[j] is None) && final(self)->Static_0@
                            == slots@.update(i, None),
                    None => forall|j: int| 0 <= j < 16 ==> slots@[j] is None,
                },
                ThreadInfoIteratorInner::Vec(items) => match r {
                    Some(item) => items@ == final(self)->Vec_0@.push(item),
                    None => items@.len() == 0 && final(self)->Vec_0@.len() == 0,
                },
            },
    {
        match self {
            ThreadInfoIteratorInner::Static(slots) => {
                let ghost held = slots@;
                let mut i: usize = 0;
                while i < 16
                    invariant
                        i <= 16,
                        slots@ == held,
                        forall|j: int| 0 <= j < i ==> held[j] is None,
                    decreases 16 - i,
                {
                    let r = slots[i].take();
                    if r.is_some() {
                        proof {
                            lemma_first_occupied(held, i as int);
                        }
                        return r;
                    }
                    i += 1;
                }
                proof {
                    lemma_vacant(held);
                }
                None
            },
            ThreadInfoIteratorInner::Vec(v) => v.pop(),
        }
    }
}

/// The reports on the watched threads, to be taken one by one.
pub struct ThreadInfoIterator {
    data: ThreadInfoIteratorInner,
}

impl View for ThreadInfoIterator {
    type V = Seq<ItemModel>;

    /// The reports that are left, in the order in which they will come.
    closed spec fn view(&self) -> Seq<ItemModel> {
        self.data.queued()
    }
}

impl ThreadInfoIterator {
    /// Reports from `data`.
    pub fn new(data: ThreadInfoIteratorInner) -> (iter: ThreadInfoIterator)
        ensures
            iter@ == data.queued(),
    {
        ThreadInfoIterator { data }
    }

    /// The next report, or `None` once all have been taken.
    pub fn next(&mut self) -> (r: Option<ThreadInfoItem>)
        ensures
            match r {
                Some(item) => old(self)@.len() > 0 && item@ == old(self)@.first() && final(self)@
                    == old(self)@.drop_first(),
                None => old(self)@.len() == 0 && final(self)@.len() == 0,
            },
    {
        self.data.next()
    }
}

/// What is filed and what is handed out are the items themselves: those in the occupied slots, in
/// the order of the slots, and those in the vector, handed out from its end.
pub proof fn law_all_items_are_filed_and_queued(inner: ThreadInfoIteratorInner)
    ensures
        match inner {
            ThreadInfoIteratorInner::Static(slots) => {
                let items = slots@.filter(|slot: Option<ThreadInfoItem>| slot is Some).map_values(
                    |slot: Option<ThreadInfoItem>| slot->0@,
                );
                inner.filed() == items && inner.queued() == items
            },
            ThreadInfoIteratorInner::Vec(items) => {
                &&& inner.filed().len() == items@.len()
                &&& inner.queued().len() == items@.len()
                &&& forall|i: int|
                    0 <= i < items@.len() ==> {
                        &&& #[trigger] inner.filed()[i] == items@[i]@
                        &&& inner.queued()[items@.len() - 1 - i] == items@[i]@
                    }
            },
        },
{
    if let ThreadInfoIteratorInner::Static(slots) = inner {
        lemma_occupied(slots@);
    }
}

/// The occupied slots are those that are left when the vacant ones are passed over.
proof fn lemma_occupied(slots: Seq<Option<ThreadInfoItem>>)
    ensures
        occupied(slots) == slots.filter(
            |slot: Option<ThreadInfoItem>| slot is Some,
        ).map_values(|slot: Option<ThreadInfoItem>| slot->0@),
    decreases slots.len(),
{
    reveal(Seq::filter);
    if slots.len() > 0 {
        lemma_occupied(slots.drop_last());
    }
}

/// Whatever room was made for them, the items that were filed come out last first. (Before the
/// first item is filed there is nothing to come out.)
pub proof fn law_last_filed_comes_first(inner: ThreadInfoIteratorInner)
    requires
        inner is Vec || inner.filed().len() == 0,
    ensures
        inner.queued() == inner.filed().reverse(),
{
}

/// Slots that hold nothing have no items.
proof fn lemma_vacant(slots: Seq<Option<ThreadInfoItem>>)
    requires
        forall|j: int| 0 <= j < slots.len() ==> slots[j] is None,
    ensures
        occupied(slots) == Seq::<ItemModel>::empty(),
    decreases slots.len(),
{
    if slots.len() > 0 {
        lemma_vacant(slots.drop_last());
    }
}

/// The first occupied slot holds the first item, and emptying it leaves the others.
proof fn lemma_first_occupied(slots: Seq<Option<ThreadInfoItem>>, i: int)
    requires
        0 <= i < slots.len(),
        slots[i] is Some,
        forall|j: int| 0 <= j < i ==> slots[j] is None,
    ensures
        occupied(slots).len() > 0,
        occupied(slots).first() == slots[i]->0@,
        occupied(slots.update(i, None)) == occupied(slots).drop_first(),
    decreases slots.len(),
{
    let rest = slots.drop_last();
    if i == slots.len() - 1 {
        lemma_vacant(rest);
        assert(slots.update(i, None).drop_last() =~= rest);
    } else {
        lemma_first_occupied(rest, i);
        assert(slots.update(i, None).drop_last() =~= rest.update(i, None));
    }
}

} // verus!
