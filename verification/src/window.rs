//! A bounded rolling window: the newest items of a stream, and never more than a fixed
//! number of them.

use vstd::prelude::*;

use std::collections::VecDeque;

verus! {

/// The last items pushed, oldest first, at most a fixed number of them.
#[derive(Debug)]
pub struct RollingWindow<T> {
    items: VecDeque<T>,
    cap: usize,
}

/// Do `n` items of type `T` fit into one allocation?
pub open spec fn fits_memory<T>(n: int) -> bool {
    n * vstd::layout::size_of::<T>() <= isize::MAX
}

/// The window of `cap` items after `item` is pushed onto `items`.
pub open spec fn rolled<T>(items: Seq<T>, cap: int, item: T) -> Seq<T> {
    if items.len() < cap {
        items.push(item)
    } else {
        items.push(item).drop_first()
    }
}

/// The window of `cap` items after each of `pushed` is pushed onto `items` in turn.
pub open spec fn rolled_each<T>(items: Seq<T>, cap: int, pushed: Seq<T>) -> Seq<T>
    decreases pushed.len(),
{
    if pushed.len() == 0 {
        items
    } else {
        rolled(rolled_each(items, cap, pushed.drop_last()), cap, pushed.last())
    }
}

/// The last `n` items of `items`, or all of them if they are fewer.
pub open spec fn newest<T>(items: Seq<T>, n: int) -> Seq<T> {
    if items.len() <= n {
        items
    } else {
        items.skip(items.len() - n)
    }
}

impl<T> View for RollingWindow<T> {
    type V = Seq<T>;

    closed spec fn view(&self) -> Seq<T> {
        self.items@
    }
}

impl<T> RollingWindow<T> {
    /// The most items that the window holds.
    pub closed spec fn limit(&self) -> int {
        self.cap as int
    }

    #[verifier::type_invariant]
    spec fn well_formed(&self) -> bool {
        &&& self.cap >= 1
        &&& fits_memory::<T>(self.cap as int)
        &&& self.items@.len() <= self.cap
    }

    /// An empty window of at most `cap` items, with room for all of them.
    pub fn new(cap: usize) -> (window: RollingWindow<T>)
        requires
            cap >= 1,
            fits_memory::<T>(cap as int),
        ensures
            window@ == Seq::<T>::empty(),
            window.limit() == cap,
    {
        RollingWindow { items: VecDeque::with_capacity(cap), cap }
    }

    /// An empty window with the limit of this one, without room for items yet. It stands in
    /// for a window that is taken out of its place.
    pub(crate) fn stand_in(&self) -> (window: RollingWindow<T>)
        ensures
            window@ == Seq::<T>::empty(),
            window.limit() == self.limit(),
    {
        proof {
            use_type_invariant(self);
        }
        RollingWindow { items: VecDeque::new(), cap: self.cap }
    }

    /// Push `item`; the oldest item leaves, and is returned, if the window was full.
    pub fn push(&mut self, item: T) -> (evicted: Option<T>)
        ensures
            final(self)@ == rolled(old(self)@, old(self).limit(), item),
            evicted == (if old(self)@.len() < old(self).limit() {
                None
            } else {
                Some(old(self)@[0])
            }),
            final(self)@.len() <= final(self).limit(),
            final(self).limit() == old(self).limit(),
    {
        proof {
            use_type_invariant(&*self);
        }
        let ghost before = self@;
        let mut items: VecDeque<T> = VecDeque::new();
        std::mem::swap(&mut items, &mut self.items);
        let mut evicted: Option<T> = None;
        if items.len() >= self.cap {
            evicted = items.pop_front();
        }
        items.push_back(item);
        self.items = items;
        assert(self@ =~= rolled(before, self.limit(), item));
        evicted
    }

    /// Take out the oldest item, or `None` if there is none.
    pub fn pop(&mut self) -> (item: Option<T>)
        ensures
            old(self)@.len() == 0 ==> item is None && final(self)@ == old(self)@,
            old(self)@.len() > 0 ==> item == Some(old(self)@[0])
                && final(self)@ == old(self)@.drop_first(),
            final(self).limit() == old(self).limit(),
    {
        proof {
            use_type_invariant(&*self);
        }
        let ghost before = self@;
        let mut items: VecDeque<T> = VecDeque::new();
        std::mem::swap(&mut items, &mut self.items);
        let item = items.pop_front();
        self.items = items;
        assert(before.len() > 0 ==> self@ =~= before.drop_first());
        item
    }

    /// Number of items held.
    pub fn len(&self) -> (n: usize)
        ensures
            n == self@.len(),
            n <= self.limit() <= usize::MAX,
    {
        proof {
            use_type_invariant(self);
        }
        self.items.len()
    }

    /// The item that was pushed `back` items before the newest one.
    pub fn recent(&self, back: usize) -> (item: Option<&T>)
        ensures
            item == (if back < self@.len() {
                Some(&self@[self@.len() - 1 - back])
            } else {
                None
            }),
    {
        let n: usize = self.items.len();
        if back < n {
            Some(&self.items[n - 1 - back])
        } else {
            None
        }
    }
}

impl<T: Copy> Clone for RollingWindow<T> {
    fn clone(&self) -> (copy: Self)
        ensures
            copy@ == self@,
            copy.limit() == self.limit(),
    {
        proof {
            use_type_invariant(self);
        }
        let mut items: VecDeque<T> = VecDeque::with_capacity(self.cap);
        for i in 0..self.items.len()
            invariant
                items@ == self.items@.take(i as int),
        {
            items.push_back(self.items[i]);
            assert(items@ =~= self.items@.take(i + 1));
        }
        assert(self.items@.take(self.items@.len() as int) =~= self.items@);
        RollingWindow { items, cap: self.cap }
    }
}

/// However much is pushed, the window holds the newest items of the stream, in order.
pub proof fn law_window_holds_newest<T>(items: Seq<T>, cap: int, pushed: Seq<T>)
    requires
        1 <= cap,
        items.len() <= cap,
    ensures
        rolled_each(items, cap, pushed) == newest(items + pushed, cap),
        rolled_each(items, cap, pushed).len() <= cap,
    decreases pushed.len(),
{
    if pushed.len() == 0 {
        assert(items + pushed =~= items);
    } else {
        let init = pushed.drop_last();
        law_window_holds_newest(items, cap, init);
        let all = items + init;
        assert(items + pushed =~= all.push(pushed.last()));
        assert(rolled(newest(all, cap), cap, pushed.last()) =~= newest(all.push(pushed.last()), cap));
    }
}

/// One push onto a window puts the item last; all others stay, but the oldest leaves if the
/// window was full.
pub proof fn law_push_moves_the_window<T>(items: Seq<T>, cap: int, item: T)
    requires
        1 <= cap,
        items.len() <= cap,
    ensures
        rolled(items, cap, item).last() == item,
        items.len() < cap ==> rolled(items, cap, item).drop_last() == items,
        items.len() == cap ==> rolled(items, cap, item).drop_last() == items.drop_first(),
{
    assert(rolled(items, cap, item).drop_last() =~= (if items.len() < cap {
        items
    } else {
        items.drop_first()
    }));
}

/// The newest items are the last ones of the stream: as many as asked for, or all there are.
pub proof fn law_newest_are_the_last<T>(items: Seq<T>, n: int)
    requires
        0 <= n,
    ensures
        ({
            let last = newest(items, n);
            &&& last.len() <= items.len()
            &&& last.len() <= n
            &&& last.len() == items.len() || last.len() == n
            &&& forall|back: int|
                1 <= back <= last.len() ==> #[trigger] last[last.len() - back]
                    == items[items.len() - back]
        }),
{
}

/// Nothing is lost unseen: what was in the window and the pushed item are what is in it then and
/// what it gave back.
pub proof fn law_push_gives_back_what_leaves<T>(
    window: &mut RollingWindow<T>,
    item: T,
    evicted: Option<T>,
)
    requires
        call_ensures(RollingWindow::<T>::push, (window, item), evicted),
        1 <= old(window).limit(),
        old(window)@.len() <= old(window).limit(),
    ensures
        evicted is None ==> old(window)@.push(item) == final(window)@,
        evicted is Some ==> old(window)@.push(item) == seq![evicted->Some_0] + final(window)@,
        evicted is Some <==> old(window)@.len() == old(window).limit(),
{
    if evicted is Some {
        assert(old(window)@.push(item) =~= seq![evicted->Some_0] + final(window)@);
    }
}

/// What is taken out of a window was the oldest item, and the others stay in order.
pub proof fn law_pop_takes_the_oldest<T>(window: &mut RollingWindow<T>, item: Option<T>)
    requires
        call_ensures(RollingWindow::<T>::pop, (window,), item),
    ensures
        item is None <==> old(window)@.len() == 0,
        item is None ==> final(window)@ == old(window)@,
        item is Some ==> old(window)@ == seq![item->Some_0] + final(window)@,
{
    if item is Some {
        assert(old(window)@ =~= seq![item->Some_0] + final(window)@);
    }
}

} // verus!
