//! A collection that is mostly empty or holds one item.

use vstd::prelude::*;

verus! {

/// No item, one item, or a vector of items. Where most collections are empty
/// or hold a single item this saves the vector.
#[derive(Clone, Debug)]
pub enum Plural<T> {
    Empty,
    One(T),
    Many(Vec<T>),
}

impl<T> View for Plural<T> {
    type V = Seq<T>;

    open spec fn view(&self) -> Seq<T> {
        match self {
            Plural::Empty => Seq::empty(),
            Plural::One(item) => seq![*item],
            Plural::Many(items) => items@,
        }
    }
}

impl<T> Plural<T> {
    /// Walks over the items by reference.
    pub fn iter(&self) -> (r: Iter<'_, T>)
        ensures
            r.remaining() == self@,
    {
        match self {
            Plural::Empty => Iter::Empty,
            Plural::One(item) => Iter::One(Some(item)),
            Plural::Many(items) => {
                assert(items@.skip(0) =~= items@);
                Iter::Many(items, 0)
            },
        }
    }

    /// Walks over the items by value.
    pub fn into_iter(self) -> (r: IntoIter<T>)
        ensures
            r.remaining() == self@,
    {
        match self {
            Plural::Empty => IntoIter::Empty,
            Plural::One(item) => IntoIter::One(Some(item)),
            Plural::Many(items) => {
                let ghost all = items@;
                let mut items = items;
                let mut reversed: Vec<T> = Vec::new();
                while items.len() > 0
                    invariant
                        items.len() <= all.len(),
                        items@ == all.take(items.len() as int),
                        reversed@.reverse() == all.skip(items.len() as int),
                    decreases items.len(),
                {
                    let ghost before = reversed@;
                    let ghost n = items.len();
                    let item = items.pop().unwrap();
                    assert(item == all[n - 1]);
                    reversed.push(item);
                    assert(items@ =~= all.take(items.len() as int));
                    assert(reversed@.reverse() =~= seq![item] + before.reverse());
                    assert(seq![item] + all.skip(n as int) =~= all.skip(n - 1));
                }
                assert(all.skip(0) =~= all);
                IntoIter::Many(reversed)
            },
        }
    }

    /// The items in a vector.
    pub fn into_vec(self) -> (r: Vec<T>)
        ensures
            r@ == self@,
    {
        match self {
            Plural::Empty => Vec::new(),
            Plural::One(item) => {
                let mut items: Vec<T> = Vec::new();
                items.push(item);
                items
            },
            Plural::Many(items) => items,
        }
    }
}

/// A walk over the items of a `Plural` by reference.
pub enum Iter<'a, T> {
    Empty,
    One(Option<&'a T>),
    Many(&'a Vec<T>, usize),
}

impl<'a, T> Iter<'a, T> {
    /// The items that the walk has yet to give.
    pub open spec fn remaining(&self) -> Seq<T> {
        match self {
            Iter::Empty => Seq::empty(),
            Iter::One(Some(item)) => seq![**item],
            Iter::One(None) => Seq::empty(),
            Iter::Many(items, at) => if *at <= items@.len() {
                items@.skip(*at as int)
            } else {
                Seq::empty()
            },
        }
    }

    /// Gives the next item, or none at the end.
    pub fn next(&mut self) -> (r: Option<&'a T>)
        ensures
            old(self).remaining().len() == 0 ==> r is None && final(self).remaining().len() == 0,
            old(self).remaining().len() > 0 ==> (r matches Some(item) && *item == old(self).remaining()[0])
                && final(self).remaining() == old(self).remaining().drop_first(),
    {
        match self {
            Iter::Empty => None,
            Iter::One(slot) => {
                let item = *slot;
                *slot = None;
                proof {
                    if item is Some {
                        assert(seq![*item.unwrap()].drop_first() =~= Seq::<T>::empty());
                    }
                }
                item
            },
            Iter::Many(items, at) => {
                if *at < items.len() {
                    let item = &items[*at];
                    assert(items@.skip(*at as int).drop_first() =~= items@.skip(*at + 1));
                    *at = *at + 1;
                    Some(item)
                } else {
                    None
                }
            },
        }
    }
}

/// A walk over the items of a `Plural` by value.
pub enum IntoIter<T> {
    Empty,
    One(Option<T>),
    /// The items that are left, the next one last.
    Many(Vec<T>),
}

impl<T> IntoIter<T> {
    /// The items that the walk has yet to give.
    pub open spec fn remaining(&self) -> Seq<T> {
        match self {
            IntoIter::Empty => Seq::empty(),
            IntoIter::One(Some(item)) => seq![*item],
            IntoIter::One(None) => Seq::empty(),
            IntoIter::Many(items) => items@.reverse(),
        }
    }

    /// Gives the next item, or none at the end.
    pub fn next(&mut self) -> (r: Option<T>)
        ensures
            old(self).remaining().len() == 0 ==> r is None && final(self).remaining().len() == 0,
            old(self).remaining().len() > 0 ==> r == Some(old(self).remaining()[0])
                && final(self).remaining() == old(self).remaining().drop_first(),
    {
        match self {
            IntoIter::Empty => None,
            IntoIter::One(slot) => {
                let item = slot.take();
                proof {
                    if item is Some {
                        assert(seq![item.unwrap()].drop_first() =~= Seq::<T>::empty());
                    }
                }
                item
            },
            IntoIter::Many(items) => {
                let ghost before = items@;
                let item = items.pop();
                proof {
                    if before.len() > 0 {
                        assert(items@.reverse() =~= before.reverse().drop_first());
                    }
                }
                item
            },
        }
    }
}

} // verus!
