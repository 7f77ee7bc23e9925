use vstd::prelude::*;

verus! {

use crate::plants::PlantInstance;

/// The plants available to the player, with a selection cursor.  The
/// cursor is `None` exactly when the hand is empty; removal uses
/// swap-remove, so the previously last plant takes the removed slot.
#[derive(Debug)]
pub struct Hand {
    pub plants: Vec<PlantInstance>,
    pub index: Option<usize>,
}

/// `post` is `pre` with the selected plant taken out by swap-remove:
/// the last plant fills the freed slot, and the cursor steps back one
/// place (staying at zero, or clearing when the hand empties).
pub open spec fn hand_take_rel(pre: Hand, post: Hand) -> bool {
    match pre.index {
        None => post == pre,
        Some(i) => {
            &&& post.plants@ == pre.plants@.update(i as int, pre.plants@.last()).drop_last()
            &&& post.index == (if pre.plants@.len() == 1 {
                None::<usize>
            } else if i > 0 {
                Some((i - 1) as usize)
            } else {
                Some(0usize)
            })
        },
    }
}

/// `post` is `pre` with `p` appended; an empty cursor resets to the
/// first slot.
pub open spec fn hand_push_rel(pre: Hand, post: Hand, p: PlantInstance) -> bool {
    &&& post.plants@ == pre.plants@.push(p)
    &&& post.index == (if pre.index is None {
        Some(0usize)
    } else {
        pre.index
    })
}

/// Removes and returns the element at `index` by swap-remove — the
/// last element takes the freed slot — or nothing when the index is
/// out of range.
pub fn take<T>(vec: &mut Vec<T>, index: usize) -> (r: Option<T>)
    ensures
        index >= old(vec)@.len() ==> r is None && final(vec)@ == old(vec)@,
        index < old(vec)@.len() ==> (r matches Some(v) && v == old(vec)@[index as int]
            && final(vec)@ == old(vec)@.update(index as int, old(vec)@.last()).drop_last()),
{
    if index >= vec.len() {
        None
    } else {
        Some(vec.swap_remove(index))
    }
}

impl Hand {
    /// The cursor is `None` exactly on an empty hand, and otherwise
    /// points at a plant.
    pub open spec fn wf(self) -> bool {
        match self.index {
            None => self.plants@.len() == 0,
            Some(i) => i < self.plants@.len(),
        }
    }

    /// A hand holding the given plants, with the first one selected.
    pub fn new(plants: Vec<PlantInstance>) -> (h: Hand)
        ensures
            h.wf(),
            h.plants@ == plants@,
            h.index == (if plants@.len() == 0 {
                None::<usize>
            } else {
                Some(0usize)
            }),
    {
        let index = if plants.len() == 0 {
            None
        } else {
            Some(0)
        };
        Hand { plants, index }
    }

    /// Moves the cursor one forward, wrapping past the end; does
    /// nothing on an empty hand.
    pub fn select_next(&mut self)
        requires
            old(self).wf(),
        ensures
            final(self).wf(),
            final(self).plants@ == old(self).plants@,
            old(self).index is None ==> final(self).index is None,
            old(self).index matches Some(i) ==> (final(self).index matches Some(j) && j == (i + 1)
                % old(self).plants@.len() as int),
    {
        match self.index {
            None => {},
            Some(i) => {
                let len = self.plants.len();
                self.index = Some((i + 1) % len);
            },
        }
    }

    /// Moves the cursor one back, wrapping past the start; does
    /// nothing on an empty hand.
    pub fn select_prev(&mut self)
        requires
            old(self).wf(),
        ensures
            final(self).wf(),
            final(self).plants@ == old(self).plants@,
            old(self).index is None ==> final(self).index is None,
            old(self).index matches Some(i) ==> (final(self).index matches Some(j) && j == (i + old(
                self,
            ).plants@.len() as int - 1) % old(self).plants@.len() as int),
    {
        match self.index {
            None => {},
            Some(i) => {
                let len = self.plants.len();
                proof {
                    vstd::arithmetic::div_mod::lemma_mod_add_multiples_vanish(
                        i - 1,
                        len as int,
                    );
                    vstd::arithmetic::div_mod::lemma_small_mod((len - 1) as nat, len as nat);
                    if i > 0 {
                        vstd::arithmetic::div_mod::lemma_small_mod((i - 1) as nat, len as nat);
                    }
                }
                if i == 0 {
                    self.index = Some(len - 1);
                } else {
                    self.index = Some(i - 1);
                }
            },
        }
    }

    /// A copy of the selected plant, or `None` on an empty hand.
    pub fn selected(&self) -> (r: Option<PlantInstance>)
        requires
            self.wf(),
        ensures
            r == (match self.index {
                None => None::<PlantInstance>,
                Some(i) => Some(self.plants@[i as int]),
            }),
    {
        match self.index {
            None => None,
            Some(i) => Some(self.plants[i]),
        }
    }

    /// Removes and returns the selected plant by swap-remove; the
    /// cursor steps back one place.
    pub fn take_selected(&mut self) -> (r: Option<PlantInstance>)
        requires
            old(self).wf(),
        ensures
            final(self).wf(),
            hand_take_rel(*old(self), *final(self)),
            r == (match old(self).index {
                None => None::<PlantInstance>,
                Some(i) => Some(old(self).plants@[i as int]),
            }),
    {
        match self.index {
            None => None,
            Some(i) => {
                let r = take(&mut self.plants, i);
                let len = self.plants.len();
                self.index = if len == 0 {
                    None
                } else if i > 0 {
                    Some(i - 1)
                } else {
                    Some(0)
                };
                r
            },
        }
    }

    /// Appends one plant; an empty cursor resets to the first slot.
    pub fn push(&mut self, p: PlantInstance)
        requires
            old(self).wf(),
        ensures
            final(self).wf(),
            hand_push_rel(*old(self), *final(self), p),
    {
        let was_empty = self.plants.len() == 0;
        self.plants.push(p);
        if was_empty {
            self.index = Some(0);
        }
    }

    /// Appends dropped plants in order, emptying `more`; the current
    /// selection stays, except that an empty cursor resets to the
    /// first slot.
    pub fn append(&mut self, more: &mut Vec<PlantInstance>)
        requires
            old(self).wf(),
        ensures
            final(self).wf(),
            final(self).plants@ == old(self).plants@ + old(more)@,
            final(more)@.len() == 0,
            final(self).index == (if old(self).index is None && final(self).plants@.len() > 0 {
                Some(0usize)
            } else {
                old(self).index
            }),
    {
        let was_empty = self.plants.len() == 0;
        self.plants.append(more);
        if was_empty && self.plants.len() > 0 {
            self.index = Some(0);
        }
    }
}

} // verus!
