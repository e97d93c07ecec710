use vstd::prelude::*;

verus! {

/// A finger on the touch screen: its touch id and where it is.
#[derive(Debug)]
pub struct Finger<P> {
    pub id: u64,
    pub pos: P,
}

/// The fingers on the screen, in the order they touched it.
pub struct UserInputs<P> {
    pub fingers: Vec<Finger<P>>,
}

/// The fingers whose id is not `id`, in their order.
pub open spec fn without_id<P>(s: Seq<Finger<P>>, id: u64) -> Seq<Finger<P>>
    decreases s.len(),
{
    if s.len() == 0 {
        s
    } else if s.last().id == id {
        without_id(s.drop_last(), id)
    } else {
        without_id(s.drop_last(), id).push(s.last())
    }
}

/// The position of the first finger whose id is `id`, or `s.len()` when there is none.
pub open spec fn first_finger<P>(s: Seq<Finger<P>>, id: u64) -> int
    decreases s.len(),
{
    if s.len() == 0 {
        0
    } else if s[0].id == id {
        0
    } else {
        1 + first_finger(s.subrange(1, s.len() as int), id)
    }
}

pub proof fn lemma_first_finger<P>(s: Seq<Finger<P>>, id: u64, i: int)
    requires
        0 <= i <= s.len(),
        i < s.len() ==> s[i].id == id,
        forall|j: int| 0 <= j < i ==> s[j].id != id,
    ensures
        first_finger(s, id) == i,
    decreases s.len(),
{
    if s.len() > 0 && i > 0 {
        let t = s.subrange(1, s.len() as int);
        assert forall|j: int| 0 <= j < i - 1 implies t[j].id != id by {
            assert(t[j] == s[j + 1]);
        }
        if i < s.len() {
            assert(t[i - 1] == s[i]);
        }
        lemma_first_finger(t, id, i - 1);
    }
}

impl<P> Default for UserInputs<P> {
    fn default() -> (r: UserInputs<P>)
        ensures
            r.fingers@.len() == 0,
    {
        UserInputs { fingers: Vec::new() }
    }
}

impl<P> UserInputs<P> {
    /// How many fingers are on the screen.
    pub fn nbr_finger(&self) -> (r: usize)
        ensures
            r == self.fingers@.len(),
    {
        self.fingers.len()
    }

    /// A finger touched the screen.
    pub fn finger_start(&mut self, id: u64, pos: P)
        ensures
            final(self).fingers@ == old(self).fingers@.push(Finger { id, pos }),
    {
        self.fingers.push(Finger { id, pos });
    }

    /// Where the first finger with touch id `id` is in the list, if it is on the screen.
    pub fn position_of(&self, id: u64) -> (r: Option<usize>)
        ensures
            match r {
                Some(i) => i < self.fingers@.len() && i == first_finger(self.fingers@, id),
                None => first_finger(self.fingers@, id) == self.fingers@.len(),
            },
    {
        let mut i: usize = 0;
        while i < self.fingers.len()
            invariant
                0 <= i <= self.fingers@.len(),
                forall|j: int| 0 <= j < i ==> self.fingers@[j].id != id,
            decreases self.fingers@.len() - i,
        {
            if self.fingers[i].id == id {
                proof {
                    lemma_first_finger(self.fingers@, id, i as int);
                }
                return Some(i);
            }
            i = i + 1;
        }
        proof {
            lemma_first_finger(self.fingers@, id, i as int);
        }
        None
    }

    /// The finger at `index` moved to `pos`.
    pub fn set_pos(&mut self, index: usize, pos: P)
        requires
            index < old(self).fingers@.len(),
        ensures
            final(self).fingers@ == old(self).fingers@.update(
                index as int,
                Finger { id: old(self).fingers@[index as int].id, pos },
            ),
    {
        let f = &mut self.fingers[index];
        f.pos = pos;
    }

    /// The fingers with touch id `id` left the screen.
    pub fn finger_end(&mut self, id: u64)
        ensures
            final(self).fingers@ == without_id(old(self).fingers@, id),
    {
        let mut old_fingers: Vec<Finger<P>> = Vec::new();
        std::mem::swap(&mut self.fingers, &mut old_fingers);
        let ghost s = old_fingers@;
        let mut kept: Vec<Finger<P>> = Vec::new();
        for f in it: old_fingers.into_iter()
            invariant
                it.seq() == s,
                kept@ == without_id(s.take(it.index()), id),
        {
            let ghost k = it.index();
            assert(s.take(k + 1).drop_last() =~= s.take(k));
            assert(s.take(k + 1).last() == f);
            if f.id != id {
                kept.push(f);
            }
        }
        assert(s.take(s.len() as int) =~= s);
        self.fingers = kept;
    }
}

/// What a finger's move does to the view.
#[derive(Clone, Copy, Debug, PartialEq, Eq, Structural)]
pub enum Gesture {
    /// The only finger on the screen moves the view.
    Pan,
    /// One of two fingers moves: the view zooms, the finger at `other` staying put.
    Pinch { other: usize },
    /// Three fingers or more: nothing happens.
    Ignore,
}

/// What the move of finger `index` does when `n` fingers are on the screen.
pub open spec fn gesture_for(n: nat, index: nat) -> Gesture {
    if n == 1 {
        Gesture::Pan
    } else if n == 2 {
        Gesture::Pinch { other: (1 - index) as usize }
    } else {
        Gesture::Ignore
    }
}

impl<P> UserInputs<P> {
    /// What the move of the finger at `index` does to the view.
    pub fn gesture(&self, index: usize) -> (r: Gesture)
        requires
            index < self.fingers@.len(),
        ensures
            r == gesture_for(self.fingers@.len(), index as nat),
            r matches Gesture::Pinch { other } ==> other < self.fingers@.len() && other != index,
    {
        let n = self.fingers.len();
        if n == 1 {
            Gesture::Pan
        } else if n == 2 {
            Gesture::Pinch { other: 1 - index }
        } else {
            Gesture::Ignore
        }
    }
}

/// After the fingers with some id leave, none with that id is left, and every other
/// finger is still there.
pub proof fn law_finger_end_removes_id<P>(s: Seq<Finger<P>>, id: u64)
    ensures
        forall|k: int| 0 <= k < without_id(s, id).len() ==> #[trigger] without_id(s, id)[k].id != id,
        forall|j: int| 0 <= j < s.len() && s[j].id != id ==> without_id(s, id).contains(s[j]),
        without_id(s, id).len() <= s.len(),
    decreases s.len(),
{
    if s.len() > 0 {
        let t = s.drop_last();
        law_finger_end_removes_id(t, id);
        let w = without_id(s, id);
        let wt = without_id(t, id);
        assert forall|j: int| 0 <= j < s.len() && s[j].id != id implies w.contains(s[j]) by {
            if j < t.len() {
                assert(t[j] == s[j]);
                let k = choose|k: int| 0 <= k < wt.len() && wt[k] == t[j];
                assert(w[k] == wt[k]);
            } else {
                assert(w[w.len() - 1] == s[j]);
            }
        }
        assert forall|k: int| 0 <= k < w.len() implies #[trigger] w[k].id != id by {
            if k < wt.len() {
                assert(w[k] == wt[k]);
            }
        }
    }
}

} // verus!
