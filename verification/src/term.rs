//! The rotating session registry.
//!
//! Sessions sit in an ordered cyclic sequence whose front element is the
//! focused one.  Rotation moves the front to the tail (`next`) or the tail
//! to the front (`prev`); both preserve membership and relative cyclic
//! order, and `prev` undoes `next` exactly.

use std::collections::VecDeque;
use vstd::prelude::*;

verus! {

/// One step of forward rotation: the front element moves to the tail.
pub open spec fn rotate_next<T>(s: Seq<T>) -> Seq<T> {
    if s.len() == 0 {
        s
    } else {
        s.subrange(1, s.len() as int) + seq![s[0]]
    }
}

/// One step of backward rotation: the tail element moves to the front.
pub open spec fn rotate_prev<T>(s: Seq<T>) -> Seq<T> {
    if s.len() == 0 {
        s
    } else {
        seq![s[s.len() - 1]] + s.subrange(0, s.len() - 1)
    }
}

/// Rotating forward and then backward restores the original order, and
/// with it the original focus, for any non-empty registry contents.
pub proof fn lemma_rotate_next_prev<T>(s: Seq<T>)
    requires
        s.len() > 0,
    ensures
        rotate_prev(rotate_next(s)) == s,
{
    assert(rotate_prev(rotate_next(s)) =~= s);
}

/// Rotating backward and then forward restores the original order too:
/// the two rotations are exact inverses.
pub proof fn lemma_rotate_prev_next<T>(s: Seq<T>)
    requires
        s.len() > 0,
    ensures
        rotate_next(rotate_prev(s)) == s,
{
    assert(rotate_next(rotate_prev(s)) =~= s);
}

/// k forward rotations in a row.
pub open spec fn rotate_next_n<T>(s: Seq<T>, k: nat) -> Seq<T>
    decreases k,
{
    if k == 0 {
        s
    } else {
        rotate_next_n(rotate_next(s), (k - 1) as nat)
    }
}

/// After k forward rotations of a non-empty registry every element sits
/// k positions earlier, cyclically: the focus is then the element k
/// positions behind the original front, modulo the session count, and
/// membership and relative cyclic order are preserved.
pub proof fn lemma_focus_after_rotations<T>(s: Seq<T>, k: nat)
    requires
        s.len() > 0,
    ensures
        rotate_next_n(s, k).len() == s.len(),
        forall|i: int|
            0 <= i < s.len() ==> rotate_next_n(s, k)[i] == s[(i + k) % (s.len() as int)],
    decreases k,
{
    let n = s.len() as int;
    if k == 0 {
        assert forall|i: int| 0 <= i < n implies rotate_next_n(s, k)[i] == s[(i + k) % n] by {
            vstd::arithmetic::div_mod::lemma_small_mod(i as nat, s.len());
        }
    } else {
        let t = rotate_next(s);
        lemma_focus_after_rotations(t, (k - 1) as nat);
        assert forall|i: int| 0 <= i < n implies rotate_next_n(s, k)[i] == s[(i + k) % n] by {
            assert(rotate_next_n(s, k) == rotate_next_n(t, (k - 1) as nat));
            let j = (i + k - 1) % n;
            vstd::arithmetic::div_mod::lemma_mod_bound(i + k - 1, n);
            assert(rotate_next_n(t, (k - 1) as nat)[i] == t[j]);
            if j < n - 1 {
                vstd::arithmetic::div_mod::lemma_small_mod((j + 1) as nat, s.len());
                assert(t[j] == s[(j + 1) % n]);
            } else {
                assert(t[j] == s[0]);
                assert((j + 1) % n == 0) by {
                    vstd::arithmetic::div_mod::lemma_mod_self_0(n);
                }
            }
            vstd::arithmetic::div_mod::lemma_add_mod_noop_right(1, i + k - 1, n);
        }
    }
}

/// The ordered, rotating collection of sessions; the front element is the
/// one with focus.
pub struct TerminalList<T> {
    elements: VecDeque<T>,
}

impl<T> View for TerminalList<T> {
    type V = Seq<T>;

    closed spec fn view(&self) -> Seq<T> {
        self.elements@
    }
}

/// Relies on VecDeque::front_mut: a mutable reference to the first
/// element of a non-empty deque.
#[verifier::external_body]
fn deque_front_mut<T>(v: &mut VecDeque<T>) -> (r: &mut T)
    requires
        old(v)@.len() > 0,
    ensures
        *r == old(v)@[0],
        final(v)@ == old(v)@.update(0, *final(r)),
{
    v.front_mut().unwrap()
}

impl<T> TerminalList<T> {
    /// An empty registry.
    pub fn new() -> (r: Self)
        ensures
            r@ == Seq::<T>::empty(),
    {
        Self { elements: VecDeque::new() }
    }

    /// The focused session, mutably.  Reading focus from an empty
    /// registry is a programming error, so emptiness is excluded here.
    pub fn get_mut(&mut self) -> (r: &mut T)
        requires
            old(self)@.len() > 0,
        ensures
            *r == old(self)@[0],
            final(self)@ == old(self)@.update(0, *final(r)),
    {
        deque_front_mut(&mut self.elements)
    }

    /// The focused session.  Reading focus from an empty registry is a
    /// programming error, so emptiness is excluded here.
    pub fn get(&mut self) -> (r: &T)
        requires
            old(self)@.len() > 0,
        ensures
            *r == old(self)@[0],
            final(self)@ == old(self)@,
    {
        &self.elements[0]
    }

    /// How many sessions the registry holds.
    pub fn len(&self) -> (r: usize)
        ensures
            r == self@.len(),
    {
        self.elements.len()
    }

    /// Inserts a session at the front: it immediately becomes the focus,
    /// and every existing session keeps its relative order.
    pub fn add(&mut self, b: T)
        ensures
            final(self)@ == seq![b] + old(self)@,
    {
        self.elements.push_front(b);
    }

    /// Moves focus to the successor: the current focus goes to the tail.
    /// No-op on an empty registry.
    pub fn next(&mut self)
        ensures
            final(self)@ == rotate_next(old(self)@),
    {
        if let Some(b) = self.elements.pop_front() {
            self.elements.push_back(b);
        }
        proof {
            assert(self@ =~= rotate_next(old(self)@));
        }
    }

    /// Moves focus to the predecessor: the tail becomes the focus.
    /// No-op on an empty registry.
    pub fn prev(&mut self)
        ensures
            final(self)@ == rotate_prev(old(self)@),
    {
        if let Some(b) = self.elements.pop_back() {
            self.elements.push_front(b);
        }
        proof {
            assert(self@ =~= rotate_prev(old(self)@));
        }
    }
}

} // verus!
