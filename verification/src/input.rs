//! Keyboard state between frames: which keys are held, which were pressed since they were last
//! consumed, and the text typed. Keys are identified by number; the window layer numbers them.
use std::collections::HashSet;
use vstd::prelude::*;

use crate::chars::{char_is_control, is_control, push_char, str_chars};

verus! {

broadcast use vstd::std_specs::hash::group_hash_axioms;

/// The characters of `text` that are not control characters, in order.
pub open spec fn printable(text: Seq<char>) -> Seq<char>
    decreases text.len(),
{
    if text.len() == 0 {
        Seq::empty()
    } else if is_control(text.last()) {
        printable(text.drop_last())
    } else {
        printable(text.drop_last()).push(text.last())
    }
}

/// The step of a movement axis from the keys of its two directions: -1, 0 or 1.
pub open spec fn axis_step(negative: bool, positive: bool) -> int {
    (if positive { 1int } else { 0int }) - (if negative { 1int } else { 0int })
}

#[derive(Debug)]
pub struct InputHandler {
    pressed_keys: HashSet<u32>,
    just_pressed_keys: HashSet<u32>,
    typed_text: String,
}

impl InputHandler {
    /// The keys held down.
    pub closed spec fn pressed(&self) -> Set<u32> {
        self.pressed_keys@
    }

    /// The keys pressed since they were last consumed, and still held.
    pub closed spec fn just_pressed(&self) -> Set<u32> {
        self.just_pressed_keys@
    }

    /// The text typed since it was last taken.
    pub closed spec fn typed(&self) -> Seq<char> {
        self.typed_text@
    }

    /// A key counts as freshly pressed only while it is held.
    pub closed spec fn wf(&self) -> bool {
        self.just_pressed_keys@.subset_of(self.pressed_keys@)
    }

    /// Nothing held, nothing typed.
    pub fn new() -> (h: Self)
        ensures
            h.wf(),
            h.pressed() == Set::<u32>::empty(),
            h.just_pressed() == Set::<u32>::empty(),
            h.typed() == Seq::<char>::empty(),
    {
        InputHandler { pressed_keys: HashSet::new(), just_pressed_keys: HashSet::new(), typed_text: String::new() }
    }

    /// Forgets every key and the typed text.
    pub fn clear(&mut self)
        ensures
            final(self).wf(),
            final(self).pressed() == Set::<u32>::empty(),
            final(self).just_pressed() == Set::<u32>::empty(),
            final(self).typed() == Seq::<char>::empty(),
    {
        self.pressed_keys.clear();
        self.just_pressed_keys.clear();
        self.typed_text = String::new();
    }

    /// A key went down (`pressed`) or up. A key that goes down while not held counts as freshly
    /// pressed; a key that goes up is neither held nor fresh.
    pub fn key_event(&mut self, key: u32, pressed: bool)
        requires
            old(self).wf(),
        ensures
            final(self).wf(),
            final(self).typed() == old(self).typed(),
            pressed ==> final(self).pressed() == old(self).pressed().insert(key) && final(self).just_pressed() == if old(
                self,
            ).pressed().contains(key) {
                old(self).just_pressed()
            } else {
                old(self).just_pressed().insert(key)
            },
            !pressed ==> final(self).pressed() == old(self).pressed().remove(key) && final(self).just_pressed() == old(
                self,
            ).just_pressed().remove(key),
    {
        if pressed {
            if self.pressed_keys.insert(key) {
                self.just_pressed_keys.insert(key);
            }
        } else {
            self.pressed_keys.remove(&key);
            self.just_pressed_keys.remove(&key);
        }
    }

    /// Text arrived with a key press: everything but control characters is kept.
    pub fn text_event(&mut self, text: &str)
        requires
            old(self).wf(),
        ensures
            final(self).wf(),
            final(self).pressed() == old(self).pressed(),
            final(self).just_pressed() == old(self).just_pressed(),
            final(self).typed() == old(self).typed() + printable(text@),
    {
        let chars = str_chars(text);
        let ghost start = self.typed_text@;
        let mut i: usize = 0;
        while i < chars.len()
            invariant
                chars@ == text@,
                i <= chars@.len(),
                self.wf(),
                self.pressed_keys@ == old(self).pressed(),
                self.just_pressed_keys@ == old(self).just_pressed(),
                start == old(self).typed(),
                self.typed_text@ == start + printable(chars@.take(i as int)),
            decreases chars@.len() - i,
        {
            let c = chars[i];
            proof {
                assert(chars@.take(i + 1).drop_last() == chars@.take(i as int));
                assert(chars@.take(i + 1).last() == c);
            }
            if !char_is_control(c) {
                push_char(&mut self.typed_text, c);
                proof {
                    assert(start + printable(chars@.take(i + 1)) == (start + printable(chars@.take(i as int))).push(c));
                }
            }
            i = i + 1;
        }
        assert(chars@.take(chars@.len() as int) == chars@);
    }

    /// Whether `key` was pressed since it was last consumed; it is consumed now.
    pub fn consume_key_press(&mut self, key: u32) -> (fresh: bool)
        requires
            old(self).wf(),
        ensures
            final(self).wf(),
            fresh == old(self).just_pressed().contains(key),
            final(self).just_pressed() == old(self).just_pressed().remove(key),
            final(self).pressed() == old(self).pressed(),
            final(self).typed() == old(self).typed(),
    {
        self.just_pressed_keys.remove(&key)
    }

    pub fn is_key_pressed(&self, key: u32) -> (held: bool)
        ensures
            held == self.pressed().contains(key),
    {
        self.pressed_keys.contains(&key)
    }

    /// The direction the movement keys ask for, before normalising: (sideways, forwards), each
    /// -1, 0 or 1; forwards is negative, as the camera looks down its negative axis.
    pub fn movement_axis(&self, forward: u32, back: u32, left: u32, right: u32) -> (axis: (i32, i32))
        ensures
            axis.0 == axis_step(self.pressed().contains(left), self.pressed().contains(right)),
            axis.1 == axis_step(self.pressed().contains(forward), self.pressed().contains(back)),
    {
        let x = (if self.pressed_keys.contains(&right) { 1i32 } else { 0i32 }) - (if self.pressed_keys.contains(&left) {
            1i32
        } else {
            0i32
        });
        let z = (if self.pressed_keys.contains(&back) { 1i32 } else { 0i32 }) - (if self.pressed_keys.contains(&forward) {
            1i32
        } else {
            0i32
        });
        (x, z)
    }

    /// Hands out the typed text and forgets it.
    pub fn take_typed_text(&mut self) -> (text: String)
        requires
            old(self).wf(),
        ensures
            final(self).wf(),
            text@ == old(self).typed(),
            final(self).typed() == Seq::<char>::empty(),
            final(self).pressed() == old(self).pressed(),
            final(self).just_pressed() == old(self).just_pressed(),
    {
        let mut text = String::new();
        std::mem::swap(&mut text, &mut self.typed_text);
        text
    }
}

/// A key press is reported once: after it was consumed, consuming it again reports nothing until
/// the key goes up and down again.
pub proof fn law_key_press_consumed_once(just_pressed: Set<u32>, key: u32)
    ensures
        !just_pressed.remove(key).contains(key),
{
}

} // verus!
