//! Keyboard and wheel handling: which action a key press or a wheel turn
//! asks for, given the modifiers and whether listening is paused.

use vstd::prelude::*;
use crate::text::str_eq;

verus! {

/// The keys the program reacts to; every other key is `Other`.
#[derive(Clone, Copy, Debug, PartialEq, Eq, Structural)]
pub enum Key {
    Kp1,
    Kp2,
    Kp3,
    Kp4,
    Kp5,
    Kp6,
    Kp7,
    Kp8,
    Kp9,
    LeftArrow,
    RightArrow,
    UpArrow,
    DownArrow,
    /// The backquote key toggles listening.
    BackQuote,
    Other,
}

pub open spec fn key_num_spec(key: Key) -> Option<char> {
    match key {
        Key::Kp1 => Some('1'),
        Key::Kp2 => Some('2'),
        Key::Kp3 => Some('3'),
        Key::Kp4 => Some('4'),
        Key::Kp5 => Some('5'),
        Key::Kp6 => Some('6'),
        Key::Kp7 => Some('7'),
        Key::Kp8 => Some('8'),
        Key::Kp9 => Some('9'),
        _ => None,
    }
}

/// The digit of a numeric keypad key.
pub fn key_to_num(key: Key) -> (r: Option<char>)
    ensures
        r == key_num_spec(key),
{
    match key {
        Key::Kp1 => Some('1'),
        Key::Kp2 => Some('2'),
        Key::Kp3 => Some('3'),
        Key::Kp4 => Some('4'),
        Key::Kp5 => Some('5'),
        Key::Kp6 => Some('6'),
        Key::Kp7 => Some('7'),
        Key::Kp8 => Some('8'),
        Key::Kp9 => Some('9'),
        _ => None,
    }
}

/// What a key press asks for.
#[derive(Clone, Copy, Debug, PartialEq, Eq, Structural)]
pub enum KeyAction {
    /// Pause or resume listening.
    TogglePause,
    /// Move the foreground window to keypad cell `digit`.
    Place(char),
    /// Send the foreground window to screen edge `dir` (0 left, 1 right,
    /// 2 top, 3 bottom).
    Edge(u32),
    Nothing,
}

pub open spec fn key_action_spec(key: Key, alt: bool, ctrl: bool, paused: bool) -> KeyAction {
    if key == Key::BackQuote {
        KeyAction::TogglePause
    } else if paused || !(alt && !ctrl) {
        KeyAction::Nothing
    } else {
        match key {
            Key::LeftArrow => KeyAction::Edge(0),
            Key::RightArrow => KeyAction::Edge(1),
            Key::UpArrow => KeyAction::Edge(2),
            Key::DownArrow => KeyAction::Edge(3),
            _ => match key_num_spec(key) {
                Some(d) => KeyAction::Place(d),
                None => KeyAction::Nothing,
            },
        }
    }
}

/// The action of a key press: backquote always toggles listening; while
/// listening, Alt (without Ctrl) with a keypad digit places the foreground
/// window on the 3 x 3 grid and with an arrow sends it to that screen edge.
pub fn key_action(key: Key, alt: bool, ctrl: bool, paused: bool) -> (r: KeyAction)
    ensures
        r == key_action_spec(key, alt, ctrl, paused),
{
    if key == Key::BackQuote {
        return KeyAction::TogglePause;
    }
    if paused {
        return KeyAction::Nothing;
    }
    if alt && !ctrl {
        if let Some(num) = key_to_num(key) {
            return KeyAction::Place(num);
        }
        match key {
            Key::LeftArrow => KeyAction::Edge(0),
            Key::RightArrow => KeyAction::Edge(1),
            Key::UpArrow => KeyAction::Edge(2),
            Key::DownArrow => KeyAction::Edge(3),
            _ => KeyAction::Nothing,
        }
    } else {
        KeyAction::Nothing
    }
}

/// Law: with Alt (and not Ctrl) held while listening, each keypad key is
/// read as the digit printed on it, so the window goes to the grid cell in
/// the key's own position (7 8 9 on top, 1 2 3 at the bottom), and each
/// arrow sends it against the screen edge it points to (0 left, 1 right,
/// 2 top, 3 bottom). No other key places or moves a window.
pub proof fn lemma_keys_read_as_printed()
    ensures
        key_action_spec(Key::Kp1, true, false, false) == KeyAction::Place('1'),
        key_action_spec(Key::Kp2, true, false, false) == KeyAction::Place('2'),
        key_action_spec(Key::Kp3, true, false, false) == KeyAction::Place('3'),
        key_action_spec(Key::Kp4, true, false, false) == KeyAction::Place('4'),
        key_action_spec(Key::Kp5, true, false, false) == KeyAction::Place('5'),
        key_action_spec(Key::Kp6, true, false, false) == KeyAction::Place('6'),
        key_action_spec(Key::Kp7, true, false, false) == KeyAction::Place('7'),
        key_action_spec(Key::Kp8, true, false, false) == KeyAction::Place('8'),
        key_action_spec(Key::Kp9, true, false, false) == KeyAction::Place('9'),
        key_action_spec(Key::LeftArrow, true, false, false) == KeyAction::Edge(0),
        key_action_spec(Key::RightArrow, true, false, false) == KeyAction::Edge(1),
        key_action_spec(Key::UpArrow, true, false, false) == KeyAction::Edge(2),
        key_action_spec(Key::DownArrow, true, false, false) == KeyAction::Edge(3),
        key_action_spec(Key::Other, true, false, false) == KeyAction::Nothing,
        forall|k: Key, alt: bool, ctrl: bool, paused: bool|
            (!alt || ctrl) && k != Key::BackQuote ==> #[trigger] key_action_spec(k, alt, ctrl, paused)
                == KeyAction::Nothing,
        forall|alt: bool, ctrl: bool, paused: bool|
            #[trigger] key_action_spec(Key::BackQuote, alt, ctrl, paused) == KeyAction::TogglePause,
{
}

/// Law: while paused, the only key that does anything is the one that
/// resumes listening.
pub proof fn lemma_paused_keys_inert(key: Key, alt: bool, ctrl: bool)
    requires
        key != Key::BackQuote,
    ensures
        key_action_spec(key, alt, ctrl, true) == KeyAction::Nothing,
{
}

/// Whether a wheel turn scales the foreground window: only while listening
/// and with Alt held.
pub fn wheel_scales(paused: bool, alt: bool) -> (r: bool)
    ensures
        r == (!paused && alt),
{
    !paused && alt
}

// ── Keys held down ──

/// The keys held down, each by its name and each at most once, in the
/// order they were pressed.
pub struct HeldKeys {
    names: Vec<String>,
}

pub open spec fn names_view(names: Seq<String>) -> Seq<Seq<char>> {
    Seq::new(names.len(), |i: int| names[i]@)
}

/// The names after a press of `name`: added unless already held.
pub open spec fn pressed(held: Seq<Seq<char>>, name: Seq<char>) -> Seq<Seq<char>> {
    if held.contains(name) {
        held
    } else {
        held.push(name)
    }
}

impl HeldKeys {
    /// The names of the held keys.
    pub closed spec fn view(&self) -> Seq<Seq<char>> {
        names_view(self.names@)
    }

    /// No key is held twice.
    pub closed spec fn wf(&self) -> bool {
        self.view().no_duplicates()
    }

    /// No key held.
    pub fn new() -> (h: Self)
        ensures
            h.wf(),
            h.view() == Seq::<Seq<char>>::empty(),
    {
        let h = HeldKeys { names: Vec::new() };
        assert(h.view() =~= Seq::<Seq<char>>::empty());
        h
    }

    /// Index of the held key `name`, if it is held.
    fn find(&self, name: &str) -> (r: Option<usize>)
        ensures
            match r {
                Some(i) => i < self.view().len() && self.view()[i as int] == name@,
                None => !self.view().contains(name@),
            },
    {
        let mut i: usize = 0;
        while i < self.names.len()
            invariant
                i <= self.names.len(),
                forall|k: int| 0 <= k < i ==> self.view()[k] != name@,
            decreases self.names.len() - i,
        {
            if str_eq(self.names[i].as_str(), name) {
                return Some(i);
            }
            i = i + 1;
        }
        None
    }

    /// Whether the key `name` is held.
    pub fn contains(&self, name: &str) -> (r: bool)
        ensures
            r == self.view().contains(name@),
    {
        self.find(name).is_some()
    }

    /// Records a press of the key `name` (see `pressed`).
    pub fn press(&mut self, name: &str)
        requires
            old(self).wf(),
        ensures
            final(self).wf(),
            final(self).view() == pressed(old(self).view(), name@),
    {
        if self.find(name).is_none() {
            let ghost before = self.view();
            self.names.push(name.to_owned());
            proof {
                assert(self.view() =~= before.push(name@));
                assert forall|a: int, b: int| 0 <= a < b < self.view().len() implies self.view()[a] != self.view()[b] by {
                    if b == before.len() {
                        assert(before[a] == self.view()[a]);
                    } else {
                        assert(before[a] == self.view()[a] && before[b] == self.view()[b]);
                    }
                }
            }
        }
    }

    /// Records a release of the key `name`: it is no longer held, every other
    /// key stays as it was.
    pub fn release(&mut self, name: &str)
        requires
            old(self).wf(),
        ensures
            final(self).wf(),
            !final(self).view().contains(name@),
            forall|k: Seq<char>| k != name@ ==> (final(self).view().contains(k) <==> old(self).view().contains(k)),
            !old(self).view().contains(name@) ==> final(self).view() == old(self).view(),
    {
        match self.find(name) {
            None => {},
            Some(i) => {
                let ghost before = self.view();
                self.names.remove(i);
                proof {
                    assert(self.view() =~= before.remove(i as int));
                    let after = self.view();
                    assert forall|a: int, b: int| 0 <= a < b < after.len() implies after[a] != after[b] by {
                        let ia = if a < i { a } else { a + 1 };
                        let ib = if b < i { b } else { b + 1 };
                        assert(after[a] == before[ia] && after[b] == before[ib]);
                    }
                    assert forall|k: Seq<char>| k != name@ implies (after.contains(k) <==> before.contains(k)) by {
                        if after.contains(k) {
                            let j = choose|j: int| 0 <= j < after.len() && after[j] == k;
                            let ij = if j < i { j } else { j + 1 };
                            assert(before[ij] == k);
                        }
                        if before.contains(k) {
                            let j = choose|j: int| 0 <= j < before.len() && before[j] == k;
                            assert(j != i);
                            let ja = if j < i { j } else { j - 1 };
                            assert(after[ja] == k);
                        }
                    }
                    if after.contains(name@) {
                        let j = choose|j: int| 0 <= j < after.len() && after[j] == name@;
                        let ij = if j < i { j } else { j + 1 };
                        assert(before[ij] == before[i as int]);
                    }
                }
            },
        }
    }
}

/// A key press: the key is added to the keys held (by its name `name`),
/// then the action of `key` is decided (see `key_action`).
pub fn key_press(held: &mut HeldKeys, name: &str, key: Key, alt: bool, ctrl: bool, paused: bool) -> (r: KeyAction)
    requires
        old(held).wf(),
    ensures
        final(held).wf(),
        final(held).view() == pressed(old(held).view(), name@),
        r == key_action_spec(key, alt, ctrl, paused),
{
    held.press(name);
    key_action(key, alt, ctrl, paused)
}

/// A key release: the key named `name` is no longer held; nothing else
/// happens.
pub fn key_release(held: &mut HeldKeys, name: &str)
    requires
        old(held).wf(),
    ensures
        final(held).wf(),
        !final(held).view().contains(name@),
        forall|k: Seq<char>| k != name@ ==> (final(held).view().contains(k) <==> old(held).view().contains(k)),
{
    held.release(name);
}

} // verus!
