use vstd::prelude::*;

use crate::text_util::{decimal, push_decimal, push_str_chars, string_from_chars};

verus! {

/// Keyboard target selection while aiming: the targets in view (entities by
/// their bits, nearest first), the selected one, and whether the keyboard
/// rather than the mouse picks the aim point.
pub struct TargetCycling {
    pub targets: Vec<u64>,
    pub current_index: Option<usize>,
    pub keyboard_focus: bool,
}

/// The selection after cycling forward through `len` targets.
pub open spec fn next_index(idx: Option<usize>, len: int) -> Option<int> {
    match idx {
        None => Some(0),
        Some(i) => Some((i + 1) % len),
    }
}

/// The selection after cycling backward through `len` targets.
pub open spec fn previous_index(idx: Option<usize>, len: int) -> Option<int> {
    match idx {
        None => Some(0),
        Some(i) => if i == 0 {
            Some(len - 1)
        } else {
            Some(i - 1)
        },
    }
}

pub open spec fn opt_int(o: Option<usize>) -> Option<int> {
    match o {
        Some(i) => Some(i as int),
        None => None,
    }
}

/// Position of the first occurrence of `e` in `s`.
pub open spec fn first_position(s: Seq<u64>, e: u64) -> Option<int>
    decreases s.len(),
{
    if s.len() == 0 {
        None
    } else if s[0] == e {
        Some(0)
    } else {
        match first_position(s.drop_first(), e) {
            Some(k) => Some(k + 1),
            None => None,
        }
    }
}

/// The selected target, if the selection points into the list.
pub open spec fn selected_target(targets: Seq<u64>, idx: Option<usize>) -> Option<u64> {
    match idx {
        Some(i) => if i < targets.len() {
            Some(targets[i as int])
        } else {
            None
        },
        None => None,
    }
}

/// The selection after the target list is rebuilt: the previously selected
/// target keeps the selection wherever it now is; if it is gone, keyboard
/// aiming moves to the nearest target; a selection that pointed past the old
/// list is reset if it also points past the new one.
pub open spec fn index_after_refresh(
    old_targets: Seq<u64>,
    idx: Option<usize>,
    keyboard_focus: bool,
    new_targets: Seq<u64>,
) -> Option<int> {
    match selected_target(old_targets, idx) {
        Some(prev) => match first_position(new_targets, prev) {
            Some(k) => Some(k),
            None => if keyboard_focus {
                if new_targets.len() == 0 { None } else { Some(0) }
            } else {
                opt_int(idx)
            },
        },
        None => match idx {
            Some(i) => if i >= new_targets.len() {
                if new_targets.len() == 0 { None } else { Some(0) }
            } else {
                Some(i as int)
            },
            None => None,
        },
    }
}

fn find_first(s: &Vec<u64>, e: u64) -> (r: Option<usize>)
    ensures
        opt_int(r) == first_position(s@, e),
{
    let mut i: usize = s.len();
    let mut found: Option<usize> = None;
    while i > 0
        invariant
            0 <= i <= s.len(),
            opt_int(found) == match first_position(s@.subrange(i as int, s@.len() as int), e) {
                Some(k) => Some(k + i),
                None => None,
            },
        decreases i,
    {
        i = i - 1;
        let ghost tail = s@.subrange(i as int, s@.len() as int);
        assert(tail.drop_first() =~= s@.subrange(i + 1, s@.len() as int));
        if s[i] == e {
            found = Some(i);
        }
    }
    assert(s@.subrange(0, s@.len() as int) =~= s@);
    found
}

/// One frame of aiming input takes `before` to `after`: TAB cycles forward
/// and Shift+TAB backward through the targets, switching to keyboard aiming;
/// with no targets TAB changes nothing; moving the mouse while aiming by
/// keyboard drops the selection; the targets stay.
pub open spec fn cycling_step(
    before: TargetCycling,
    after: TargetCycling,
    tab_pressed: bool,
    shift_down: bool,
    mouse_moved: bool,
) -> bool {
    let len = before.targets@.len() as int;
    &&& after.targets@ == before.targets@
    &&& if tab_pressed {
        if len > 0 {
            &&& after.keyboard_focus
            &&& opt_int(after.current_index) == if shift_down {
                previous_index(before.current_index, len)
            } else {
                next_index(before.current_index, len)
            }
        } else {
            &&& after.keyboard_focus == before.keyboard_focus
            &&& after.current_index == before.current_index
        }
    } else if mouse_moved && before.keyboard_focus {
        &&& !after.keyboard_focus
        &&& after.current_index is None
    } else {
        &&& after.keyboard_focus == before.keyboard_focus
        &&& after.current_index == before.current_index
    }
}

/// TAB selects the next target and Shift+TAB the previous one, wrapping
/// around the list: from the `i`-th of the targets, TAB selects target
/// `(i + 1) % len` and Shift+TAB target `i - 1`, or the last from the first.
pub proof fn lemma_cycling_moves_one(t0: TargetCycling, t1: TargetCycling, shift: bool, mouse: bool, i: usize)
    requires
        t0.current_index == Some(i),
        i < t0.targets@.len(),
        cycling_step(t0, t1, true, shift, mouse),
    ensures
        t1.keyboard_focus,
        t1.targets@ == t0.targets@,
        shift ==> t1.current_index == Some(if i == 0 { (t0.targets@.len() - 1) as usize } else { (i - 1) as usize }),
        !shift ==> t1.current_index == Some(((i + 1) % (t0.targets@.len() as int)) as usize),
        shift ==> selected_target(t1.targets@, t1.current_index) == Some(
            t0.targets@[if i == 0 { t0.targets@.len() - 1 } else { i - 1 }],
        ),
        !shift ==> selected_target(t1.targets@, t1.current_index) == Some(
            t0.targets@[(i + 1) % (t0.targets@.len() as int)],
        ),
{
    let len = t0.targets@.len() as int;
    lemma_cycling_stays_in_range(i as int, len);
}

/// Cycling backward undoes cycling forward and the other way round: TAB
/// after Shift+TAB, or Shift+TAB after TAB, comes back to the target that
/// was selected.
pub proof fn lemma_cycling_round_trip(
    t0: TargetCycling,
    t1: TargetCycling,
    t2: TargetCycling,
    shift_first: bool,
    mouse1: bool,
    mouse2: bool,
    i: usize,
)
    requires
        t0.current_index == Some(i),
        i < t0.targets@.len(),
        cycling_step(t0, t1, true, shift_first, mouse1),
        cycling_step(t1, t2, true, !shift_first, mouse2),
    ensures
        t2.current_index == t0.current_index,
        selected_target(t2.targets@, t2.current_index) == selected_target(t0.targets@, t0.current_index),
        t1.current_index != t0.current_index || t0.targets@.len() == 1,
{
    let len = t0.targets@.len() as int;
    lemma_cycling_moves_one(t0, t1, shift_first, mouse1, i);
    lemma_cycling_stays_in_range(i as int, len);
    let j = t1.current_index->0;
    lemma_cycling_stays_in_range(j as int, len);
    if len > 1 {
        if shift_first {
            assert(j != i);
        } else {
            assert((i + 1) % len != i) by (nonlinear_arith)
                requires 0 <= i < len, len > 1;
        }
    }
}

/// With nothing selected, TAB and Shift+TAB both select the first (nearest)
/// target; moving the mouse while aiming by keyboard, without TAB, drops the
/// selection and returns the aim to the mouse.
pub proof fn lemma_cycling_start_and_release(t0: TargetCycling, t1: TargetCycling, tab: bool, shift: bool, mouse: bool)
    requires
        cycling_step(t0, t1, tab, shift, mouse),
    ensures
        tab && t0.current_index is None && t0.targets@.len() > 0 ==> t1.current_index == Some(0usize)
            && selected_target(t1.targets@, t1.current_index) == Some(t0.targets@[0]),
        !tab && mouse && t0.keyboard_focus ==> t1.current_index is None && !t1.keyboard_focus,
        !tab && !(mouse && t0.keyboard_focus) ==> t1.current_index == t0.current_index
            && t1.keyboard_focus == t0.keyboard_focus,
{
}

proof fn lemma_first_position(s: Seq<u64>, e: u64)
    ensures
        s.contains(e) ==> (first_position(s, e) matches Some(k) && 0 <= k < s.len() && s[k] == e
            && forall|j: int| 0 <= j < k ==> s[j] != e),
        !s.contains(e) ==> first_position(s, e) is None,
    decreases s.len(),
{
    if s.len() > 0 {
        let t = s.drop_first();
        lemma_first_position(t, e);
        if s[0] != e {
            if s.contains(e) {
                let i = choose|i: int| 0 <= i < s.len() && s[i] == e;
                assert(t[i - 1] == e);
                assert(t.contains(e));
                let k = first_position(t, e)->0;
                assert forall|j: int| 0 <= j < k + 1 implies s[j] != e by {
                    if j > 0 {
                        assert(s[j] == t[j - 1]);
                    }
                }
            } else {
                if t.contains(e) {
                    let i = choose|i: int| 0 <= i < t.len() && t[i] == e;
                    assert(s[i + 1] == e);
                }
            }
        } else {
            assert(s.contains(e)) by {
                assert(s[0] == e);
            }
        }
    }
}

/// Refreshing the targets keeps the selection on the same target: when the
/// selected target is still in view, it stays selected (at its first place in
/// the new list) whether the aim is by keyboard or mouse.
pub proof fn lemma_refresh_keeps_selection(
    old_targets: Seq<u64>,
    idx: Option<usize>,
    keyboard_focus: bool,
    new_targets: Seq<u64>,
    e: u64,
)
    requires
        selected_target(old_targets, idx) == Some(e),
        new_targets.contains(e),
    ensures
        index_after_refresh(old_targets, idx, keyboard_focus, new_targets) matches Some(k) && 0 <= k
            < new_targets.len() && new_targets[k] == e && forall|j: int| 0 <= j < k ==> new_targets[j] != e,
{
    lemma_first_position(new_targets, e);
}

/// When the selected target leaves view, keyboard aiming moves to the
/// nearest target (none if no target is left).
pub proof fn lemma_refresh_lost_target(
    old_targets: Seq<u64>,
    idx: Option<usize>,
    new_targets: Seq<u64>,
    e: u64,
)
    requires
        selected_target(old_targets, idx) == Some(e),
        !new_targets.contains(e),
    ensures
        index_after_refresh(old_targets, idx, true, new_targets) == if new_targets.len() == 0 {
            None::<int>
        } else {
            Some(0int)
        },
{
    lemma_first_position(new_targets, e);
}

impl TargetCycling {
    /// No targets and no selection, aiming with the mouse.
    pub fn new() -> (t: Self)
        ensures
            t.targets@.len() == 0,
            t.current_index is None,
            !t.keyboard_focus,
    {
        TargetCycling { targets: Vec::new(), current_index: None, keyboard_focus: false }
    }

    /// The selected target.
    pub fn selected(&self) -> (e: Option<u64>)
        ensures
            e == selected_target(self.targets@, self.current_index),
    {
        match self.current_index {
            Some(i) => if i < self.targets.len() {
                Some(self.targets[i])
            } else {
                None
            },
            None => None,
        }
    }

    /// Replaces the target list, keeping the selection on the same target
    /// where possible.
    pub fn replace_targets(&mut self, targets: Vec<u64>)
        ensures
            final(self).targets@ == targets@,
            final(self).keyboard_focus == old(self).keyboard_focus,
            opt_int(final(self).current_index) == index_after_refresh(
                old(self).targets@,
                old(self).current_index,
                old(self).keyboard_focus,
                targets@,
            ),
    {
        let prev = self.selected();
        self.targets = targets;
        match prev {
            Some(prev_entity) => {
                match find_first(&self.targets, prev_entity) {
                    Some(k) => {
                        self.current_index = Some(k);
                    },
                    None => {
                        if self.keyboard_focus {
                            self.current_index = if self.targets.len() == 0 {
                                None
                            } else {
                                Some(0)
                            };
                        }
                    },
                }
            },
            None => {
                if let Some(current_idx) = self.current_index {
                    if current_idx >= self.targets.len() {
                        self.current_index = if self.targets.len() == 0 {
                            None
                        } else {
                            Some(0)
                        };
                    }
                }
            },
        }
    }

    /// Handles one frame of aiming input: TAB cycles forward and Shift+TAB
    /// backward through the targets (switching to keyboard aiming); moving the
    /// mouse while aiming by keyboard drops the selection.
    pub fn update_target_cycling(&mut self, tab_pressed: bool, shift_down: bool, mouse_moved: bool)
        requires
            old(self).current_index != Some(usize::MAX),
        ensures
            cycling_step(*old(self), *final(self), tab_pressed, shift_down, mouse_moved),
            final(self).targets@ == old(self).targets@,
            ({
                let len = old(self).targets@.len() as int;
                if tab_pressed {
                    if len > 0 {
                        &&& final(self).keyboard_focus
                        &&& opt_int(final(self).current_index) == if shift_down {
                            previous_index(old(self).current_index, len)
                        } else {
                            next_index(old(self).current_index, len)
                        }
                    } else {
                        &&& final(self).keyboard_focus == old(self).keyboard_focus
                        &&& final(self).current_index == old(self).current_index
                    }
                } else if mouse_moved && old(self).keyboard_focus {
                    &&& !final(self).keyboard_focus
                    &&& final(self).current_index is None
                } else {
                    &&& final(self).keyboard_focus == old(self).keyboard_focus
                    &&& final(self).current_index == old(self).current_index
                }
            }),
    {
        if tab_pressed && !shift_down {
            if self.targets.len() > 0 {
                self.keyboard_focus = true;
                self.current_index = match self.current_index {
                    None => Some(0),
                    Some(idx) => Some((idx + 1) % self.targets.len()),
                };
            }
            return;
        }
        if tab_pressed && shift_down {
            if self.targets.len() > 0 {
                self.keyboard_focus = true;
                self.current_index = match self.current_index {
                    None => Some(0),
                    Some(0) => Some(self.targets.len() - 1),
                    Some(idx) => Some(idx - 1),
                };
            }
            return;
        }
        if mouse_moved && self.keyboard_focus {
            self.keyboard_focus = false;
            self.current_index = None;
        }
    }
}

/// Cycling keeps a selection inside the list, and cycling backward undoes
/// cycling forward.
pub proof fn lemma_cycling_stays_in_range(i: int, len: int)
    requires
        0 <= i < len,
    ensures
        0 <= (i + 1) % len < len,
        ({
            let f = (i + 1) % len;
            (if f == 0 { len - 1 } else { f - 1 }) == i
        }),
        (if i == 0 { len - 1 } else { i - 1 }) < len,
        ({
            let b = if i == 0 { len - 1 } else { i - 1 };
            (b + 1) % len == i
        }),
{
    if i + 1 < len {
        assert((i + 1) % len == i + 1) by (nonlinear_arith)
            requires 0 <= i + 1 < len;
    } else {
        assert((i + 1) % len == 0) by (nonlinear_arith)
            requires i + 1 == len, len > 0;
    }
    if i == 0 {
        assert(len % len == 0) by (nonlinear_arith)
            requires len > 0;
    } else {
        assert(i % len == i) by (nonlinear_arith)
            requires 0 <= i < len;
    }
}

/// Manhattan distance between two tiles.
pub open spec fn manhattan(a: (usize, usize), b: (usize, usize)) -> int {
    let dx = if a.0 >= b.0 { a.0 - b.0 } else { b.0 - a.0 };
    let dy = if a.1 >= b.1 { a.1 - b.1 } else { b.1 - a.1 };
    dx + dy
}

/// Whether a target tile is within a weapon's range of the shooter, by
/// Manhattan distance.
pub fn in_weapon_range(shooter: (usize, usize), target: (usize, usize), range: u32) -> (b: bool)
    ensures
        b == (manhattan(shooter, target) <= range),
{
    let dx: u128 = if shooter.0 >= target.0 {
        (shooter.0 - target.0) as u128
    } else {
        (target.0 - shooter.0) as u128
    };
    let dy: u128 = if shooter.1 >= target.1 {
        (shooter.1 - target.1) as u128
    } else {
        (target.1 - shooter.1) as u128
    };
    dx + dy <= range as u128
}

/// The color of the target's health readout.
#[derive(Clone, Copy, Debug, PartialEq, Eq, Structural)]
pub enum HealthColor {
    Red,
    Yellow,
    Green,
}

/// Red at a quarter of the maximum health or less, yellow at half or less,
/// green above; the fractions are whole numbers of hit points, rounded down.
pub open spec fn target_health_color_spec(current: u32, max: u32) -> HealthColor {
    if current <= max / 4 {
        HealthColor::Red
    } else if current <= max / 2 {
        HealthColor::Yellow
    } else {
        HealthColor::Green
    }
}

/// The color of the target's health readout.
pub fn target_health_color(current: u32, max: u32) -> (c: HealthColor)
    ensures
        c == target_health_color_spec(current, max),
{
    if current <= max / 4 {
        HealthColor::Red
    } else if current <= max / 2 {
        HealthColor::Yellow
    } else {
        HealthColor::Green
    }
}

/// The target's readout: its name and its health over its maximum.
pub fn target_info_text(name: &str, current: u32, max: u32) -> (s: String)
    ensures
        s@ == name@ + " ("@ + decimal(current as nat) + "/"@ + decimal(max as nat) + ")"@,
{
    let mut out: Vec<char> = Vec::new();
    push_str_chars(&mut out, name);
    push_str_chars(&mut out, " (");
    push_decimal(&mut out, current as u64);
    push_str_chars(&mut out, "/");
    push_decimal(&mut out, max as u64);
    push_str_chars(&mut out, ")");
    string_from_chars(&out)
}

} // verus!
