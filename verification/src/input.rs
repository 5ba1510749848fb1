//! Keyboard and touch input state across frames, key names, and named input
//! actions bound to keys.
use vstd::prelude::*;

use crate::string_lists::views;
use crate::text::{chars_equal, chars_of};

verus! {

/// A keyboard key the engine knows by name.
#[derive(Debug, Clone, Copy, PartialEq, Eq, Hash, Structural)]
pub enum KeyCode {
    ArrowUp,
    ArrowDown,
    ArrowLeft,
    ArrowRight,
    KeyW,
    KeyA,
    KeyS,
    KeyD,
    Space,
    Enter,
    Escape,
}

/// The key that a configuration names, where it names one.
pub open spec fn spec_key_code(name: Seq<char>) -> Option<KeyCode> {
    if name == "ArrowUp"@ {
        Some(KeyCode::ArrowUp)
    } else if name == "ArrowDown"@ {
        Some(KeyCode::ArrowDown)
    } else if name == "ArrowLeft"@ {
        Some(KeyCode::ArrowLeft)
    } else if name == "ArrowRight"@ {
        Some(KeyCode::ArrowRight)
    } else if name == "KeyW"@ || name == "W"@ {
        Some(KeyCode::KeyW)
    } else if name == "KeyA"@ || name == "A"@ {
        Some(KeyCode::KeyA)
    } else if name == "KeyS"@ || name == "S"@ {
        Some(KeyCode::KeyS)
    } else if name == "KeyD"@ || name == "D"@ {
        Some(KeyCode::KeyD)
    } else if name == "Space"@ {
        Some(KeyCode::Space)
    } else if name == "Enter"@ {
        Some(KeyCode::Enter)
    } else if name == "Escape"@ {
        Some(KeyCode::Escape)
    } else {
        None
    }
}

fn name_is(name: &[char], literal: &str) -> (same: bool)
    ensures
        same == (name@ == literal@),
{
    let expected = chars_of(literal);
    chars_equal(name, expected.as_slice())
}

/// Reads a key name as configuration files write it.
pub fn parse_key_code(key: &str) -> (code: Option<KeyCode>)
    ensures
        code == spec_key_code(key@),
{
    let name = chars_of(key);
    let name = name.as_slice();
    if name_is(name, "ArrowUp") {
        Some(KeyCode::ArrowUp)
    } else if name_is(name, "ArrowDown") {
        Some(KeyCode::ArrowDown)
    } else if name_is(name, "ArrowLeft") {
        Some(KeyCode::ArrowLeft)
    } else if name_is(name, "ArrowRight") {
        Some(KeyCode::ArrowRight)
    } else if name_is(name, "KeyW") || name_is(name, "W") {
        Some(KeyCode::KeyW)
    } else if name_is(name, "KeyA") || name_is(name, "A") {
        Some(KeyCode::KeyA)
    } else if name_is(name, "KeyS") || name_is(name, "S") {
        Some(KeyCode::KeyS)
    } else if name_is(name, "KeyD") || name_is(name, "D") {
        Some(KeyCode::KeyD)
    } else if name_is(name, "Space") {
        Some(KeyCode::Space)
    } else if name_is(name, "Enter") {
        Some(KeyCode::Enter)
    } else if name_is(name, "Escape") {
        Some(KeyCode::Escape)
    } else {
        None
    }
}

/// The keys that the names give, in order, skipping unknown names.
pub open spec fn spec_key_list(names: Seq<Seq<char>>) -> Seq<KeyCode>
    decreases names.len(),
{
    if names.len() == 0 {
        seq![]
    } else {
        let earlier = spec_key_list(names.drop_last());
        match spec_key_code(names.last()) {
            Some(code) => earlier.push(code),
            None => earlier,
        }
    }
}

/// Reading key names goes name by name: the keys of two lists one after
/// the other are the keys of the first then those of the second; where
/// every name is known, each gives its own key at its own place; and where
/// no name is known, no key is read.
pub proof fn lemma_key_list_reads_each_name(first: Seq<Seq<char>>, second: Seq<Seq<char>>)
    ensures
        spec_key_list(first + second) == spec_key_list(first) + spec_key_list(second),
        (forall|i: int| 0 <= i < second.len() ==> #[trigger] spec_key_code(second[i]) is Some) ==> {
            &&& spec_key_list(second).len() == second.len()
            &&& forall|i: int| 0 <= i < second.len() ==> #[trigger] spec_key_list(second)[i] == spec_key_code(second[i])->0
        },
        (forall|i: int| 0 <= i < second.len() ==> #[trigger] spec_key_code(second[i]) is None) ==> spec_key_list(
            second,
        ).len() == 0,
    decreases second.len(),
{
    if second.len() > 0 {
        let rest = second.drop_last();
        lemma_key_list_reads_each_name(first, rest);
        assert((first + second).drop_last() =~= first + rest);
        assert((first + second).last() == second.last());
        if forall|i: int| 0 <= i < second.len() ==> #[trigger] spec_key_code(second[i]) is Some {
            assert forall|i: int| 0 <= i < rest.len() implies #[trigger] spec_key_code(rest[i]) is Some by {
                assert(rest[i] == second[i]);
                assert(spec_key_code(second[i]) is Some);
            }
            assert(spec_key_code(second[second.len() - 1]) is Some);
            assert forall|i: int| 0 <= i < second.len() implies #[trigger] spec_key_list(second)[i] == spec_key_code(
                second[i],
            )->0 by {
                if i < rest.len() {
                    assert(rest[i] == second[i]);
                    assert(spec_key_list(rest)[i] == spec_key_code(rest[i])->0);
                }
            }
        }
        if forall|i: int| 0 <= i < second.len() ==> #[trigger] spec_key_code(second[i]) is None {
            assert forall|i: int| 0 <= i < rest.len() implies #[trigger] spec_key_code(rest[i]) is None by {
                assert(rest[i] == second[i]);
                assert(spec_key_code(second[i]) is None);
            }
            assert(spec_key_code(second[second.len() - 1]) is None);
        }
    } else {
        assert(first + second =~= first);
        assert(spec_key_list(first) + spec_key_list(second) =~= spec_key_list(first));
    }
}

/// Reads a list of key names, skipping the ones that name no key.
pub fn parse_key_list(keys: Vec<String>) -> (codes: Vec<KeyCode>)
    ensures
        codes@ == spec_key_list(views(keys@)),
{
    let mut codes: Vec<KeyCode> = Vec::new();
    let mut i: usize = 0;
    assert(views(keys@).take(0) =~= Seq::<Seq<char>>::empty());
    while i < keys.len()
        invariant
            i <= keys@.len(),
            codes@ == spec_key_list(views(keys@).take(i as int)),
        decreases keys@.len() - i,
    {
        proof {
            let taken = views(keys@).take(i + 1);
            assert(taken.drop_last() =~= views(keys@).take(i as int));
            assert(taken.last() == keys@[i as int]@);
        }
        match parse_key_code(keys[i].as_str()) {
            Some(code) => codes.push(code),
            None => {},
        }
        i = i + 1;
    }
    assert(views(keys@).take(i as int) =~= views(keys@));
    codes
}

/// Whether the list holds the key.
fn has_key(keys: &Vec<KeyCode>, key: KeyCode) -> (found: bool)
    ensures
        found == keys@.contains(key),
{
    let mut i: usize = 0;
    while i < keys.len()
        invariant
            i <= keys@.len(),
            forall|j: int| 0 <= j < i ==> keys@[j] != key,
        decreases keys@.len() - i,
    {
        if keys[i] == key {
            assert(keys@[i as int] == key);
            return true;
        }
        i = i + 1;
    }
    false
}

/// Removes the key from the list.
fn remove_key(keys: &mut Vec<KeyCode>, key: KeyCode)
    ensures
        final(keys)@.to_set() == old(keys)@.to_set().remove(key),
{
    let ghost start = keys@.to_set();
    let mut i: usize = 0;
    while i < keys.len()
        invariant
            i <= keys@.len(),
            keys@.to_set().remove(key) == start.remove(key),
            forall|j: int| 0 <= j < i ==> keys@[j] != key,
        decreases keys@.len() - i,
    {
        if keys[i] == key {
            let ghost before = keys@;
            keys.remove(i);
            proof {
                assert forall|x: KeyCode| #[trigger] keys@.to_set().remove(key).contains(x)
                    <==> before.to_set().remove(key).contains(x) by {
                    if x != key {
                        if before.contains(x) {
                            let k = choose|k: int| 0 <= k < before.len() && before[k] == x;
                            if k < i {
                                assert(keys@[k] == x);
                            } else {
                                assert(k != i);
                                assert(keys@[k - 1] == x);
                            }
                        }
                        if keys@.contains(x) {
                            let k = choose|k: int| 0 <= k < keys@.len() && keys@[k] == x;
                            if k < i {
                                assert(before[k] == x);
                            } else {
                                assert(before[k + 1] == x);
                            }
                        }
                    }
                }
                assert(keys@.to_set().remove(key) =~= before.to_set().remove(key));
            }
        } else {
            i = i + 1;
        }
    }
    proof {
        assert(!keys@.contains(key));
        assert(keys@.to_set() =~= keys@.to_set().remove(key));
    }
}

/// Adds the key to the list unless it is there.
fn add_key(keys: &mut Vec<KeyCode>, key: KeyCode)
    ensures
        final(keys)@.to_set() == old(keys)@.to_set().insert(key),
{
    if !has_key(keys, key) {
        keys.push(key);
        proof {
            assert forall|x: KeyCode| #[trigger] keys@.to_set().contains(x)
                <==> old(keys)@.to_set().insert(key).contains(x) by {
                if old(keys)@.contains(x) {
                    let k = choose|k: int| 0 <= k < old(keys)@.len() && old(keys)@[k] == x;
                    assert(keys@[k] == x);
                }
                if x == key {
                    assert(keys@[keys@.len() - 1] == x);
                }
                if keys@.contains(x) && x != key {
                    let k = choose|k: int| 0 <= k < keys@.len() && keys@[k] == x;
                    assert(old(keys)@[k] == x);
                }
            }
            assert(keys@.to_set() =~= old(keys)@.to_set().insert(key));
        }
    } else {
        assert(keys@.to_set() =~= old(keys)@.to_set().insert(key));
    }
}

/// An active touch and where it is.
#[derive(Debug, Clone, Copy, PartialEq)]
pub struct TouchPoint<P> {
    pub id: u64,
    pub position: P,
}

impl<P> TouchPoint<P> {
    pub fn new(id: u64, position: P) -> (touch: TouchPoint<P>)
        ensures
            touch.id == id,
            touch.position == position,
    {
        TouchPoint { id, position }
    }
}

/// What the input state holds, as sets and a map: the keys held down, the
/// keys pressed and released since the last frame ended, the active touches
/// by id, and the touches that started and ended since the last frame ended.
pub struct InputStateView<P> {
    pub pressed: Set<KeyCode>,
    pub just_pressed: Set<KeyCode>,
    pub just_released: Set<KeyCode>,
    pub touches: Map<u64, P>,
    pub touches_started: Set<u64>,
    pub touches_ended: Set<u64>,
}

/// The state after a key goes down: a key that was up becomes held and
/// just pressed, and no longer just released; a held key changes nothing.
pub open spec fn spec_press<P>(state: InputStateView<P>, key: KeyCode) -> InputStateView<P> {
    if state.pressed.contains(key) {
        state
    } else {
        InputStateView {
            pressed: state.pressed.insert(key),
            just_pressed: state.just_pressed.insert(key),
            just_released: state.just_released.remove(key),
            ..state
        }
    }
}

/// The state after a key goes up: a held key becomes up and just released,
/// and no longer just pressed; a key that was up changes nothing.
pub open spec fn spec_release<P>(state: InputStateView<P>, key: KeyCode) -> InputStateView<P> {
    if !state.pressed.contains(key) {
        state
    } else {
        InputStateView {
            pressed: state.pressed.remove(key),
            just_pressed: state.just_pressed.remove(key),
            just_released: state.just_released.insert(key),
            ..state
        }
    }
}

/// The state after a frame ends: nothing just went down or up.
pub open spec fn spec_end_frame<P>(state: InputStateView<P>) -> InputStateView<P> {
    InputStateView {
        just_pressed: Set::<KeyCode>::empty(),
        just_released: Set::<KeyCode>::empty(),
        touches_started: Set::<u64>::empty(),
        touches_ended: Set::<u64>::empty(),
        ..state
    }
}

/// The state after a touch starts at a position.
pub open spec fn spec_touch_start<P>(state: InputStateView<P>, id: u64, position: P) -> InputStateView<P> {
    InputStateView {
        touches: state.touches.insert(id, position),
        touches_started: state.touches_started.insert(id),
        touches_ended: state.touches_ended.remove(id),
        ..state
    }
}

/// The state after a touch moves; an unknown touch changes nothing.
pub open spec fn spec_touch_move<P>(state: InputStateView<P>, id: u64, position: P) -> InputStateView<P> {
    if state.touches.contains_key(id) {
        InputStateView { touches: state.touches.insert(id, position), ..state }
    } else {
        state
    }
}

/// The state after a touch ends; an unknown touch changes nothing.
pub open spec fn spec_touch_end<P>(state: InputStateView<P>, id: u64) -> InputStateView<P> {
    if state.touches.contains_key(id) {
        InputStateView {
            touches: state.touches.remove(id),
            touches_ended: state.touches_ended.insert(id),
            touches_started: state.touches_started.remove(id),
            ..state
        }
    } else {
        state
    }
}

/// Whether the transition flags agree with what is held: a just pressed key
/// is held, a just released key is not, a just started touch is active and
/// a just ended touch is not.
pub open spec fn flags_consistent<P>(state: InputStateView<P>) -> bool {
    &&& state.just_pressed.subset_of(state.pressed)
    &&& state.just_released.disjoint(state.pressed)
    &&& state.touches_started.subset_of(state.touches.dom())
    &&& state.touches_ended.disjoint(state.touches.dom())
}

/// Every input state starts with consistent flags and every event keeps
/// them so: a just pressed key is always held, a just released key never
/// is, and likewise for touches.
pub proof fn lemma_input_flags_stay_consistent<P>(state: InputStateView<P>, key: KeyCode, id: u64, position: P)
    ensures
        flags_consistent(InputStateView {
            pressed: Set::<KeyCode>::empty(),
            just_pressed: Set::<KeyCode>::empty(),
            just_released: Set::<KeyCode>::empty(),
            touches: Map::<u64, P>::empty(),
            touches_started: Set::<u64>::empty(),
            touches_ended: Set::<u64>::empty(),
        }),
        flags_consistent(state) ==> flags_consistent(spec_press(state, key)),
        flags_consistent(state) ==> flags_consistent(spec_release(state, key)),
        flags_consistent(state) ==> flags_consistent(spec_end_frame(state)),
        flags_consistent(state) ==> flags_consistent(spec_touch_start(state, id, position)),
        flags_consistent(state) ==> flags_consistent(spec_touch_move(state, id, position)),
        flags_consistent(state) ==> flags_consistent(spec_touch_end(state, id)),
{
}

/// Keys go down and up one at a time: pressing a key holds it, and a key
/// that was up is then just pressed and not just released, while a key
/// already held changes nothing; releasing a held key makes it up, just
/// released and not just pressed, while a key already up changes nothing;
/// other keys are untouched; ending a frame clears what just went down or
/// up and keeps what is held.
pub proof fn lemma_key_transitions<P>(state: InputStateView<P>, key: KeyCode, other: KeyCode)
    requires
        other != key,
    ensures
        spec_press(state, key).pressed.contains(key),
        !state.pressed.contains(key) ==> spec_press(state, key).just_pressed.contains(key)
            && !spec_press(state, key).just_released.contains(key),
        state.pressed.contains(key) ==> spec_press(state, key) == state,
        !spec_release(state, key).pressed.contains(key),
        state.pressed.contains(key) ==> spec_release(state, key).just_released.contains(key)
            && !spec_release(state, key).just_pressed.contains(key),
        !state.pressed.contains(key) ==> spec_release(state, key) == state,
        spec_press(state, key).pressed.contains(other) == state.pressed.contains(other),
        spec_press(state, key).just_pressed.contains(other) == state.just_pressed.contains(other),
        spec_press(state, key).just_released.contains(other) == state.just_released.contains(other),
        spec_release(state, key).pressed.contains(other) == state.pressed.contains(other),
        spec_release(state, key).just_pressed.contains(other) == state.just_pressed.contains(other),
        spec_release(state, key).just_released.contains(other) == state.just_released.contains(other),
        spec_press(state, key).touches == state.touches,
        spec_release(state, key).touches == state.touches,
        spec_end_frame(state).pressed == state.pressed,
        spec_end_frame(state).touches == state.touches,
        !spec_end_frame(state).just_pressed.contains(key),
        !spec_end_frame(state).just_released.contains(key),
{
}

/// Touches follow their ids: a started touch is active at its position and
/// just started, not just ended; a move puts an active touch at the new
/// position and ignores an unknown one; an ended touch is no longer active
/// and is just ended, not just started; other touches and the keys are
/// untouched; ending a frame clears what just started or ended and keeps
/// the active touches.
pub proof fn lemma_touch_transitions<P>(state: InputStateView<P>, id: u64, other: u64, position: P)
    requires
        other != id,
    ensures
        spec_touch_start(state, id, position).touches.contains_key(id),
        spec_touch_start(state, id, position).touches[id] == position,
        spec_touch_start(state, id, position).touches_started.contains(id),
        !spec_touch_start(state, id, position).touches_ended.contains(id),
        state.touches.contains_key(id) ==> spec_touch_move(state, id, position).touches.contains_key(id)
            && spec_touch_move(state, id, position).touches[id] == position,
        !state.touches.contains_key(id) ==> spec_touch_move(state, id, position) == state,
        !spec_touch_end(state, id).touches.contains_key(id),
        state.touches.contains_key(id) ==> spec_touch_end(state, id).touches_ended.contains(id)
            && !spec_touch_end(state, id).touches_started.contains(id),
        !state.touches.contains_key(id) ==> spec_touch_end(state, id) == state,
        spec_touch_start(state, id, position).touches.contains_key(other) == state.touches.contains_key(other),
        state.touches.contains_key(other) ==> spec_touch_start(state, id, position).touches[other]
            == state.touches[other],
        spec_touch_move(state, id, position).touches.contains_key(other) == state.touches.contains_key(other),
        state.touches.contains_key(other) ==> spec_touch_move(state, id, position).touches[other]
            == state.touches[other],
        spec_touch_end(state, id).touches.contains_key(other) == state.touches.contains_key(other),
        state.touches.contains_key(other) ==> spec_touch_end(state, id).touches[other] == state.touches[other],
        spec_touch_start(state, id, position).pressed == state.pressed,
        spec_touch_end(state, id).pressed == state.pressed,
        spec_end_frame(state).touches_started.len() == 0,
        spec_end_frame(state).touches_ended.len() == 0,
{
}

/// Whether the touches' ids are distinct.
pub open spec fn touch_ids_distinct<P>(touches: Seq<TouchPoint<P>>) -> bool {
    forall|i: int, j: int|
        0 <= i < j < touches.len() ==> #[trigger] touches[i].id != #[trigger] touches[j].id
}

/// The active touches by id.
pub open spec fn touch_map<P>(touches: Seq<TouchPoint<P>>) -> Map<u64, P> {
    Map::new(
        |id: u64| exists|i: int| 0 <= i < touches.len() && #[trigger] touches[i].id == id,
        |id: u64|
            touches[choose|i: int| 0 <= i < touches.len() && #[trigger] touches[i].id == id].position,
    )
}

proof fn lemma_touch_map_at<P>(touches: Seq<TouchPoint<P>>, i: int)
    requires
        touch_ids_distinct(touches),
        0 <= i < touches.len(),
    ensures
        touch_map(touches).contains_key(touches[i].id),
        touch_map(touches)[touches[i].id] == touches[i].position,
{
    let id = touches[i].id;
    let j = choose|j: int| 0 <= j < touches.len() && #[trigger] touches[j].id == id;
    if j != i {
        if i < j {
            assert(touches[i].id != touches[j].id);
        } else {
            assert(touches[j].id != touches[i].id);
        }
    }
}

/// Keyboard and touch input across frames. `P` is what a touch position is.
#[derive(Debug)]
pub struct InputState<P: Copy> {
    pressed_keys: Vec<KeyCode>,
    just_pressed_keys: Vec<KeyCode>,
    just_released_keys: Vec<KeyCode>,
    active_touches: Vec<TouchPoint<P>>,
    just_pressed_touches: Vec<u64>,
    just_released_touches: Vec<u64>,
}

impl<P: Copy> View for InputState<P> {
    type V = InputStateView<P>;

    closed spec fn view(&self) -> InputStateView<P> {
        InputStateView {
            pressed: self.pressed_keys@.to_set(),
            just_pressed: self.just_pressed_keys@.to_set(),
            just_released: self.just_released_keys@.to_set(),
            touches: touch_map(self.active_touches@),
            touches_started: self.just_pressed_touches@.to_set(),
            touches_ended: self.just_released_touches@.to_set(),
        }
    }
}

/// Whether the list holds the id.
fn has_id(ids: &Vec<u64>, id: u64) -> (found: bool)
    ensures
        found == ids@.contains(id),
{
    let mut i: usize = 0;
    while i < ids.len()
        invariant
            i <= ids@.len(),
            forall|j: int| 0 <= j < i ==> ids@[j] != id,
        decreases ids@.len() - i,
    {
        if ids[i] == id {
            assert(ids@[i as int] == id);
            return true;
        }
        i = i + 1;
    }
    false
}

/// Adds the id to the list unless it is there.
fn add_id(ids: &mut Vec<u64>, id: u64)
    ensures
        final(ids)@.to_set() == old(ids)@.to_set().insert(id),
{
    if !has_id(ids, id) {
        ids.push(id);
        proof {
            assert forall|x: u64| #[trigger] ids@.to_set().contains(x) <==> old(
                ids,
            )@.to_set().insert(id).contains(x) by {
                if old(ids)@.contains(x) {
                    let k = choose|k: int| 0 <= k < old(ids)@.len() && old(ids)@[k] == x;
                    assert(ids@[k] == x);
                }
                if x == id {
                    assert(ids@[ids@.len() - 1] == x);
                }
                if ids@.contains(x) && x != id {
                    let k = choose|k: int| 0 <= k < ids@.len() && ids@[k] == x;
                    assert(old(ids)@[k] == x);
                }
            }
            assert(ids@.to_set() =~= old(ids)@.to_set().insert(id));
        }
    } else {
        assert(ids@.to_set() =~= old(ids)@.to_set().insert(id));
    }
}

/// Removes the id from the list.
fn remove_id(ids: &mut Vec<u64>, id: u64)
    ensures
        final(ids)@.to_set() == old(ids)@.to_set().remove(id),
{
    let ghost start = ids@.to_set();
    let mut i: usize = 0;
    while i < ids.len()
        invariant
            i <= ids@.len(),
            ids@.to_set().remove(id) == start.remove(id),
            forall|j: int| 0 <= j < i ==> ids@[j] != id,
        decreases ids@.len() - i,
    {
        if ids[i] == id {
            let ghost before = ids@;
            ids.remove(i);
            proof {
                assert forall|x: u64| #[trigger] ids@.to_set().remove(id).contains(x)
                    <==> before.to_set().remove(id).contains(x) by {
                    if x != id {
                        if before.contains(x) {
                            let k = choose|k: int| 0 <= k < before.len() && before[k] == x;
                            if k < i {
                                assert(ids@[k] == x);
                            } else {
                                assert(k != i);
                                assert(ids@[k - 1] == x);
                            }
                        }
                        if ids@.contains(x) {
                            let k = choose|k: int| 0 <= k < ids@.len() && ids@[k] == x;
                            if k < i {
                                assert(before[k] == x);
                            } else {
                                assert(before[k + 1] == x);
                            }
                        }
                    }
                }
                assert(ids@.to_set().remove(id) =~= before.to_set().remove(id));
            }
        } else {
            i = i + 1;
        }
    }
    proof {
        assert(!ids@.contains(id));
        assert(ids@.to_set() =~= ids@.to_set().remove(id));
    }
}

impl<P: Copy> InputState<P> {
    #[verifier::type_invariant]
    spec fn touches_distinct(&self) -> bool {
        touch_ids_distinct(self.active_touches@)
    }

    /// No key held, no touch active, nothing pressed or released.
    pub fn new() -> (state: InputState<P>)
        ensures
            state@.pressed == Set::<KeyCode>::empty(),
            state@.just_pressed == Set::<KeyCode>::empty(),
            state@.just_released == Set::<KeyCode>::empty(),
            state@.touches == Map::<u64, P>::empty(),
            state@.touches_started == Set::<u64>::empty(),
            state@.touches_ended == Set::<u64>::empty(),
    {
        let state = InputState {
            pressed_keys: Vec::new(),
            just_pressed_keys: Vec::new(),
            just_released_keys: Vec::new(),
            active_touches: Vec::new(),
            just_pressed_touches: Vec::new(),
            just_released_touches: Vec::new(),
        };
        proof {
            assert(state@.pressed =~= Set::<KeyCode>::empty());
            assert(state@.just_pressed =~= Set::<KeyCode>::empty());
            assert(state@.just_released =~= Set::<KeyCode>::empty());
            assert(state@.touches =~= Map::<u64, P>::empty());
            assert(state@.touches_started =~= Set::<u64>::empty());
            assert(state@.touches_ended =~= Set::<u64>::empty());
        }
        state
    }

    /// Records a key going down. Only a key that was up becomes just
    /// pressed, and it is then no longer just released; a key already held
    /// changes nothing.
    pub fn press(&mut self, key: KeyCode)
        ensures
            final(self)@ == spec_press(old(self)@, key),
    {
        proof {
            use_type_invariant(&*self);
        }
        if has_key(&self.pressed_keys, key) {
            return;
        }
        let mut pressed = Vec::new();
        std::mem::swap(&mut pressed, &mut self.pressed_keys);
        add_key(&mut pressed, key);
        self.pressed_keys = pressed;
        let mut just_pressed = Vec::new();
        std::mem::swap(&mut just_pressed, &mut self.just_pressed_keys);
        add_key(&mut just_pressed, key);
        self.just_pressed_keys = just_pressed;
        let mut just_released = Vec::new();
        std::mem::swap(&mut just_released, &mut self.just_released_keys);
        remove_key(&mut just_released, key);
        self.just_released_keys = just_released;
    }

    /// Records a key going up. Only a key that was held becomes just
    /// released, and it is then no longer just pressed; a key already up
    /// changes nothing.
    pub fn release(&mut self, key: KeyCode)
        ensures
            final(self)@ == spec_release(old(self)@, key),
    {
        proof {
            use_type_invariant(&*self);
        }
        if !has_key(&self.pressed_keys, key) {
            return;
        }
        let mut pressed = Vec::new();
        std::mem::swap(&mut pressed, &mut self.pressed_keys);
        remove_key(&mut pressed, key);
        self.pressed_keys = pressed;
        let mut just_released = Vec::new();
        std::mem::swap(&mut just_released, &mut self.just_released_keys);
        add_key(&mut just_released, key);
        self.just_released_keys = just_released;
        let mut just_pressed = Vec::new();
        std::mem::swap(&mut just_pressed, &mut self.just_pressed_keys);
        remove_key(&mut just_pressed, key);
        self.just_pressed_keys = just_pressed;
    }

    /// Whether the key is held down.
    pub fn pressed(&self, key: KeyCode) -> (down: bool)
        ensures
            down == self@.pressed.contains(key),
    {
        has_key(&self.pressed_keys, key)
    }

    /// Whether the key went down since the last frame ended.
    pub fn just_pressed(&self, key: KeyCode) -> (pressed: bool)
        ensures
            pressed == self@.just_pressed.contains(key),
    {
        has_key(&self.just_pressed_keys, key)
    }

    /// Whether the key went up since the last frame ended.
    pub fn just_released(&self, key: KeyCode) -> (released: bool)
        ensures
            released == self@.just_released.contains(key),
    {
        has_key(&self.just_released_keys, key)
    }

    /// Whether the key is held down.
    pub fn is_key_down(&self, key: KeyCode) -> (down: bool)
        ensures
            down == self@.pressed.contains(key),
    {
        self.pressed(key)
    }

    /// Ends a frame: what went down or up is forgotten; held keys and active
    /// touches stay.
    pub fn end_frame(&mut self)
        ensures
            final(self)@ == spec_end_frame(old(self)@),
    {
        proof {
            use_type_invariant(&*self);
        }
        self.just_pressed_keys = Vec::new();
        self.just_released_keys = Vec::new();
        self.just_pressed_touches = Vec::new();
        self.just_released_touches = Vec::new();
        proof {
            assert(self.just_pressed_keys@.to_set() =~= Set::<KeyCode>::empty());
            assert(self.just_released_keys@.to_set() =~= Set::<KeyCode>::empty());
            assert(self.just_pressed_touches@.to_set() =~= Set::<u64>::empty());
            assert(self.just_released_touches@.to_set() =~= Set::<u64>::empty());
        }
    }

    fn touch_index(&self, id: u64) -> (index: Option<usize>)
        ensures
            match index {
                Some(i) => i < self.active_touches@.len() && self.active_touches@[i as int].id == id,
                None => !self@.touches.contains_key(id),
            },
    {
        let mut i: usize = 0;
        while i < self.active_touches.len()
            invariant
                i <= self.active_touches@.len(),
                forall|j: int| 0 <= j < i ==> self.active_touches@[j].id != id,
            decreases self.active_touches@.len() - i,
        {
            if self.active_touches[i].id == id {
                return Some(i);
            }
            i = i + 1;
        }
        None
    }

    /// Starts (or restarts) the touch `id` at `position`; it is just started
    /// and no longer just ended.
    pub fn touch_start(&mut self, id: u64, position: P)
        ensures
            final(self)@ == spec_touch_start(old(self)@, id, position),
    {
        proof {
            use_type_invariant(&*self);
        }
        let index = self.touch_index(id);
        let mut touches = Vec::new();
        std::mem::swap(&mut touches, &mut self.active_touches);
        let ghost before = touches@;
        let found = index.is_some();
        let i: usize = match index {
            Some(i) => i,
            None => 0,
        };
        proof {
            if !found {
                assert forall|j: int| 0 <= j < touches@.len() implies touches@[j].id != id by {
                    if touches@[j].id == id {
                        assert(touch_map(before).contains_key(id));
                    }
                }
            }
        }
        let point = TouchPoint { id, position };
        if found {
            touches.set(i, point);
        } else {
            touches.push(point);
        }
        proof {
            let after = touches@;
            assert(touch_ids_distinct(after)) by {
                assert forall|a: int, b: int| 0 <= a < b < after.len() implies #[trigger] after[a].id
                    != #[trigger] after[b].id by {
                    if found {
                        if a != i && b != i {
                            assert(before[a].id != before[b].id);
                        } else if a == i {
                            assert(before[b].id != before[a].id);
                        } else {
                            assert(before[a].id != before[b].id);
                        }
                    } else {
                        if b < before.len() {
                            assert(before[a].id != before[b].id);
                        }
                    }
                }
            }
            let m = touch_map(before).insert(id, position);
            assert forall|k: u64| #[trigger] touch_map(after).contains_key(k) <==> m.contains_key(k) by {
                if touch_map(before).contains_key(k) && k != id {
                    let j = choose|j: int| 0 <= j < before.len() && #[trigger] before[j].id == k;
                    assert(after[j].id == k);
                }
                if k == id {
                    if found {
                        assert(after[i as int].id == k);
                    } else {
                        assert(after[before.len() as int].id == k);
                    }
                }
                if touch_map(after).contains_key(k) && k != id {
                    let j = choose|j: int| 0 <= j < after.len() && #[trigger] after[j].id == k;
                    assert(before[j].id == k);
                }
            }
            assert forall|k: u64| #[trigger] touch_map(after).contains_key(k) implies touch_map(
                after,
            )[k] == m[k] by {
                let j = choose|j: int| 0 <= j < after.len() && #[trigger] after[j].id == k;
                lemma_touch_map_at(after, j);
                if k != id {
                    lemma_touch_map_at(before, j);
                }
            }
            assert(touch_map(after) =~= m);
        }
        self.active_touches = touches;
        let mut started = Vec::new();
        std::mem::swap(&mut started, &mut self.just_pressed_touches);
        add_id(&mut started, id);
        self.just_pressed_touches = started;
        let mut ended = Vec::new();
        std::mem::swap(&mut ended, &mut self.just_released_touches);
        remove_id(&mut ended, id);
        self.just_released_touches = ended;
    }

    /// Moves an active touch; an unknown touch is ignored.
    pub fn touch_move(&mut self, id: u64, position: P)
        ensures
            final(self)@ == spec_touch_move(old(self)@, id, position),
    {
        proof {
            use_type_invariant(&*self);
        }
        match self.touch_index(id) {
            Some(i) => {
                let mut touches = Vec::new();
                std::mem::swap(&mut touches, &mut self.active_touches);
                let ghost before = touches@;
                touches.set(i, TouchPoint { id, position });
                proof {
                    let after = touches@;
                    assert forall|a: int, b: int| 0 <= a < b < after.len() implies #[trigger] after[a].id
                        != #[trigger] after[b].id by {
                        assert(before[a].id != before[b].id);
                    }
                    let m = touch_map(before).insert(id, position);
                    assert forall|k: u64| #[trigger] touch_map(after).contains_key(k)
                        <==> m.contains_key(k) by {
                        if touch_map(before).contains_key(k) {
                            let j = choose|j: int| 0 <= j < before.len() && #[trigger] before[j].id == k;
                            assert(after[j].id == k);
                        }
                        if k == id {
                            assert(after[i as int].id == k);
                        }
                        if touch_map(after).contains_key(k) {
                            let j = choose|j: int| 0 <= j < after.len() && #[trigger] after[j].id == k;
                            assert(before[j].id == k);
                        }
                    }
                    assert forall|k: u64| #[trigger] touch_map(after).contains_key(k)
                        implies touch_map(after)[k] == m[k] by {
                        let j = choose|j: int| 0 <= j < after.len() && #[trigger] after[j].id == k;
                        lemma_touch_map_at(after, j);
                        if k != id {
                            lemma_touch_map_at(before, j);
                        }
                    }
                    assert(touch_map(after) =~= m);
                }
                self.active_touches = touches;
            },
            None => {},
        }
    }

    /// Ends an active touch: it is just ended and no longer just started. An
    /// unknown touch is ignored.
    pub fn touch_end(&mut self, id: u64)
        ensures
            final(self)@ == spec_touch_end(old(self)@, id),
    {
        proof {
            use_type_invariant(&*self);
        }
        match self.touch_index(id) {
            Some(i) => {
                let mut touches = Vec::new();
                std::mem::swap(&mut touches, &mut self.active_touches);
                let ghost before = touches@;
                touches.remove(i);
                proof {
                    let after = touches@;
                    assert forall|a: int, b: int| 0 <= a < b < after.len() implies #[trigger] after[a].id
                        != #[trigger] after[b].id by {
                        if b < i {
                            assert(before[a].id != before[b].id);
                        } else if a < i {
                            assert(before[a].id != before[b + 1].id);
                        } else {
                            assert(before[a + 1].id != before[b + 1].id);
                        }
                    }
                    let m = touch_map(before).remove(id);
                    assert forall|k: u64| #[trigger] touch_map(after).contains_key(k)
                        <==> m.contains_key(k) by {
                        if touch_map(before).contains_key(k) && k != id {
                            let j = choose|j: int| 0 <= j < before.len() && #[trigger] before[j].id == k;
                            if j < i {
                                assert(after[j].id == k);
                            } else {
                                assert(j != i);
                                assert(after[j - 1].id == k);
                            }
                        }
                        if touch_map(after).contains_key(k) {
                            let j = choose|j: int| 0 <= j < after.len() && #[trigger] after[j].id == k;
                            if j < i {
                                assert(before[j].id == k);
                                assert(before[i as int].id != before[j].id);
                            } else {
                                assert(before[j + 1].id == k);
                                assert(before[i as int].id != before[j + 1].id);
                            }
                        }
                    }
                    assert forall|k: u64| #[trigger] touch_map(after).contains_key(k)
                        implies touch_map(after)[k] == m[k] by {
                        let j = choose|j: int| 0 <= j < after.len() && #[trigger] after[j].id == k;
                        lemma_touch_map_at(after, j);
                        if j < i {
                            lemma_touch_map_at(before, j);
                        } else {
                            lemma_touch_map_at(before, j + 1);
                        }
                    }
                    assert(touch_map(after) =~= m);
                }
                self.active_touches = touches;
                let mut ended = Vec::new();
                std::mem::swap(&mut ended, &mut self.just_released_touches);
                add_id(&mut ended, id);
                self.just_released_touches = ended;
                let mut started = Vec::new();
                std::mem::swap(&mut started, &mut self.just_pressed_touches);
                remove_id(&mut started, id);
                self.just_pressed_touches = started;
            },
            None => {},
        }
    }

    /// Cancels a touch, which ends it.
    pub fn touch_cancel(&mut self, id: u64)
        ensures
            final(self)@ == spec_touch_end(old(self)@, id),
    {
        self.touch_end(id);
    }

    /// Whether the touch is active.
    pub fn touch_pressed(&self, id: u64) -> (active: bool)
        ensures
            active == self@.touches.contains_key(id),
    {
        self.touch_index(id).is_some()
    }

    /// Whether the touch started since the last frame ended.
    pub fn touch_just_pressed(&self, id: u64) -> (started: bool)
        ensures
            started == self@.touches_started.contains(id),
    {
        has_id(&self.just_pressed_touches, id)
    }

    /// Whether the touch ended since the last frame ended.
    pub fn touch_just_released(&self, id: u64) -> (ended: bool)
        ensures
            ended == self@.touches_ended.contains(id),
    {
        has_id(&self.just_released_touches, id)
    }

    /// The active touch `id`.
    pub fn touch(&self, id: u64) -> (touch: Option<TouchPoint<P>>)
        ensures
            match touch {
                Some(t) => self@.touches.contains_key(id) && t.id == id && t.position
                    == self@.touches[id],
                None => !self@.touches.contains_key(id),
            },
    {
        proof {
            use_type_invariant(self);
        }
        match self.touch_index(id) {
            Some(i) => {
                proof {
                    lemma_touch_map_at(self.active_touches@, i as int);
                }
                Some(self.active_touches[i])
            },
            None => None,
        }
    }

    /// The active touches, each once.
    pub fn touches(&self) -> (touches: Vec<TouchPoint<P>>)
        ensures
            touch_ids_distinct(touches@),
            touch_map(touches@) == self@.touches,
    {
        proof {
            use_type_invariant(self);
        }
        let mut touches: Vec<TouchPoint<P>> = Vec::new();
        let mut i: usize = 0;
        while i < self.active_touches.len()
            invariant
                i <= self.active_touches@.len(),
                touches@ == self.active_touches@.take(i as int),
            decreases self.active_touches@.len() - i,
        {
            touches.push(self.active_touches[i]);
            assert(touches@ =~= self.active_touches@.take(i + 1));
            i = i + 1;
        }
        assert(touches@ =~= self.active_touches@);
        touches
    }
}

impl<P: Copy> Clone for InputState<P> {
    fn clone(&self) -> (copy: InputState<P>)
        ensures
            copy@ == self@,
    {
        proof {
            use_type_invariant(self);
        }
        InputState {
            pressed_keys: copy_keys(&self.pressed_keys),
            just_pressed_keys: copy_keys(&self.just_pressed_keys),
            just_released_keys: copy_keys(&self.just_released_keys),
            active_touches: self.touches(),
            just_pressed_touches: copy_ids(&self.just_pressed_touches),
            just_released_touches: copy_ids(&self.just_released_touches),
        }
    }
}

fn copy_keys(keys: &Vec<KeyCode>) -> (copy: Vec<KeyCode>)
    ensures
        copy@ == keys@,
{
    let mut copy: Vec<KeyCode> = Vec::new();
    let mut i: usize = 0;
    while i < keys.len()
        invariant
            i <= keys@.len(),
            copy@ == keys@.take(i as int),
        decreases keys@.len() - i,
    {
        copy.push(keys[i]);
        assert(copy@ =~= keys@.take(i + 1));
        i = i + 1;
    }
    assert(copy@ =~= keys@);
    copy
}

fn copy_ids(ids: &Vec<u64>) -> (copy: Vec<u64>)
    ensures
        copy@ == ids@,
{
    let mut copy: Vec<u64> = Vec::new();
    let mut i: usize = 0;
    while i < ids.len()
        invariant
            i <= ids@.len(),
            copy@ == ids@.take(i as int),
        decreases ids@.len() - i,
    {
        copy.push(ids[i]);
        assert(copy@ =~= ids@.take(i + 1));
        i = i + 1;
    }
    assert(copy@ =~= ids@);
    copy
}

impl<P: Copy> Default for InputState<P> {
    fn default() -> (state: InputState<P>)
        ensures
            state@.pressed == Set::<KeyCode>::empty(),
            state@.just_pressed == Set::<KeyCode>::empty(),
            state@.just_released == Set::<KeyCode>::empty(),
            state@.touches == Map::<u64, P>::empty(),
            state@.touches_started == Set::<u64>::empty(),
            state@.touches_ended == Set::<u64>::empty(),
    {
        InputState::new()
    }
}

// ---------------------------------------------------------------------------
// Named input actions

/// How a configuration binds an action to key names.
#[derive(Debug, Clone)]
pub enum InputActionConfig {
    /// A two-axis action such as movement.
    Axis2d { left: Vec<String>, right: Vec<String>, up: Vec<String>, down: Vec<String> },
    /// A button action.
    Button { keys: Vec<String> },
}

/// The input section of a project configuration: actions by name, each name
/// once.
#[derive(Debug, Clone)]
pub struct InputConfig {
    pub actions: Vec<(String, InputActionConfig)>,
}

/// An action with its keys.
#[derive(Debug)]
pub enum InputAction {
    Axis2d { left: Vec<KeyCode>, right: Vec<KeyCode>, up: Vec<KeyCode>, down: Vec<KeyCode> },
    Button { keys: Vec<KeyCode> },
}

/// An action with its keys as sequences.
pub enum InputActionView {
    Axis2d { left: Seq<KeyCode>, right: Seq<KeyCode>, up: Seq<KeyCode>, down: Seq<KeyCode> },
    Button { keys: Seq<KeyCode> },
}

impl View for InputAction {
    type V = InputActionView;

    open spec fn view(&self) -> InputActionView {
        match self {
            InputAction::Axis2d { left, right, up, down } => InputActionView::Axis2d {
                left: left@,
                right: right@,
                up: up@,
                down: down@,
            },
            InputAction::Button { keys } => InputActionView::Button { keys: keys@ },
        }
    }
}

/// The keys that a configured action binds, unknown key names left out.
pub open spec fn spec_action(config: InputActionConfig) -> InputActionView {
    match config {
        InputActionConfig::Axis2d { left, right, up, down } => InputActionView::Axis2d {
            left: spec_key_list(views(left@)),
            right: spec_key_list(views(right@)),
            up: spec_key_list(views(up@)),
            down: spec_key_list(views(down@)),
        },
        InputActionConfig::Button { keys } => InputActionView::Button {
            keys: spec_key_list(views(keys@)),
        },
    }
}

/// Whether the entries' names are distinct.
pub open spec fn names_distinct<T>(entries: Seq<(String, T)>) -> bool {
    forall|i: int, j: int|
        0 <= i < j < entries.len() ==> #[trigger] entries[i].0@ != #[trigger] entries[j].0@
}

/// An index of the entry named `name`, where there is one.
pub open spec fn index_of_name<T>(entries: Seq<(String, T)>, name: Seq<char>) -> int {
    choose|i: int| 0 <= i < entries.len() && #[trigger] entries[i].0@ == name
}

/// Whether some entry is named `name`.
pub open spec fn has_name<T>(entries: Seq<(String, T)>, name: Seq<char>) -> bool {
    exists|i: int| 0 <= i < entries.len() && #[trigger] entries[i].0@ == name
}

/// The configured actions by name.
pub open spec fn spec_config_actions(actions: Seq<(String, InputActionConfig)>) -> Map<
    Seq<char>,
    InputActionView,
> {
    Map::new(
        |name: Seq<char>| has_name(actions, name),
        |name: Seq<char>| spec_action(actions[index_of_name(actions, name)].1),
    )
}

/// The bound actions by name.
pub open spec fn spec_bound_actions(actions: Seq<(String, InputAction)>) -> Map<
    Seq<char>,
    InputActionView,
> {
    Map::new(
        |name: Seq<char>| has_name(actions, name),
        |name: Seq<char>| actions[index_of_name(actions, name)].1@,
    )
}

proof fn lemma_index_of_name<T>(entries: Seq<(String, T)>, i: int)
    requires
        names_distinct(entries),
        0 <= i < entries.len(),
    ensures
        has_name(entries, entries[i].0@),
        index_of_name(entries, entries[i].0@) == i,
{
    let name = entries[i].0@;
    assert(has_name(entries, name));
    let j = index_of_name(entries, name);
    if j < i {
        assert(entries[j].0@ != entries[i].0@);
    } else if j > i {
        assert(entries[i].0@ != entries[j].0@);
    }
}

/// Configured actions are found by their names: each configured action is
/// bound under its own name to the keys its key names read as, its axes
/// each from its own list, and no other name is bound.
pub proof fn lemma_config_actions_by_name(actions: Seq<(String, InputActionConfig)>, name: Seq<char>)
    requires
        names_distinct(actions),
    ensures
        forall|k: int| 0 <= k < actions.len() ==> #[trigger] spec_config_actions(actions).contains_key(actions[k].0@)
            && spec_config_actions(actions)[actions[k].0@] == spec_action(actions[k].1),
        spec_config_actions(actions).contains_key(name) <==> exists|k: int|
            0 <= k < actions.len() && (#[trigger] actions[k]).0@ == name,
        forall|k: int| 0 <= k < actions.len() ==> ((#[trigger] actions[k]).1 matches InputActionConfig::Axis2d {
            left,
            right,
            up,
            down,
        } ==> spec_config_actions(actions)[actions[k].0@] == (InputActionView::Axis2d {
            left: spec_key_list(views(left@)),
            right: spec_key_list(views(right@)),
            up: spec_key_list(views(up@)),
            down: spec_key_list(views(down@)),
        })),
        forall|k: int| 0 <= k < actions.len() ==> ((#[trigger] actions[k]).1 matches InputActionConfig::Button {
            keys,
        } ==> spec_config_actions(actions)[actions[k].0@] == (InputActionView::Button {
            keys: spec_key_list(views(keys@)),
        })),
{
    assert forall|k: int| 0 <= k < actions.len() implies #[trigger] spec_config_actions(actions).contains_key(
        actions[k].0@,
    ) && spec_config_actions(actions)[actions[k].0@] == spec_action(actions[k].1) by {
        lemma_index_of_name(actions, k);
    }
    assert forall|k: int| 0 <= k < actions.len() implies ((#[trigger] actions[k]).1 matches InputActionConfig::Axis2d {
        left,
        right,
        up,
        down,
    } ==> spec_config_actions(actions)[actions[k].0@] == (InputActionView::Axis2d {
        left: spec_key_list(views(left@)),
        right: spec_key_list(views(right@)),
        up: spec_key_list(views(up@)),
        down: spec_key_list(views(down@)),
    })) by {
        lemma_index_of_name(actions, k);
    }
    assert forall|k: int| 0 <= k < actions.len() implies ((#[trigger] actions[k]).1 matches InputActionConfig::Button {
        keys,
    } ==> spec_config_actions(actions)[actions[k].0@] == (InputActionView::Button {
        keys: spec_key_list(views(keys@)),
    })) by {
        lemma_index_of_name(actions, k);
    }
}

/// Named input actions bound to keys.
#[derive(Debug)]
pub struct InputActions {
    actions: Vec<(String, InputAction)>,
}

impl View for InputActions {
    type V = Map<Seq<char>, InputActionView>;

    closed spec fn view(&self) -> Map<Seq<char>, InputActionView> {
        spec_bound_actions(self.actions@)
    }
}

/// -1 where only a negative key is held, 1 where only a positive key is
/// held, 0 otherwise.
pub open spec fn spec_action_axis(pressed: Set<KeyCode>, negative: Seq<KeyCode>, positive: Seq<KeyCode>) -> i8 {
    let negative_held = exists|k: int| 0 <= k < negative.len() && pressed.contains(#[trigger] negative[k]);
    let positive_held = exists|k: int| 0 <= k < positive.len() && pressed.contains(#[trigger] positive[k]);
    if negative_held && !positive_held {
        -1i8
    } else if !negative_held && positive_held {
        1i8
    } else {
        0i8
    }
}

/// Whether any of the keys is in the set.
pub open spec fn any_key_in(keys: Seq<KeyCode>, set: Set<KeyCode>) -> bool {
    exists|k: int| 0 <= k < keys.len() && set.contains(#[trigger] keys[k])
}

/// A list of keys is held as soon as one of its keys is: no key of an
/// empty list is held, and a list with one more key is held exactly when
/// the shorter list is or the added key is.
pub proof fn lemma_any_key_grows_with_the_list(keys: Seq<KeyCode>, key: KeyCode, set: Set<KeyCode>)
    ensures
        !any_key_in(Seq::<KeyCode>::empty(), set),
        any_key_in(keys.push(key), set) <==> any_key_in(keys, set) || set.contains(key),
        any_key_in(seq![key], set) <==> set.contains(key),
{
    let longer = keys.push(key);
    assert(longer[keys.len() as int] == key);
    assert(seq![key][0] == key);
    if any_key_in(keys, set) {
        let k = choose|k: int| 0 <= k < keys.len() && set.contains(#[trigger] keys[k]);
        assert(longer[k] == keys[k]);
    }
    if any_key_in(longer, set) && !set.contains(key) {
        let k = choose|k: int| 0 <= k < longer.len() && set.contains(#[trigger] longer[k]);
        assert(longer[k] == keys[k]);
    }
}

fn any_pressed<P: Copy>(input: &InputState<P>, keys: &Vec<KeyCode>) -> (held: bool)
    ensures
        held == any_key_in(keys@, input@.pressed),
{
    let mut i: usize = 0;
    while i < keys.len()
        invariant
            i <= keys@.len(),
            forall|k: int| 0 <= k < i ==> !input@.pressed.contains(#[trigger] keys@[k]),
        decreases keys@.len() - i,
    {
        if input.pressed(keys[i]) {
            return true;
        }
        i = i + 1;
    }
    false
}

fn any_just_pressed<P: Copy>(input: &InputState<P>, keys: &Vec<KeyCode>) -> (found: bool)
    ensures
        found == any_key_in(keys@, input@.just_pressed),
{
    let mut i: usize = 0;
    while i < keys.len()
        invariant
            i <= keys@.len(),
            forall|k: int| 0 <= k < i ==> !input@.just_pressed.contains(#[trigger] keys@[k]),
        decreases keys@.len() - i,
    {
        if input.just_pressed(keys[i]) {
            return true;
        }
        i = i + 1;
    }
    false
}

fn any_just_released<P: Copy>(input: &InputState<P>, keys: &Vec<KeyCode>) -> (found: bool)
    ensures
        found == any_key_in(keys@, input@.just_released),
{
    let mut i: usize = 0;
    while i < keys.len()
        invariant
            i <= keys@.len(),
            forall|k: int| 0 <= k < i ==> !input@.just_released.contains(#[trigger] keys@[k]),
        decreases keys@.len() - i,
    {
        if input.just_released(keys[i]) {
            return true;
        }
        i = i + 1;
    }
    false
}

/// An axis follows the keys held: with no key of either list held it is 0;
/// it is -1 exactly when some negative key is held and no positive one, 1
/// exactly when some positive key is held and no negative one, and 0 when
/// keys of both lists are held.
pub proof fn lemma_axis_follows_held_keys(pressed: Set<KeyCode>, negative: Seq<KeyCode>, positive: Seq<KeyCode>)
    ensures
        (forall|k: int| 0 <= k < negative.len() ==> !pressed.contains(#[trigger] negative[k])) && (forall|k: int|
            0 <= k < positive.len() ==> !pressed.contains(#[trigger] positive[k])) ==> spec_action_axis(
            pressed,
            negative,
            positive,
        ) == 0,
        spec_action_axis(pressed, negative, positive) == -1 <==> (exists|k: int|
            0 <= k < negative.len() && pressed.contains(#[trigger] negative[k])) && (forall|k: int|
            0 <= k < positive.len() ==> !pressed.contains(#[trigger] positive[k])),
        spec_action_axis(pressed, negative, positive) == 1 <==> (exists|k: int|
            0 <= k < positive.len() && pressed.contains(#[trigger] positive[k])) && (forall|k: int|
            0 <= k < negative.len() ==> !pressed.contains(#[trigger] negative[k])),
        (exists|k: int| 0 <= k < negative.len() && pressed.contains(#[trigger] negative[k])) && (exists|k: int|
            0 <= k < positive.len() && pressed.contains(#[trigger] positive[k])) ==> spec_action_axis(
            pressed,
            negative,
            positive,
        ) == 0,
{
}

/// The axis value of two key lists: -1, 0 or 1.
pub fn action_axis<P: Copy>(input: &InputState<P>, negative: &Vec<KeyCode>, positive: &Vec<KeyCode>) -> (value: i8)
    ensures
        value == spec_action_axis(input@.pressed, negative@, positive@),
{
    let negative_held = any_pressed(input, negative);
    let positive_held = any_pressed(input, positive);
    if negative_held && !positive_held {
        -1
    } else if !negative_held && positive_held {
        1
    } else {
        0
    }
}

/// The axis value of two keys: -1, 0 or 1.
pub fn axis<P: Copy>(input: &InputState<P>, negative: KeyCode, positive: KeyCode) -> (value: i8)
    ensures
        value == spec_action_axis(input@.pressed, seq![negative], seq![positive]),
{
    let negative_held = input.pressed(negative);
    let positive_held = input.pressed(positive);
    proof {
        assert(seq![negative][0] == negative);
        assert(seq![positive][0] == positive);
    }
    if negative_held && !positive_held {
        -1
    } else if !negative_held && positive_held {
        1
    } else {
        0
    }
}

impl InputActions {
    /// No actions.
    pub fn new() -> (actions: InputActions)
        ensures
            actions@ == Map::<Seq<char>, InputActionView>::empty(),
    {
        let actions = InputActions { actions: Vec::new() };
        assert(actions@ =~= Map::<Seq<char>, InputActionView>::empty());
        actions
    }

    /// Binds each configured action to the keys that its key names give.
    pub fn from_config(config: InputConfig) -> (actions: InputActions)
        requires
            names_distinct(config.actions@),
        ensures
            actions@ == spec_config_actions(config.actions@),
    {
        let ghost configured = config.actions@;
        let mut bound: Vec<(String, InputAction)> = Vec::new();
        let mut entries = config.actions;
        let mut i: usize = 0;
        let n = entries.len();
        while i < n
            invariant
                n == configured.len(),
                i <= n,
                entries@ == configured,
                bound@.len() == i,
                forall|k: int|
                    0 <= k < i ==> (#[trigger] bound@[k]).0@ == configured[k].0@ && bound@[k].1@
                        == spec_action(configured[k].1),
            decreases n - i,
        {
            let name = entries[i].0.clone();
            let action = match &entries[i].1 {
                InputActionConfig::Axis2d { left, right, up, down } => InputAction::Axis2d {
                    left: parse_key_list(left.clone()),
                    right: parse_key_list(right.clone()),
                    up: parse_key_list(up.clone()),
                    down: parse_key_list(down.clone()),
                },
                InputActionConfig::Button { keys } => InputAction::Button {
                    keys: parse_key_list(keys.clone()),
                },
            };
            proof {
                match configured[i as int].1 {
                    InputActionConfig::Axis2d { left, right, up, down } => {
                        assert(views(left@) == views(left@));
                    },
                    InputActionConfig::Button { keys } => {},
                }
            }
            bound.push((name, action));
            i = i + 1;
        }
        let actions = InputActions { actions: bound };
        proof {
            assert forall|a: int, b: int| 0 <= a < b < bound@.len() implies #[trigger] bound@[a].0@
                != #[trigger] bound@[b].0@ by {
                assert(configured[a].0@ != configured[b].0@);
            }
            assert forall|name: Seq<char>| #[trigger] actions@.contains_key(name)
                <==> spec_config_actions(configured).contains_key(name) by {
                if has_name(bound@, name) {
                    let k = index_of_name(bound@, name);
                    assert(configured[k].0@ == name);
                }
                if has_name(configured, name) {
                    let k = index_of_name(configured, name);
                    assert(bound@[k].0@ == name);
                }
            }
            assert forall|name: Seq<char>| #[trigger] actions@.contains_key(name) implies actions@[name]
                == spec_config_actions(configured)[name] by {
                let k = index_of_name(bound@, name);
                lemma_index_of_name(bound@, k);
                lemma_index_of_name(configured, k);
            }
            assert(actions@ =~= spec_config_actions(configured));
        }
        actions
    }

    fn find(&self, name: &str) -> (found: Option<usize>)
        requires
            names_distinct(self.actions@),
        ensures
            match found {
                Some(i) => i < self.actions@.len() && self.actions@[i as int].0@ == name@
                    && self@.contains_key(name@) && self@[name@] == self.actions@[i as int].1@,
                None => !self@.contains_key(name@),
            },
    {
        let wanted = chars_of(name);
        let mut i: usize = 0;
        while i < self.actions.len()
            invariant
                i <= self.actions@.len(),
                wanted@ == name@,
                names_distinct(self.actions@),
                forall|k: int| 0 <= k < i ==> self.actions@[k].0@ != name@,
            decreases self.actions@.len() - i,
        {
            let current = chars_of(self.actions[i].0.as_str());
            if chars_equal(current.as_slice(), wanted.as_slice()) {
                proof {
                    lemma_index_of_name(self.actions@, i as int);
                }
                return Some(i);
            }
            i = i + 1;
        }
        None
    }

    /// The axes of the named two-axis action, each -1, 0 or 1; both 0 where
    /// no such action is bound.
    pub fn axis2d<P: Copy>(&self, input: &InputState<P>, name: &str) -> (value: (i8, i8))
        ensures
            match self@.get(name@) {
                Some(InputActionView::Axis2d { left, right, up, down }) => value == (
                    spec_action_axis(input@.pressed, left, right),
                    spec_action_axis(input@.pressed, up, down),
                ),
                _ => value == (0i8, 0i8),
            },
    {
        proof {
            use_type_invariant(self);
        }
        match self.find(name) {
            Some(i) => match &self.actions[i].1 {
                InputAction::Axis2d { left, right, up, down } => (
                    action_axis(input, left, right),
                    action_axis(input, up, down),
                ),
                InputAction::Button { .. } => (0, 0),
            },
            None => (0, 0),
        }
    }

    /// The keys of the named button action.
    fn button(&self, name: &str) -> (keys: Option<&Vec<KeyCode>>)
        ensures
            match self@.get(name@) {
                Some(InputActionView::Button { keys: bound }) => keys matches Some(k) && k@ == bound,
                _ => keys is None,
            },
    {
        proof {
            use_type_invariant(self);
        }
        match self.find(name) {
            Some(i) => match &self.actions[i].1 {
                InputAction::Button { keys } => Some(keys),
                InputAction::Axis2d { .. } => None,
            },
            None => None,
        }
    }

    /// Whether a key of the named button action is held.
    pub fn button_pressed<P: Copy>(&self, input: &InputState<P>, name: &str) -> (held: bool)
        ensures
            held == (self@.get(name@) matches Some(InputActionView::Button { keys }) && any_key_in(
                keys,
                input@.pressed,
            )),
    {
        match self.button(name) {
            Some(keys) => any_pressed(input, keys),
            None => false,
        }
    }

    /// Whether a key of the named button action went down this frame.
    pub fn button_just_pressed<P: Copy>(&self, input: &InputState<P>, name: &str) -> (pressed: bool)
        ensures
            pressed == (self@.get(name@) matches Some(InputActionView::Button { keys })
                && any_key_in(keys, input@.just_pressed)),
    {
        match self.button(name) {
            Some(keys) => any_just_pressed(input, keys),
            None => false,
        }
    }

    /// Whether a key of the named button action went up this frame.
    pub fn button_just_released<P: Copy>(&self, input: &InputState<P>, name: &str) -> (released:
        bool)
        ensures
            released == (self@.get(name@) matches Some(InputActionView::Button { keys })
                && any_key_in(keys, input@.just_released)),
    {
        match self.button(name) {
            Some(keys) => any_just_released(input, keys),
            None => false,
        }
    }
}

impl InputActions {
    #[verifier::type_invariant]
    spec fn distinct_names(&self) -> bool {
        names_distinct(self.actions@)
    }
}

impl Clone for InputAction {
    fn clone(&self) -> (copy: InputAction)
        ensures
            copy@ == self@,
    {
        match self {
            InputAction::Axis2d { left, right, up, down } => InputAction::Axis2d {
                left: copy_keys(left),
                right: copy_keys(right),
                up: copy_keys(up),
                down: copy_keys(down),
            },
            InputAction::Button { keys } => InputAction::Button { keys: copy_keys(keys) },
        }
    }
}

impl Clone for InputActions {
    fn clone(&self) -> (copy: InputActions)
        ensures
            copy@ == self@,
    {
        proof {
            use_type_invariant(self);
        }
        let mut actions: Vec<(String, InputAction)> = Vec::new();
        let mut i: usize = 0;
        while i < self.actions.len()
            invariant
                i <= self.actions@.len(),
                names_distinct(self.actions@),
                actions@.len() == i,
                forall|k: int|
                    0 <= k < i ==> (#[trigger] actions@[k]).0@ == self.actions@[k].0@
                        && actions@[k].1@ == self.actions@[k].1@,
            decreases self.actions@.len() - i,
        {
            let name = self.actions[i].0.clone();
            let action = self.actions[i].1.clone();
            actions.push((name, action));
            i = i + 1;
        }
        proof {
            assert forall|a: int, b: int| 0 <= a < b < actions@.len() implies #[trigger] actions@[a].0@
                != #[trigger] actions@[b].0@ by {
                assert(self.actions@[a].0@ != self.actions@[b].0@);
            }
            assert forall|name: Seq<char>| #[trigger] spec_bound_actions(actions@).contains_key(name)
                <==> self@.contains_key(name) by {
                if has_name(actions@, name) {
                    let k = index_of_name(actions@, name);
                    assert(self.actions@[k].0@ == name);
                }
                if has_name(self.actions@, name) {
                    let k = index_of_name(self.actions@, name);
                    assert(actions@[k].0@ == name);
                }
            }
            assert forall|name: Seq<char>| #[trigger] spec_bound_actions(actions@).contains_key(name)
                implies spec_bound_actions(actions@)[name] == self@[name] by {
                let k = index_of_name(actions@, name);
                lemma_index_of_name(actions@, k);
                lemma_index_of_name(self.actions@, k);
            }
            assert(spec_bound_actions(actions@) =~= self@);
        }
        InputActions { actions }
    }
}

impl Default for InputActions {
    fn default() -> (actions: InputActions)
        ensures
            actions@ == Map::<Seq<char>, InputActionView>::empty(),
    {
        InputActions::new()
    }
}

} // verus!
