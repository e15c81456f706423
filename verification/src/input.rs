use vstd::prelude::*;

verus! {

/// The keys that the viewer binds to a camera control; every other key is
/// [`Key::Other`].
#[derive(Clone, Copy, Debug, PartialEq, Eq, Structural)]
pub enum Key {
    W,
    Up,
    S,
    Down,
    A,
    Left,
    D,
    Right,
    Space,
    R,
    LShift,
    LControl,
    F,
    Q,
    E,
    T,
    G,
    Other,
}

/// The camera controls that a key can hold down.
#[derive(Clone, Copy, Debug, PartialEq, Eq, Structural)]
pub enum Control {
    Forward,
    Backward,
    Left,
    Right,
    Up,
    Down,
    YawLeft,
    YawRight,
    PitchUp,
    PitchDown,
}

/// The control that `key` is bound to, if any.
pub open spec fn binding(key: Key) -> Option<Control> {
    match key {
        Key::W | Key::Up => Some(Control::Forward),
        Key::S | Key::Down => Some(Control::Backward),
        Key::A | Key::Left => Some(Control::Left),
        Key::D | Key::Right => Some(Control::Right),
        Key::Space | Key::R => Some(Control::Up),
        Key::LShift | Key::LControl | Key::F => Some(Control::Down),
        Key::Q => Some(Control::YawLeft),
        Key::E => Some(Control::YawRight),
        Key::T => Some(Control::PitchUp),
        Key::G => Some(Control::PitchDown),
        Key::Other => None,
    }
}

/// The control that a key event touches: none when no key code came with it.
pub open spec fn event_binding(key: Option<Key>) -> Option<Control> {
    match key {
        Some(k) => binding(k),
        None => None,
    }
}

/// Each control is bound to exactly these keys: forward to W and the up
/// arrow, backward to S and the down arrow, left to A and the left arrow,
/// right to D and the right arrow, up to Space and R, down to left Shift,
/// left Control and F, yaw left to Q, yaw right to E, pitch up to T and
/// pitch down to G; [`Key::Other`] to none.
pub proof fn lemma_keys_of_each_control(key: Key)
    ensures
        binding(key) == Some(Control::Forward) <==> (key == Key::W || key == Key::Up),
        binding(key) == Some(Control::Backward) <==> (key == Key::S || key == Key::Down),
        binding(key) == Some(Control::Left) <==> (key == Key::A || key == Key::Left),
        binding(key) == Some(Control::Right) <==> (key == Key::D || key == Key::Right),
        binding(key) == Some(Control::Up) <==> (key == Key::Space || key == Key::R),
        binding(key) == Some(Control::Down) <==> (key == Key::LShift || key == Key::LControl || key
            == Key::F),
        binding(key) == Some(Control::YawLeft) <==> key == Key::Q,
        binding(key) == Some(Control::YawRight) <==> key == Key::E,
        binding(key) == Some(Control::PitchUp) <==> key == Key::T,
        binding(key) == Some(Control::PitchDown) <==> key == Key::G,
        binding(key) is None <==> key == Key::Other,
{
}

/// Looks up the control that `key` is bound to.
pub fn control_for_key(key: Key) -> (c: Option<Control>)
    ensures
        c == binding(key),
{
    match key {
        Key::W | Key::Up => Some(Control::Forward),
        Key::S | Key::Down => Some(Control::Backward),
        Key::A | Key::Left => Some(Control::Left),
        Key::D | Key::Right => Some(Control::Right),
        Key::Space | Key::R => Some(Control::Up),
        Key::LShift | Key::LControl | Key::F => Some(Control::Down),
        Key::Q => Some(Control::YawLeft),
        Key::E => Some(Control::YawRight),
        Key::T => Some(Control::PitchUp),
        Key::G => Some(Control::PitchDown),
        Key::Other => None,
    }
}

/// Which camera controls are held down.
#[derive(Clone, Copy, Debug)]
pub struct InputState {
    pub is_forward_pressed: bool,
    pub is_backward_pressed: bool,
    pub is_left_pressed: bool,
    pub is_right_pressed: bool,
    pub is_up_pressed: bool,
    pub is_down_pressed: bool,
    pub is_yaw_left_pressed: bool,
    pub is_yaw_right_pressed: bool,
    pub is_pitch_up_pressed: bool,
    pub is_pitch_down_pressed: bool,
}

impl Default for InputState {
    /// No control held down.
    fn default() -> (s: Self)
        ensures
            forall|c: Control| !#[trigger] s.is_held(c),
    {
        InputState {
            is_forward_pressed: false,
            is_backward_pressed: false,
            is_left_pressed: false,
            is_right_pressed: false,
            is_up_pressed: false,
            is_down_pressed: false,
            is_yaw_left_pressed: false,
            is_yaw_right_pressed: false,
            is_pitch_up_pressed: false,
            is_pitch_down_pressed: false,
        }
    }
}

impl InputState {
    /// Whether control `c` is held down.
    pub open spec fn is_held(self, c: Control) -> bool {
        match c {
            Control::Forward => self.is_forward_pressed,
            Control::Backward => self.is_backward_pressed,
            Control::Left => self.is_left_pressed,
            Control::Right => self.is_right_pressed,
            Control::Up => self.is_up_pressed,
            Control::Down => self.is_down_pressed,
            Control::YawLeft => self.is_yaw_left_pressed,
            Control::YawRight => self.is_yaw_right_pressed,
            Control::PitchUp => self.is_pitch_up_pressed,
            Control::PitchDown => self.is_pitch_down_pressed,
        }
    }

    /// The state after a key event: the control the key is bound to is held
    /// exactly when the key is pressed; every other control stays.
    pub open spec fn after_key(self, key: Option<Key>, pressed: bool) -> InputState {
        match event_binding(key) {
            Some(c) => self.with(c, pressed),
            None => self,
        }
    }

    /// The state with control `c` held exactly when `held`.
    pub open spec fn with(self, c: Control, held: bool) -> InputState {
        match c {
            Control::Forward => InputState { is_forward_pressed: held, ..self },
            Control::Backward => InputState { is_backward_pressed: held, ..self },
            Control::Left => InputState { is_left_pressed: held, ..self },
            Control::Right => InputState { is_right_pressed: held, ..self },
            Control::Up => InputState { is_up_pressed: held, ..self },
            Control::Down => InputState { is_down_pressed: held, ..self },
            Control::YawLeft => InputState { is_yaw_left_pressed: held, ..self },
            Control::YawRight => InputState { is_yaw_right_pressed: held, ..self },
            Control::PitchUp => InputState { is_pitch_up_pressed: held, ..self },
            Control::PitchDown => InputState { is_pitch_down_pressed: held, ..self },
        }
    }

    /// Holds or releases control `c`.
    pub fn set(&mut self, c: Control, held: bool)
        ensures
            *final(self) == old(self).with(c, held),
    {
        let cur = *self;
        *self = match c {
            Control::Forward => InputState { is_forward_pressed: held, ..cur },
            Control::Backward => InputState { is_backward_pressed: held, ..cur },
            Control::Left => InputState { is_left_pressed: held, ..cur },
            Control::Right => InputState { is_right_pressed: held, ..cur },
            Control::Up => InputState { is_up_pressed: held, ..cur },
            Control::Down => InputState { is_down_pressed: held, ..cur },
            Control::YawLeft => InputState { is_yaw_left_pressed: held, ..cur },
            Control::YawRight => InputState { is_yaw_right_pressed: held, ..cur },
            Control::PitchUp => InputState { is_pitch_up_pressed: held, ..cur },
            Control::PitchDown => InputState { is_pitch_down_pressed: held, ..cur },
        };
    }

    /// Applies a keyboard event: `key` is the key code that came with it, if
    /// any, and `pressed` whether the key went down (else up).
    pub fn process_key(&mut self, key: Option<Key>, pressed: bool)
        ensures
            *final(self) == old(self).after_key(key, pressed),
            forall|c: Control|
                #[trigger] final(self).is_held(c) == if event_binding(key) == Some(c) {
                    pressed
                } else {
                    old(self).is_held(c)
                },
            key is None ==> *final(self) == *old(self),
            key matches Some(k) ==> forall|c: Control|
                #[trigger] final(self).is_held(c) == if binding(k) == Some(c) {
                    pressed
                } else {
                    old(self).is_held(c)
                },
    {
        proof {
            lemma_codeless_event_changes_nothing(*old(self), pressed);
        }
        if let Some(k) = key {
            if let Some(c) = control_for_key(k) {
                self.set(c, pressed);
            }
        }
    }
}

/// A direction that the camera translates along; its length and value are
/// the caller's to compute.
#[derive(Clone, Copy, Debug, PartialEq, Eq, Structural)]
pub enum Axis {
    /// From the camera's position towards its target.
    Forward,
    /// Perpendicular to the forward direction and the camera's up vector.
    Right,
    /// The world's vertical axis.
    WorldUp,
}

/// One translation of a frame: the camera position and its target each move
/// by the step vector along `axis`, added where the sign is `1` and
/// subtracted where it is `-1`.
#[derive(Clone, Copy, Debug, PartialEq, Eq, Structural)]
pub struct MoveStep {
    pub axis: Axis,
    pub position_sign: i8,
    pub target_sign: i8,
}

/// `seq![step]` when `held`, else the empty sequence.
pub open spec fn step_if(held: bool, step: MoveStep) -> Seq<MoveStep> {
    if held {
        seq![step]
    } else {
        Seq::empty()
    }
}

impl InputState {
    /// The translations of one frame, in the order in which they apply:
    /// forward, backward, left, right, up, down, each when held. Moving right
    /// moves the position along the right axis and the target against it.
    pub open spec fn movement_plan(self) -> Seq<MoveStep> {
        step_if(self.is_forward_pressed, MoveStep { axis: Axis::Forward, position_sign: 1i8, target_sign: 1i8 })
            + step_if(self.is_backward_pressed, MoveStep { axis: Axis::Forward, position_sign: -1i8, target_sign: -1i8 })
            + step_if(self.is_left_pressed, MoveStep { axis: Axis::Right, position_sign: -1i8, target_sign: -1i8 })
            + step_if(self.is_right_pressed, MoveStep { axis: Axis::Right, position_sign: 1i8, target_sign: -1i8 })
            + step_if(self.is_up_pressed, MoveStep { axis: Axis::WorldUp, position_sign: 1i8, target_sign: 1i8 })
            + step_if(self.is_down_pressed, MoveStep { axis: Axis::WorldUp, position_sign: -1i8, target_sign: -1i8 })
    }

    /// The translations that the held controls call for this frame.
    pub fn movement_steps(&self) -> (steps: Vec<MoveStep>)
        ensures
            steps@ == self.movement_plan(),
            forall|idx: int|
                0 <= idx < steps.len() ==> {
                    let st = #[trigger] steps@[idx];
                    &&& st.position_sign == 1 || st.position_sign == -1
                    &&& st.target_sign == 1 || st.target_sign == -1
                    &&& served_control(st) is Some
                    &&& self.is_held(served_control(st)->0)
                    &&& translation_rank(served_control(st)->0) < 6
                },
            forall|a: int, b: int|
                0 <= a < b < steps.len() ==> #[trigger] served_rank(steps@[a]) < #[trigger] served_rank(
                    steps@[b],
                ),
            forall|c: Control|
                translation_rank(c) < 6 && #[trigger] self.is_held(c) ==> exists|idx: int|
                    0 <= idx < steps.len() && #[trigger] served_control(steps@[idx]) == Some(c),
    {
        let steps = self.plan_steps();
        proof {
            lemma_movement_plan_serves_held(*self);
        }
        steps
    }

    fn plan_steps(&self) -> (steps: Vec<MoveStep>)
        ensures
            steps@ == self.movement_plan(),
    {
        let mut steps: Vec<MoveStep> = Vec::new();
        if self.is_forward_pressed {
            steps.push(MoveStep { axis: Axis::Forward, position_sign: 1, target_sign: 1 });
        }
        if self.is_backward_pressed {
            steps.push(MoveStep { axis: Axis::Forward, position_sign: -1, target_sign: -1 });
        }
        if self.is_left_pressed {
            steps.push(MoveStep { axis: Axis::Right, position_sign: -1, target_sign: -1 });
        }
        if self.is_right_pressed {
            steps.push(MoveStep { axis: Axis::Right, position_sign: 1, target_sign: -1 });
        }
        if self.is_up_pressed {
            steps.push(MoveStep { axis: Axis::WorldUp, position_sign: 1, target_sign: 1 });
        }
        if self.is_down_pressed {
            steps.push(MoveStep { axis: Axis::WorldUp, position_sign: -1, target_sign: -1 });
        }
        steps
    }

    /// The sense of this frame's yaw: `1` to the left, `-1` to the right,
    /// `0` for none. Yawing left wins when both are held.
    pub fn yaw_direction(&self) -> (d: i8)
        ensures
            d == if self.is_yaw_left_pressed {
                1
            } else if self.is_yaw_right_pressed {
                -1
            } else {
                0
            },
    {
        if self.is_yaw_left_pressed {
            1
        } else if self.is_yaw_right_pressed {
            -1
        } else {
            0
        }
    }

    /// The sense of this frame's pitch: `1` up, `-1` down, `0` for none.
    /// Pitching up wins when both are held.
    pub fn pitch_direction(&self) -> (d: i8)
        ensures
            d == if self.is_pitch_up_pressed {
                1
            } else if self.is_pitch_down_pressed {
                -1
            } else {
                0
            },
    {
        if self.is_pitch_up_pressed {
            1
        } else if self.is_pitch_down_pressed {
            -1
        } else {
            0
        }
    }
}

/// The translation control that a step serves, read off its axis and signs:
/// along the forward axis `1, 1` is moving forward and `-1, -1` backward;
/// along the right axis `-1, -1` is moving left and `1, -1` right; along the
/// world's vertical `1, 1` is moving up and `-1, -1` down. Any other step
/// serves no control.
pub open spec fn served_control(st: MoveStep) -> Option<Control> {
    if st.axis == Axis::Forward && st.position_sign == 1 && st.target_sign == 1 {
        Some(Control::Forward)
    } else if st.axis == Axis::Forward && st.position_sign == -1 && st.target_sign == -1 {
        Some(Control::Backward)
    } else if st.axis == Axis::Right && st.position_sign == -1 && st.target_sign == -1 {
        Some(Control::Left)
    } else if st.axis == Axis::Right && st.position_sign == 1 && st.target_sign == -1 {
        Some(Control::Right)
    } else if st.axis == Axis::WorldUp && st.position_sign == 1 && st.target_sign == 1 {
        Some(Control::Up)
    } else if st.axis == Axis::WorldUp && st.position_sign == -1 && st.target_sign == -1 {
        Some(Control::Down)
    } else {
        None
    }
}

/// The place of a translation control in the order in which a frame applies
/// translations (forward, backward, left, right, up, down: 0 to 5); 6 for
/// the rotation controls.
pub open spec fn translation_rank(c: Control) -> int {
    match c {
        Control::Forward => 0,
        Control::Backward => 1,
        Control::Left => 2,
        Control::Right => 3,
        Control::Up => 4,
        Control::Down => 5,
        _ => 6,
    }
}

/// The rank of the control a step serves; 6 when it serves none.
pub open spec fn served_rank(st: MoveStep) -> int {
    match served_control(st) {
        Some(c) => translation_rank(c),
        None => 6,
    }
}

/// `steps` serves only held translation controls of rank below `k`, each at
/// most once and in rank order, and serves every held one of rank below `k`.
spec fn serves_held_below(s: InputState, steps: Seq<MoveStep>, k: int) -> bool {
    &&& forall|idx: int|
        0 <= idx < steps.len() ==> {
            &&& #[trigger] served_control(steps[idx]) is Some
            &&& s.is_held(served_control(steps[idx])->0)
            &&& served_rank(steps[idx]) < k
        }
    &&& forall|a: int, b: int|
        0 <= a < b < steps.len() ==> #[trigger] served_rank(steps[a]) < #[trigger] served_rank(steps[b])
    &&& forall|c: Control|
        translation_rank(c) < k && #[trigger] s.is_held(c) ==> exists|idx: int|
            0 <= idx < steps.len() && #[trigger] served_control(steps[idx]) == Some(c)
}

proof fn lemma_serves_extend(s: InputState, p: Seq<MoveStep>, k: int, c: Control, st: MoveStep)
    requires
        serves_held_below(s, p, k),
        served_control(st) == Some(c),
        translation_rank(c) == k,
    ensures
        serves_held_below(s, p + step_if(s.is_held(c), st), k + 1),
{
    let q = p + step_if(s.is_held(c), st);
    assert forall|idx: int| 0 <= idx < p.len() implies q[idx] == p[idx] by {}
    if s.is_held(c) {
        assert(q.len() == p.len() + 1);
        assert(q[p.len() as int] == st);
    } else {
        assert(q =~= p);
    }
    assert forall|idx: int| 0 <= idx < q.len() implies {
        &&& #[trigger] served_control(q[idx]) is Some
        &&& s.is_held(served_control(q[idx])->0)
        &&& served_rank(q[idx]) < k + 1
    } by {
        if idx < p.len() {
            assert(served_control(p[idx]) is Some);
        }
    }
    assert forall|a: int, b: int| 0 <= a < b < q.len() implies #[trigger] served_rank(q[a])
        < #[trigger] served_rank(q[b]) by {
        if b < p.len() {
            assert(served_rank(p[a]) < served_rank(p[b]));
        } else {
            assert(served_control(p[a]) is Some);
        }
    }
    assert forall|d: Control| translation_rank(d) < k + 1 && #[trigger] s.is_held(d) implies exists|idx: int|
        0 <= idx < q.len() && #[trigger] served_control(q[idx]) == Some(d) by {
        if translation_rank(d) < k {
            let idx = choose|idx: int| 0 <= idx < p.len() && #[trigger] served_control(p[idx]) == Some(d);
            assert(q[idx] == p[idx]);
        } else {
            assert(d == c);
            assert(served_control(q[p.len() as int]) == Some(d));
        }
    }
}

/// A frame's translations are exactly the held translation controls, each
/// once, in the order forward, backward, left, right, up, down: every step
/// serves a held translation control (so both of its signs are 1 or -1),
/// steps come in strictly increasing order of the control they serve, and
/// every held translation control is served by some step. A released
/// control is served by none.
pub proof fn lemma_movement_plan_serves_held(s: InputState)
    ensures
        forall|idx: int|
            0 <= idx < s.movement_plan().len() ==> {
                let st = #[trigger] s.movement_plan()[idx];
                &&& st.position_sign == 1 || st.position_sign == -1
                &&& st.target_sign == 1 || st.target_sign == -1
                &&& served_control(st) is Some
                &&& s.is_held(served_control(st)->0)
                &&& translation_rank(served_control(st)->0) < 6
            },
        forall|a: int, b: int|
            0 <= a < b < s.movement_plan().len() ==> #[trigger] served_rank(s.movement_plan()[a])
                < #[trigger] served_rank(s.movement_plan()[b]),
        forall|c: Control|
            translation_rank(c) < 6 && #[trigger] s.is_held(c) ==> exists|idx: int|
                0 <= idx < s.movement_plan().len() && #[trigger] served_control(s.movement_plan()[idx])
                    == Some(c),
        forall|c: Control, idx: int|
            0 <= idx < s.movement_plan().len() && #[trigger] served_control(s.movement_plan()[idx])
                == Some(c) ==> #[trigger] s.is_held(c),
{
    let f = MoveStep { axis: Axis::Forward, position_sign: 1i8, target_sign: 1i8 };
    let b = MoveStep { axis: Axis::Forward, position_sign: -1i8, target_sign: -1i8 };
    let l = MoveStep { axis: Axis::Right, position_sign: -1i8, target_sign: -1i8 };
    let r = MoveStep { axis: Axis::Right, position_sign: 1i8, target_sign: -1i8 };
    let u = MoveStep { axis: Axis::WorldUp, position_sign: 1i8, target_sign: 1i8 };
    let d = MoveStep { axis: Axis::WorldUp, position_sign: -1i8, target_sign: -1i8 };
    let e = Seq::<MoveStep>::empty();
    assert(serves_held_below(s, e, 0));
    assert(e + step_if(s.is_forward_pressed, f) =~= step_if(s.is_forward_pressed, f));
    lemma_serves_extend(s, e, 0, Control::Forward, f);
    let p0 = step_if(s.is_forward_pressed, f);
    lemma_serves_extend(s, p0, 1, Control::Backward, b);
    let p1 = p0 + step_if(s.is_backward_pressed, b);
    lemma_serves_extend(s, p1, 2, Control::Left, l);
    let p2 = p1 + step_if(s.is_left_pressed, l);
    lemma_serves_extend(s, p2, 3, Control::Right, r);
    let p3 = p2 + step_if(s.is_right_pressed, r);
    lemma_serves_extend(s, p3, 4, Control::Up, u);
    let p4 = p3 + step_if(s.is_up_pressed, u);
    lemma_serves_extend(s, p4, 5, Control::Down, d);
    let p5 = p4 + step_if(s.is_down_pressed, d);
    assert(p5 == s.movement_plan());
    let plan = s.movement_plan();
    assert forall|idx: int| 0 <= idx < plan.len() implies {
        let st = #[trigger] plan[idx];
        &&& st.position_sign == 1 || st.position_sign == -1
        &&& st.target_sign == 1 || st.target_sign == -1
        &&& served_control(st) is Some
        &&& s.is_held(served_control(st)->0)
        &&& translation_rank(served_control(st)->0) < 6
    } by {
        assert(served_control(plan[idx]) is Some);
    }
}

/// `1` for a held control, `0` for a released one.
pub open spec fn held_count(b: bool) -> int {
    if b {
        1
    } else {
        0
    }
}

/// How far one step moves the position (or, when `target`, the target)
/// along `axis`, in step vectors.
pub open spec fn step_shift(step: MoveStep, axis: Axis, target: bool) -> int {
    if step.axis != axis {
        0
    } else if target {
        step.target_sign as int
    } else {
        step.position_sign as int
    }
}

/// How far a sequence of steps moves the position (or, when `target`, the
/// target) along `axis` in all, in step vectors.
pub open spec fn net_shift(steps: Seq<MoveStep>, axis: Axis, target: bool) -> int
    decreases steps.len(),
{
    if steps.len() == 0 {
        0
    } else {
        net_shift(steps.drop_last(), axis, target) + step_shift(steps.last(), axis, target)
    }
}

proof fn lemma_net_shift_concat(a: Seq<MoveStep>, b: Seq<MoveStep>, axis: Axis, target: bool)
    ensures
        net_shift(a + b, axis, target) == net_shift(a, axis, target) + net_shift(b, axis, target),
    decreases b.len(),
{
    if b.len() == 0 {
        assert(a + b =~= a);
    } else {
        assert((a + b).drop_last() =~= a + b.drop_last());
        assert((a + b).last() == b.last());
        lemma_net_shift_concat(a, b.drop_last(), axis, target);
    }
}

proof fn lemma_net_shift_step_if(held: bool, step: MoveStep, axis: Axis, target: bool)
    ensures
        net_shift(step_if(held, step), axis, target) == held_count(held) * step_shift(step, axis, target),
{
    let e = Seq::<MoveStep>::empty();
    assert(net_shift(e, axis, target) == 0);
    if held {
        let one = step_if(held, step);
        assert(one.len() == 1);
        assert(one.drop_last() =~= e);
        assert(one.last() == step);
    }
}

/// A frame's translations add up, per axis, to the difference of the
/// opposing controls: forward minus backward along the forward axis, up
/// minus down along the world's vertical, right minus left for the position
/// along the right axis. Position and target move alike except along the
/// right axis, where moving right or left both move the target left.
pub proof fn lemma_net_translation(s: InputState)
    ensures
        net_shift(s.movement_plan(), Axis::Forward, false) == held_count(s.is_forward_pressed)
            - held_count(s.is_backward_pressed),
        net_shift(s.movement_plan(), Axis::Forward, true) == held_count(s.is_forward_pressed)
            - held_count(s.is_backward_pressed),
        net_shift(s.movement_plan(), Axis::WorldUp, false) == held_count(s.is_up_pressed)
            - held_count(s.is_down_pressed),
        net_shift(s.movement_plan(), Axis::WorldUp, true) == held_count(s.is_up_pressed)
            - held_count(s.is_down_pressed),
        net_shift(s.movement_plan(), Axis::Right, false) == held_count(s.is_right_pressed)
            - held_count(s.is_left_pressed),
        net_shift(s.movement_plan(), Axis::Right, true) == -held_count(s.is_right_pressed)
            - held_count(s.is_left_pressed),
{
    let f = MoveStep { axis: Axis::Forward, position_sign: 1i8, target_sign: 1i8 };
    let b = MoveStep { axis: Axis::Forward, position_sign: -1i8, target_sign: -1i8 };
    let l = MoveStep { axis: Axis::Right, position_sign: -1i8, target_sign: -1i8 };
    let r = MoveStep { axis: Axis::Right, position_sign: 1i8, target_sign: -1i8 };
    let u = MoveStep { axis: Axis::WorldUp, position_sign: 1i8, target_sign: 1i8 };
    let d = MoveStep { axis: Axis::WorldUp, position_sign: -1i8, target_sign: -1i8 };
    let p0 = step_if(s.is_forward_pressed, f);
    let p1 = p0 + step_if(s.is_backward_pressed, b);
    let p2 = p1 + step_if(s.is_left_pressed, l);
    let p3 = p2 + step_if(s.is_right_pressed, r);
    let p4 = p3 + step_if(s.is_up_pressed, u);
    let p5 = p4 + step_if(s.is_down_pressed, d);
    assert(p5 == s.movement_plan());
    assert forall|axis: Axis, target: bool|
        #[trigger] net_shift(s.movement_plan(), axis, target) == held_count(s.is_forward_pressed)
            * step_shift(f, axis, target) + held_count(s.is_backward_pressed) * step_shift(b, axis, target)
            + held_count(s.is_left_pressed) * step_shift(l, axis, target) + held_count(s.is_right_pressed)
            * step_shift(r, axis, target) + held_count(s.is_up_pressed) * step_shift(u, axis, target)
            + held_count(s.is_down_pressed) * step_shift(d, axis, target) by {
        lemma_net_shift_step_if(s.is_forward_pressed, f, axis, target);
        lemma_net_shift_step_if(s.is_backward_pressed, b, axis, target);
        lemma_net_shift_step_if(s.is_left_pressed, l, axis, target);
        lemma_net_shift_step_if(s.is_right_pressed, r, axis, target);
        lemma_net_shift_step_if(s.is_up_pressed, u, axis, target);
        lemma_net_shift_step_if(s.is_down_pressed, d, axis, target);
        lemma_net_shift_concat(p0, step_if(s.is_backward_pressed, b), axis, target);
        lemma_net_shift_concat(p1, step_if(s.is_left_pressed, l), axis, target);
        lemma_net_shift_concat(p2, step_if(s.is_right_pressed, r), axis, target);
        lemma_net_shift_concat(p3, step_if(s.is_up_pressed, u), axis, target);
        lemma_net_shift_concat(p4, step_if(s.is_down_pressed, d), axis, target);
    }
}

/// While moving right is not held, every translation moves the camera's
/// position and its target alike, so the direction of view is kept.
pub proof fn lemma_translation_keeps_direction(s: InputState)
    requires
        !s.is_right_pressed,
    ensures
        forall|idx: int|
            0 <= idx < s.movement_plan().len() ==> #[trigger] s.movement_plan()[idx].position_sign
                == s.movement_plan()[idx].target_sign,
{
    let plan = s.movement_plan();
    assert forall|idx: int| 0 <= idx < plan.len() implies #[trigger] plan[idx].position_sign
        == plan[idx].target_sign by {
        assert(plan.contains(plan[idx]));
    }
}

/// Setting a control changes whether that control is held and no other.
proof fn lemma_with_held(s: InputState, c: Control, held: bool)
    ensures
        forall|d: Control| #[trigger] s.with(c, held).is_held(d) == if c == d { held } else { s.is_held(d) },
{
}

/// Two states that hold the same controls are the same state.
proof fn lemma_same_held(a: InputState, b: InputState)
    requires
        forall|c: Control| #[trigger] a.is_held(c) == b.is_held(c),
    ensures
        a == b,
{
    assert(a.is_held(Control::Forward) == b.is_held(Control::Forward));
    assert(a.is_held(Control::Backward) == b.is_held(Control::Backward));
    assert(a.is_held(Control::Left) == b.is_held(Control::Left));
    assert(a.is_held(Control::Right) == b.is_held(Control::Right));
    assert(a.is_held(Control::Up) == b.is_held(Control::Up));
    assert(a.is_held(Control::Down) == b.is_held(Control::Down));
    assert(a.is_held(Control::YawLeft) == b.is_held(Control::YawLeft));
    assert(a.is_held(Control::YawRight) == b.is_held(Control::YawRight));
    assert(a.is_held(Control::PitchUp) == b.is_held(Control::PitchUp));
    assert(a.is_held(Control::PitchDown) == b.is_held(Control::PitchDown));
}

/// What a key event holds and releases.
proof fn lemma_after_key_held(s: InputState, key: Option<Key>, pressed: bool)
    ensures
        forall|d: Control|
            #[trigger] s.after_key(key, pressed).is_held(d) == if event_binding(key) == Some(d) {
                pressed
            } else {
                s.is_held(d)
            },
{
    if let Some(c) = event_binding(key) {
        lemma_with_held(s, c, pressed);
    }
}

/// Key events that touch different controls can be applied in either order.
pub proof fn lemma_key_events_commute(
    s: InputState,
    k1: Option<Key>,
    p1: bool,
    k2: Option<Key>,
    p2: bool,
)
    requires
        event_binding(k1) != event_binding(k2) || p1 == p2,
    ensures
        s.after_key(k1, p1).after_key(k2, p2) == s.after_key(k2, p2).after_key(k1, p1),
{
    let a = s.after_key(k1, p1);
    let b = s.after_key(k2, p2);
    lemma_after_key_held(s, k1, p1);
    lemma_after_key_held(s, k2, p2);
    lemma_after_key_held(a, k2, p2);
    lemma_after_key_held(b, k1, p1);
    lemma_same_held(a.after_key(k2, p2), b.after_key(k1, p1));
}

/// Applying the same key event twice has the effect of applying it once.
pub proof fn lemma_key_event_idempotent(s: InputState, key: Option<Key>, pressed: bool)
    ensures
        s.after_key(key, pressed).after_key(key, pressed) == s.after_key(key, pressed),
{
    let a = s.after_key(key, pressed);
    lemma_after_key_held(s, key, pressed);
    lemma_after_key_held(a, key, pressed);
    lemma_same_held(a.after_key(key, pressed), a);
}

/// Keys bound to the same control have the same effect (`W` and the up
/// arrow, say); keys bound to no control, and events without a key code,
/// have none.
pub proof fn lemma_bound_keys_alike(s: InputState, k1: Option<Key>, k2: Option<Key>, pressed: bool)
    ensures
        event_binding(k1) == event_binding(k2) ==> s.after_key(k1, pressed) == s.after_key(k2, pressed),
        event_binding(k1) is None ==> s.after_key(k1, pressed) == s,
{
    lemma_after_key_held(s, k1, pressed);
    lemma_after_key_held(s, k2, pressed);
    if event_binding(k1) == event_binding(k2) {
        lemma_same_held(s.after_key(k1, pressed), s.after_key(k2, pressed));
    }
    if event_binding(k1) is None {
        lemma_same_held(s.after_key(k1, pressed), s);
    }
}

/// A key event that came without a key code holds and releases nothing:
/// every control stays as it was, whether the event is a press or a release.
pub proof fn lemma_codeless_event_changes_nothing(s: InputState, pressed: bool)
    ensures
        s.after_key(None, pressed) == s,
        forall|c: Control| #[trigger] s.after_key(None, pressed).is_held(c) == s.is_held(c),
{
    lemma_after_key_held(s, None, pressed);
    lemma_same_held(s.after_key(None, pressed), s);
}

/// Pressing a bound key and releasing it again leaves the control released,
/// and every other control as it was.
pub proof fn lemma_press_release(s: InputState, key: Key)
    requires
        binding(key) is Some,
    ensures
        forall|c: Control|
            #[trigger] s.after_key(Some(key), true).after_key(Some(key), false).is_held(c) == if binding(
                key,
            ) == Some(c) {
                false
            } else {
                s.is_held(c)
            },
{
    let a = s.after_key(Some(key), true);
    lemma_after_key_held(s, Some(key), true);
    lemma_after_key_held(a, Some(key), false);
}

} // verus!
