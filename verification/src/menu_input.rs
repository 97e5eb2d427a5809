use vstd::prelude::*;

verus! {

/// The chairs a player can race in.
#[derive(PartialEq, Eq, Structural, Clone, Copy)]
pub enum Chair {
    Swivel,
    Recliner,
    Beanbag,
    Ergonomic,
    Folding,
}

/// The chair after `c` in the selection carousel.
pub open spec fn chair_after(c: Chair) -> Chair {
    match c {
        Chair::Swivel => Chair::Recliner,
        Chair::Recliner => Chair::Beanbag,
        Chair::Beanbag => Chair::Ergonomic,
        Chair::Ergonomic => Chair::Folding,
        Chair::Folding => Chair::Swivel,
    }
}

/// The chair before `c` in the selection carousel.
pub open spec fn chair_before(c: Chair) -> Chair {
    match c {
        Chair::Swivel => Chair::Folding,
        Chair::Recliner => Chair::Swivel,
        Chair::Beanbag => Chair::Recliner,
        Chair::Ergonomic => Chair::Beanbag,
        Chair::Folding => Chair::Ergonomic,
    }
}

/// The chair selected by moving right from `c`.
pub fn next_chair(c: Chair) -> (r: Chair)
    ensures
        r == chair_after(c),
{
    match c {
        Chair::Swivel => Chair::Recliner,
        Chair::Recliner => Chair::Beanbag,
        Chair::Beanbag => Chair::Ergonomic,
        Chair::Ergonomic => Chair::Folding,
        Chair::Folding => Chair::Swivel,
    }
}

/// The chair selected by moving left from `c`.
pub fn previous_chair(c: Chair) -> (r: Chair)
    ensures
        r == chair_before(c),
{
    match c {
        Chair::Swivel => Chair::Folding,
        Chair::Recliner => Chair::Swivel,
        Chair::Beanbag => Chair::Recliner,
        Chair::Ergonomic => Chair::Beanbag,
        Chair::Folding => Chair::Ergonomic,
    }
}

/// Moving right then left, or left then right, comes back to the same
/// chair; five moves in one direction go round the whole carousel.
pub proof fn lemma_chair_carousel(c: Chair)
    ensures
        chair_before(chair_after(c)) == c,
        chair_after(chair_before(c)) == c,
        chair_after(chair_after(chair_after(chair_after(chair_after(c))))) == c,
        chair_after(c) != c,
{
}

/// A key or button of the chair selection screen.
#[derive(PartialEq, Eq, Structural, Clone, Copy)]
pub enum SelectInput {
    Left,
    Right,
    Up,
    Start,
    Select,
    Other,
}

/// What the chair selection screen does for an input.
#[derive(PartialEq, Eq, Structural, Clone, Copy)]
pub enum SelectAction {
    PickChair(Chair),
    SignalReady,
    ForceStart,
    Nothing,
}

/// The action for a keyboard key on the chair selection screen, where the
/// player sits on `current`: right and left pick the next and previous
/// chair, up signals ready.
pub fn keyboard_select_action(key: SelectInput, current: Chair) -> (a: SelectAction)
    ensures
        key == SelectInput::Right ==> a == SelectAction::PickChair(chair_after(current)),
        key == SelectInput::Left ==> a == SelectAction::PickChair(chair_before(current)),
        key == SelectInput::Up ==> a == SelectAction::SignalReady,
        !(key == SelectInput::Right || key == SelectInput::Left || key == SelectInput::Up) ==> a
            == SelectAction::Nothing,
{
    match key {
        SelectInput::Right => SelectAction::PickChair(next_chair(current)),
        SelectInput::Left => SelectAction::PickChair(previous_chair(current)),
        SelectInput::Up => SelectAction::SignalReady,
        _ => SelectAction::Nothing,
    }
}

/// The action for a gamepad button on the chair selection screen. Only a
/// fully pressed button acts: select forces the start, start signals ready,
/// the pad's right and left pick the next and previous chair.
pub fn gamepad_select_action(button: SelectInput, fully_pressed: bool, current: Chair) -> (a: SelectAction)
    ensures
        !fully_pressed ==> a == SelectAction::Nothing,
        fully_pressed && button == SelectInput::Select ==> a == SelectAction::ForceStart,
        fully_pressed && button == SelectInput::Start ==> a == SelectAction::SignalReady,
        fully_pressed && button == SelectInput::Right ==> a == SelectAction::PickChair(
            chair_after(current),
        ),
        fully_pressed && button == SelectInput::Left ==> a == SelectAction::PickChair(
            chair_before(current),
        ),
        fully_pressed && (button == SelectInput::Up || button == SelectInput::Other) ==> a
            == SelectAction::Nothing,
{
    if !fully_pressed {
        return SelectAction::Nothing;
    }
    match button {
        SelectInput::Select => SelectAction::ForceStart,
        SelectInput::Start => SelectAction::SignalReady,
        SelectInput::Right => SelectAction::PickChair(next_chair(current)),
        SelectInput::Left => SelectAction::PickChair(previous_chair(current)),
        _ => SelectAction::Nothing,
    }
}

/// A key that drives the chair in a race.
#[derive(PartialEq, Eq, Structural, Clone, Copy)]
pub enum DriveKey {
    W,
    S,
    A,
    D,
    Other,
}

/// What a key sends to the server in a race: full throttle, braking, a
/// full-strength spin either way, or the release of the engine or the spin.
#[derive(PartialEq, Eq, Structural, Clone, Copy)]
pub enum DriveInput {
    Accelerate,
    Brake,
    SpinCounterclockwise,
    SpinClockwise,
    EngineNeutral,
    NotInSpin,
}

/// The input that a key press sends: W accelerates, S brakes, A spins
/// counterclockwise, D clockwise; other keys send nothing.
pub fn keyboard_drive_input(key: DriveKey) -> (r: Option<DriveInput>)
    ensures
        key == DriveKey::W ==> r == Some(DriveInput::Accelerate),
        key == DriveKey::S ==> r == Some(DriveInput::Brake),
        key == DriveKey::A ==> r == Some(DriveInput::SpinCounterclockwise),
        key == DriveKey::D ==> r == Some(DriveInput::SpinClockwise),
        key == DriveKey::Other ==> r is None,
{
    match key {
        DriveKey::W => Some(DriveInput::Accelerate),
        DriveKey::S => Some(DriveInput::Brake),
        DriveKey::A => Some(DriveInput::SpinCounterclockwise),
        DriveKey::D => Some(DriveInput::SpinClockwise),
        DriveKey::Other => None,
    }
}

/// The input that releasing a key sends: the engine goes neutral after
/// accelerating or braking, the spin stops after spinning; nothing else.
pub fn invert_event(event: Option<DriveInput>) -> (r: Option<DriveInput>)
    ensures
        (event == Some(DriveInput::Accelerate) || event == Some(DriveInput::Brake)) ==> r == Some(
            DriveInput::EngineNeutral,
        ),
        (event == Some(DriveInput::SpinClockwise) || event == Some(DriveInput::SpinCounterclockwise))
            ==> r == Some(DriveInput::NotInSpin),
        !(event == Some(DriveInput::Accelerate) || event == Some(DriveInput::Brake) || event == Some(
            DriveInput::SpinClockwise,
        ) || event == Some(DriveInput::SpinCounterclockwise)) ==> r is None,
{
    match event {
        Some(DriveInput::Accelerate) => Some(DriveInput::EngineNeutral),
        Some(DriveInput::Brake) => Some(DriveInput::EngineNeutral),
        Some(DriveInput::SpinClockwise) => Some(DriveInput::NotInSpin),
        Some(DriveInput::SpinCounterclockwise) => Some(DriveInput::NotInSpin),
        _ => None,
    }
}

/// The keys held down, by key code. The window system repeats key-down
/// events while a key is held; only the first one counts.
pub struct PressedKeys {
    keys: Vec<u32>,
}

impl PressedKeys {
    /// The key codes held down.
    pub closed spec fn held(&self) -> Set<u32> {
        self.keys@.to_set()
    }

    /// No key held.
    pub fn new() -> (p: Self)
        ensures
            p.held() == Set::<u32>::empty(),
    {
        let p = PressedKeys { keys: Vec::new() };
        assert(p.held() =~= Set::<u32>::empty());
        p
    }

    /// Whether `key` is held.
    pub fn contains(&self, key: u32) -> (r: bool)
        ensures
            r == self.held().contains(key),
    {
        let mut i: usize = 0;
        while i < self.keys.len()
            invariant
                i <= self.keys@.len(),
                forall|j: int| 0 <= j < i ==> self.keys@[j] != key,
            decreases self.keys@.len() - i,
        {
            if self.keys[i] == key {
                assert(self.keys@.contains(key));
                return true;
            }
            i = i + 1;
        }
        false
    }

    /// Records a key-down event; returns whether it is a new press (the key
    /// was not held), which is the only one to act on.
    pub fn press(&mut self, key: u32) -> (fresh: bool)
        ensures
            fresh == !old(self).held().contains(key),
            final(self).held() == old(self).held().insert(key),
    {
        if self.contains(key) {
            assert(old(self).held().insert(key) =~= old(self).held());
            false
        } else {
            self.keys.push(key);
            proof {
                old(self).keys@.lemma_push_to_set_commute(key);
            }
            true
        }
    }

    /// Records a key-up event.
    pub fn release(&mut self, key: u32)
        ensures
            final(self).held() == old(self).held().remove(key),
    {
        let mut kept: Vec<u32> = Vec::new();
        let mut i: usize = 0;
        while i < self.keys.len()
            invariant
                i <= self.keys@.len(),
                kept@.to_set() == self.keys@.take(i as int).to_set().remove(key),
            decreases self.keys@.len() - i,
        {
            let k = self.keys[i];
            proof {
                assert(self.keys@.take(i + 1) =~= self.keys@.take(i as int).push(k));
                self.keys@.take(i as int).lemma_push_to_set_commute(k);
            }
            if k != key {
                let ghost kept_before = kept@;
                kept.push(k);
                proof {
                    kept_before.lemma_push_to_set_commute(k);
                }
                assert(kept@.to_set() =~= self.keys@.take(i + 1).to_set().remove(key));
            } else {
                assert(kept@.to_set() =~= self.keys@.take(i + 1).to_set().remove(key));
            }
            i = i + 1;
        }
        proof {
            assert(self.keys@.take(i as int) =~= self.keys@);
        }
        self.keys = kept;
    }
}

/// A key press is acted on once: pressing a held key again does nothing
/// until the key is released.
pub proof fn lemma_press_once(held: Set<u32>, key: u32)
    ensures
        held.insert(key).contains(key),
        !held.insert(key).remove(key).contains(key),
{
}

} // verus!
