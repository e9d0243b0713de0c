//! What the game's keys mean: the launch menu's keyboard, the keys held while playing, the
//! one-shot actions a fresh key press triggers, and the movement the held keys ask for. The window
//! system's events are translated into [`Key`]s by the caller, which also carries the actions out.
use vstd::prelude::*;
use crate::player::Character;

verus! {

/// The keys the game reacts to; every other key is `Other`.
#[derive(Debug, Clone, Copy, PartialEq, Eq, Structural)]
pub enum Key {
    Digit1,
    Digit2,
    Numpad1,
    Numpad2,
    ArrowLeft,
    ArrowRight,
    ArrowUp,
    ArrowDown,
    KeyA,
    KeyD,
    KeyW,
    KeyS,
    KeyE,
    KeyF,
    KeyQ,
    Enter,
    NumpadEnter,
    Space,
    Escape,
    ShiftLeft,
    ShiftRight,
    ControlLeft,
    ControlRight,
    Other,
}

/// What a key press on the launch menu does.
#[derive(Debug, Clone, Copy, PartialEq, Eq, Structural)]
pub enum MenuAction {
    /// Leave the menu and play as this character.
    Start(Character),
    /// Move the highlight to this character.
    Highlight(Character),
    /// Quit the program.
    Exit,
    /// Nothing.
    Nothing,
}

/// The launch menu's keyboard: 1 / 2 pick and start, arrows / A / D move the highlight, Enter or
/// Space start with the highlighted character, Escape quits.
pub open spec fn menu_action_spec(key: Key, highlighted: Character) -> MenuAction {
    match key {
        Key::Digit1 | Key::Numpad1 => MenuAction::Start(Character::Human),
        Key::Digit2 | Key::Numpad2 => MenuAction::Start(Character::Rat),
        Key::ArrowLeft | Key::KeyA => MenuAction::Highlight(Character::Human),
        Key::ArrowRight | Key::KeyD => MenuAction::Highlight(Character::Rat),
        Key::Enter | Key::NumpadEnter | Key::Space => MenuAction::Start(highlighted),
        Key::Escape => MenuAction::Exit,
        _ => MenuAction::Nothing,
    }
}

/// What pressing `key` on the launch menu does while `highlighted` is highlighted.
pub fn menu_action(key: Key, highlighted: Character) -> (r: MenuAction)
    ensures
        r == menu_action_spec(key, highlighted),
{
    match key {
        Key::Digit1 | Key::Numpad1 => MenuAction::Start(Character::Human),
        Key::Digit2 | Key::Numpad2 => MenuAction::Start(Character::Rat),
        Key::ArrowLeft | Key::KeyA => MenuAction::Highlight(Character::Human),
        Key::ArrowRight | Key::KeyD => MenuAction::Highlight(Character::Rat),
        Key::Enter | Key::NumpadEnter | Key::Space => MenuAction::Start(highlighted),
        Key::Escape => MenuAction::Exit,
        _ => MenuAction::Nothing,
    }
}

/// The one-shot effects of a key event while playing.
#[derive(Debug, Clone, Copy, PartialEq, Eq, Structural)]
pub struct KeyEffects {
    /// Release the mouse (Escape pressed).
    pub release_grab: bool,
    /// The new state of the sprint modifier, if the key was a Shift key.
    pub sprint_held: Option<bool>,
    /// Queue a jump (Space freshly pressed).
    pub jump: bool,
    /// Toggle fullscreen (F freshly pressed).
    pub toggle_fullscreen: bool,
    /// Toggle first / third person (Q freshly pressed).
    pub toggle_view: bool,
    /// Pick up or drop (E freshly pressed while the mouse is captured).
    pub interact: bool,
}

/// The effects of `key` going down (`pressed`) or up while `was_held` tells whether it was
/// already down (a repeat) and `grabbed` whether the mouse is captured.
pub open spec fn key_effects_spec(key: Key, pressed: bool, was_held: bool, grabbed: bool) -> KeyEffects {
    let fresh = pressed && !was_held;
    KeyEffects {
        release_grab: key == Key::Escape && pressed,
        sprint_held: if key == Key::ShiftLeft || key == Key::ShiftRight {
            Some(pressed)
        } else {
            None
        },
        jump: key == Key::Space && fresh,
        toggle_fullscreen: key == Key::KeyF && fresh,
        toggle_view: key == Key::KeyQ && fresh,
        interact: key == Key::KeyE && fresh && grabbed,
    }
}

/// How the player wants to move this tick.
#[derive(Debug, Clone, Copy, PartialEq, Eq, Structural)]
pub struct MoveIntent {
    /// W or Up held.
    pub forward: bool,
    /// S or Down held.
    pub back: bool,
    /// D or Right held.
    pub right: bool,
    /// A or Left held.
    pub left: bool,
    /// A Ctrl key held.
    pub crouching: bool,
    /// Sprinting: Shift held, moving forward and not back, not crouching, and the body can sprint.
    pub sprinting: bool,
}

/// The speed class of a move.
#[derive(Debug, Clone, Copy, PartialEq, Eq, Structural)]
pub enum Gait {
    Crouch,
    Sprint,
    Walk,
}

/// The movement the held keys `held` ask for, with the sprint modifier down iff `sprint_held`
/// and `can_sprint` telling whether the body sprints faster than it walks.
pub open spec fn move_intent_spec(held: Set<Key>, sprint_held: bool, can_sprint: bool) -> MoveIntent {
    let forward = held.contains(Key::KeyW) || held.contains(Key::ArrowUp);
    let back = held.contains(Key::KeyS) || held.contains(Key::ArrowDown);
    let crouching = held.contains(Key::ControlLeft) || held.contains(Key::ControlRight);
    MoveIntent {
        forward,
        back,
        right: held.contains(Key::KeyD) || held.contains(Key::ArrowRight),
        left: held.contains(Key::KeyA) || held.contains(Key::ArrowLeft),
        crouching,
        sprinting: sprint_held && forward && !back && !crouching && can_sprint,
    }
}

/// The speed class of `m`: crouching always wins, then sprinting.
pub open spec fn gait_spec(m: MoveIntent) -> Gait {
    if m.crouching {
        Gait::Crouch
    } else if m.sprinting {
        Gait::Sprint
    } else {
        Gait::Walk
    }
}

impl MoveIntent {
    /// The speed class of this move.
    pub fn gait(&self) -> (r: Gait)
        ensures
            r == gait_spec(*self),
    {
        if self.crouching {
            Gait::Crouch
        } else if self.sprinting {
            Gait::Sprint
        } else {
            Gait::Walk
        }
    }
}

/// Crouching always wins and there is no sprinting backward: from any held keys, a crouch is a
/// crouch, and a sprint moves forward and not back.
pub proof fn lemma_gait_rules(held: Set<Key>, sprint_held: bool, can_sprint: bool)
    ensures
        move_intent_spec(held, sprint_held, can_sprint).crouching ==> gait_spec(
            move_intent_spec(held, sprint_held, can_sprint),
        ) == Gait::Crouch,
        gait_spec(move_intent_spec(held, sprint_held, can_sprint)) == Gait::Sprint ==> {
            &&& move_intent_spec(held, sprint_held, can_sprint).forward
            &&& !move_intent_spec(held, sprint_held, can_sprint).back
            &&& sprint_held
            &&& can_sprint
        },
{
}

/// The keys held down while playing.
pub struct HeldKeys {
    keys: Vec<Key>,
}

impl View for HeldKeys {
    type V = Set<Key>;

    closed spec fn view(&self) -> Set<Key> {
        self.keys@.to_set()
    }
}

impl HeldKeys {
    /// No key held.
    pub fn new() -> (r: Self)
        ensures
            r@ == Set::<Key>::empty(),
    {
        let r = HeldKeys { keys: Vec::new() };
        assert(r@ =~= Set::<Key>::empty());
        r
    }

    /// Whether `key` is held.
    pub fn contains(&self, key: Key) -> (r: bool)
        ensures
            r == self@.contains(key),
    {
        let mut i: usize = 0;
        while i < self.keys.len()
            invariant
                0 <= i <= self.keys@.len(),
                forall|j: int| 0 <= j < i ==> self.keys@[j] != key,
            decreases self.keys@.len() - i,
        {
            if self.keys[i] == key {
                proof {
                    assert(self.keys@.contains(key));
                }
                return true;
            }
            i = i + 1;
        }
        false
    }

    /// Records `key` going down.
    pub fn press(&mut self, key: Key)
        ensures
            final(self)@ == old(self)@.insert(key),
    {
        if !self.contains(key) {
            self.keys.push(key);
        }
        proof {
            assert forall|k: Key| #[trigger] self@.contains(k) == old(self)@.insert(key).contains(k) by {
                if old(self).keys@.contains(k) {
                    let j = choose|j: int| 0 <= j < old(self).keys@.len() && old(self).keys@[j] == k;
                    assert(self.keys@[j] == k);
                }
                if k == key && !old(self).keys@.contains(key) {
                    assert(self.keys@[self.keys@.len() - 1] == key);
                }
            };
            assert(self@ =~= old(self)@.insert(key));
        }
    }

    /// Records `key` going up.
    pub fn release(&mut self, key: Key)
        ensures
            final(self)@ == old(self)@.remove(key),
    {
        let ghost before = self.keys@;
        let mut kept: Vec<Key> = Vec::new();
        let mut i: usize = 0;
        while i < self.keys.len()
            invariant
                self.keys@ == before,
                0 <= i <= before.len(),
                forall|j: int|
                    0 <= j < kept@.len() ==> #[trigger] kept@[j] != key && exists|m: int|
                        0 <= m < i && before[m] == kept@[j],
                forall|m: int| 0 <= m < i && #[trigger] before[m] != key ==> kept@.contains(before[m]),
            decreases before.len() - i,
        {
            let k = self.keys[i];
            let ghost old_kept = kept@;
            if k != key {
                kept.push(k);
            }
            proof {
                assert forall|j: int| 0 <= j < kept@.len() implies #[trigger] kept@[j] != key && exists|m: int|
                    0 <= m < i + 1 && before[m] == kept@[j] by {
                    if j < old_kept.len() {
                        assert(kept@[j] == old_kept[j]);
                        let m = choose|m: int| 0 <= m < i && before[m] == old_kept[j];
                        assert(before[m] == kept@[j]);
                    } else {
                        assert(before[i as int] == kept@[j]);
                    }
                };
                assert forall|m: int| 0 <= m < i + 1 && #[trigger] before[m] != key implies kept@.contains(before[m]) by {
                    if m < i {
                        let j = choose|j: int| 0 <= j < old_kept.len() && old_kept[j] == before[m];
                        assert(kept@[j] == before[m]);
                    } else {
                        assert(kept@[kept@.len() - 1] == before[m]);
                    }
                };
            }
            i = i + 1;
        }
        self.keys = kept;
        proof {
            assert forall|x: Key| #[trigger] self@.contains(x) == old(self)@.remove(key).contains(x) by {
                if self.keys@.contains(x) {
                    let j = choose|j: int| 0 <= j < self.keys@.len() && self.keys@[j] == x;
                    assert(self.keys@[j] != key);
                    let m = choose|m: int| 0 <= m < before.len() && before[m] == self.keys@[j];
                    assert(before.contains(x));
                }
                if before.contains(x) && x != key {
                    let m = choose|m: int| 0 <= m < before.len() && before[m] == x;
                    assert(self.keys@.contains(before[m]));
                }
            };
            assert(self@ =~= old(self)@.remove(key));
        }
    }

    /// Handles `key` going down (`pressed`) or up while playing, with the mouse captured iff
    /// `grabbed`: updates the held keys and returns the one-shot effects (a key that was already
    /// held does not fire again).
    pub fn key_event(&mut self, key: Key, pressed: bool, grabbed: bool) -> (r: KeyEffects)
        ensures
            r == key_effects_spec(key, pressed, old(self)@.contains(key), grabbed),
            final(self)@ == if pressed {
                old(self)@.insert(key)
            } else {
                old(self)@.remove(key)
            },
    {
        let was_held = self.contains(key);
        let fresh = pressed && !was_held;
        let shift = key == Key::ShiftLeft || key == Key::ShiftRight;
        let r = KeyEffects {
            release_grab: key == Key::Escape && pressed,
            sprint_held: if shift {
                Some(pressed)
            } else {
                None
            },
            jump: key == Key::Space && fresh,
            toggle_fullscreen: key == Key::KeyF && fresh,
            toggle_view: key == Key::KeyQ && fresh,
            interact: key == Key::KeyE && fresh && grabbed,
        };
        if pressed {
            self.press(key);
        } else {
            self.release(key);
        }
        r
    }

    /// The movement the held keys ask for (see [`move_intent_spec`]).
    pub fn move_intent(&self, sprint_held: bool, can_sprint: bool) -> (r: MoveIntent)
        ensures
            r == move_intent_spec(self@, sprint_held, can_sprint),
            r.forward == (self@.contains(Key::KeyW) || self@.contains(Key::ArrowUp)),
            r.back == (self@.contains(Key::KeyS) || self@.contains(Key::ArrowDown)),
            r.right == (self@.contains(Key::KeyD) || self@.contains(Key::ArrowRight)),
            r.left == (self@.contains(Key::KeyA) || self@.contains(Key::ArrowLeft)),
            r.crouching == (self@.contains(Key::ControlLeft) || self@.contains(Key::ControlRight)),
            r.sprinting == (sprint_held && can_sprint && (self@.contains(Key::KeyW) || self@.contains(Key::ArrowUp))
                && !self@.contains(Key::KeyS) && !self@.contains(Key::ArrowDown) && !self@.contains(Key::ControlLeft)
                && !self@.contains(Key::ControlRight)),
    {
        let forward = self.contains(Key::KeyW) || self.contains(Key::ArrowUp);
        let back = self.contains(Key::KeyS) || self.contains(Key::ArrowDown);
        let crouching = self.contains(Key::ControlLeft) || self.contains(Key::ControlRight);
        MoveIntent {
            forward,
            back,
            right: self.contains(Key::KeyD) || self.contains(Key::ArrowRight),
            left: self.contains(Key::KeyA) || self.contains(Key::ArrowLeft),
            crouching,
            sprinting: sprint_held && forward && !back && !crouching && can_sprint,
        }
    }
}

/// What E does: drop what is carried, else pick up the prop under the crosshair, if any.
#[derive(Debug, Clone, Copy, PartialEq, Eq, Structural)]
pub enum Interaction {
    Drop,
    PickUp(usize),
    Nothing,
}

/// What pressing E does while carrying something iff `carrying`, with `target` the liftable
/// prop under the crosshair.
pub fn interaction(carrying: bool, target: Option<usize>) -> (r: Interaction)
    ensures
        r == if carrying {
            Interaction::Drop
        } else {
            match target {
                Some(p) => Interaction::PickUp(p),
                None => Interaction::Nothing,
            }
        },
{
    if carrying {
        Interaction::Drop
    } else {
        match target {
            Some(p) => Interaction::PickUp(p),
            None => Interaction::Nothing,
        }
    }
}

/// Where the camera is.
#[derive(Debug, Clone, Copy, PartialEq, Eq, Structural)]
pub enum ViewMode {
    /// At the player's eye.
    FirstPerson,
    /// Pulled back behind and above the player's body.
    ThirdPerson,
}

impl ViewMode {
    /// The other view (what Q switches to).
    pub fn toggled(self) -> (r: ViewMode)
        ensures
            r != self,
    {
        match self {
            ViewMode::FirstPerson => ViewMode::ThirdPerson,
            ViewMode::ThirdPerson => ViewMode::FirstPerson,
        }
    }
}

/// Whether the launch menu or the game is showing.
#[derive(Debug, Clone, Copy, PartialEq, Eq, Structural)]
pub enum Phase {
    Menu,
    Playing,
}

/// The launch flow's state: what is showing, and the highlighted (later: the chosen) character.
#[derive(Debug, Clone, Copy, PartialEq, Eq, Structural)]
pub struct Session {
    pub phase: Phase,
    pub character: Character,
}

/// An input on the launch menu. The caller finds the character under the cursor.
#[derive(Debug, Clone, Copy, PartialEq, Eq, Structural)]
pub enum MenuEvent {
    /// A key went down.
    Key(Key),
    /// The cursor moved over this character's half of the window.
    Hover(Character),
    /// The left button was clicked over this character's half.
    Click(Character),
}

/// What the caller does after a launch-flow step.
#[derive(Debug, Clone, Copy, PartialEq, Eq, Structural)]
pub enum SessionAction {
    /// Nothing.
    Nothing,
    /// Build the game for this character and start playing.
    StartGame(Character),
    /// Quit the program.
    Exit,
}

/// The launch flow's first state: with a character forced by the command line the game starts at
/// once as that character; otherwise the menu shows with the human highlighted.
pub open spec fn session_start_spec(forced: Option<Character>) -> (Session, SessionAction) {
    match forced {
        Some(c) => (Session { phase: Phase::Playing, character: c }, SessionAction::StartGame(c)),
        None => (Session { phase: Phase::Menu, character: Character::Human }, SessionAction::Nothing),
    }
}

/// One launch-flow step: menu inputs act only while the menu shows (see [`menu_action_spec`]);
/// hovering highlights, clicking starts.
pub open spec fn menu_step_spec(s: Session, ev: MenuEvent) -> (Session, SessionAction) {
    if s.phase == Phase::Playing {
        (s, SessionAction::Nothing)
    } else {
        match ev {
            MenuEvent::Key(k) => match menu_action_spec(k, s.character) {
                MenuAction::Start(c) => (Session { phase: Phase::Playing, character: c }, SessionAction::StartGame(c)),
                MenuAction::Highlight(c) => (Session { phase: Phase::Menu, character: c }, SessionAction::Nothing),
                MenuAction::Exit => (s, SessionAction::Exit),
                MenuAction::Nothing => (s, SessionAction::Nothing),
            },
            MenuEvent::Hover(c) => (Session { phase: Phase::Menu, character: c }, SessionAction::Nothing),
            MenuEvent::Click(c) => (Session { phase: Phase::Playing, character: c }, SessionAction::StartGame(c)),
        }
    }
}

/// The launch flow's first state and action for the character forced by the command line, if any.
pub fn session_start(forced: Option<Character>) -> (r: (Session, SessionAction))
    ensures
        r == session_start_spec(forced),
{
    match forced {
        Some(c) => (Session { phase: Phase::Playing, character: c }, SessionAction::StartGame(c)),
        None => (Session { phase: Phase::Menu, character: Character::Human }, SessionAction::Nothing),
    }
}

/// The launch flow's next state and action after `ev`.
pub fn menu_step(s: Session, ev: MenuEvent) -> (r: (Session, SessionAction))
    ensures
        r == menu_step_spec(s, ev),
{
    match s.phase {
        Phase::Playing => (s, SessionAction::Nothing),
        Phase::Menu => match ev {
            MenuEvent::Key(k) => match menu_action(k, s.character) {
                MenuAction::Start(c) => (Session { phase: Phase::Playing, character: c }, SessionAction::StartGame(c)),
                MenuAction::Highlight(c) => (Session { phase: Phase::Menu, character: c }, SessionAction::Nothing),
                MenuAction::Exit => (s, SessionAction::Exit),
                MenuAction::Nothing => (s, SessionAction::Nothing),
            },
            MenuEvent::Hover(c) => (Session { phase: Phase::Menu, character: c }, SessionAction::Nothing),
            MenuEvent::Click(c) => (Session { phase: Phase::Playing, character: c }, SessionAction::StartGame(c)),
        },
    }
}

/// The game starts exactly once, as the character it names: a step starts the game only from the
/// menu, and then the session is playing that character; once playing, menu inputs change nothing.
pub proof fn lemma_start_once(s: Session, ev: MenuEvent)
    ensures
        menu_step_spec(s, ev).1 is StartGame ==> {
            &&& s.phase == Phase::Menu
            &&& menu_step_spec(s, ev).0 == (Session {
                phase: Phase::Playing,
                character: menu_step_spec(s, ev).1->StartGame_0,
            })
        },
        s.phase == Phase::Playing ==> menu_step_spec(s, ev) == (s, SessionAction::Nothing),
{
}

/// The weapon in the human's hand.
#[derive(Debug, Clone, Copy, PartialEq, Eq, Structural)]
pub enum Weapon {
    Bat,
    Revolver,
}

/// What a queued left-click does on the next simulation tick.
#[derive(Debug, Clone, Copy, PartialEq, Eq, Structural)]
pub enum Attack {
    Nothing,
    /// Start a bat swing.
    Swing,
    /// Fire the revolver.
    Fire,
}

/// A queued click attacks only for a body that has weapons (`has_bat`: the human, not the rat),
/// and not while carrying a prop or switching weapons; then the weapon in hand decides.
pub open spec fn attack_spec(queued: bool, has_bat: bool, carrying: bool, switching: bool, weapon: Weapon) -> Attack {
    if queued && has_bat && !carrying && !switching {
        match weapon {
            Weapon::Bat => Attack::Swing,
            Weapon::Revolver => Attack::Fire,
        }
    } else {
        Attack::Nothing
    }
}

/// What the tick does with a queued click (`queued`), see [`attack_spec`].
pub fn attack(queued: bool, has_bat: bool, carrying: bool, switching: bool, weapon: Weapon) -> (r: Attack)
    ensures
        r == attack_spec(queued, has_bat, carrying, switching, weapon),
{
    if queued && has_bat && !carrying && !switching {
        match weapon {
            Weapon::Bat => Attack::Swing,
            Weapon::Revolver => Attack::Fire,
        }
    } else {
        Attack::Nothing
    }
}

/// Nobody attacks while carrying a prop, and the rat (no bat) never attacks.
pub proof fn lemma_no_attack_while_carrying(queued: bool, has_bat: bool, switching: bool, weapon: Weapon)
    ensures
        attack_spec(queued, has_bat, true, switching, weapon) == Attack::Nothing,
        attack_spec(queued, false, false, switching, weapon) == Attack::Nothing,
{
}

/// What the held keys mean for movement: W or Up moves forward, S or Down back, D or Right to the
/// right, A or Left to the left, a Ctrl key crouches; a sprint needs Shift, a body that sprints
/// faster than it walks, W or Up, and neither S, Down nor a Ctrl key.
pub proof fn lemma_move_intent_keys(held: Set<Key>, sprint_held: bool, can_sprint: bool)
    ensures
        move_intent_spec(held, sprint_held, can_sprint).forward == (held.contains(Key::KeyW) || held.contains(Key::ArrowUp)),
        move_intent_spec(held, sprint_held, can_sprint).back == (held.contains(Key::KeyS) || held.contains(Key::ArrowDown)),
        move_intent_spec(held, sprint_held, can_sprint).right == (held.contains(Key::KeyD) || held.contains(Key::ArrowRight)),
        move_intent_spec(held, sprint_held, can_sprint).left == (held.contains(Key::KeyA) || held.contains(Key::ArrowLeft)),
        move_intent_spec(held, sprint_held, can_sprint).crouching == (held.contains(Key::ControlLeft) || held.contains(
            Key::ControlRight,
        )),
        move_intent_spec(held, sprint_held, can_sprint).sprinting == (sprint_held && can_sprint && (held.contains(Key::KeyW)
            || held.contains(Key::ArrowUp)) && !held.contains(Key::KeyS) && !held.contains(Key::ArrowDown) && !held.contains(
            Key::ControlLeft,
        ) && !held.contains(Key::ControlRight)),
{
}

} // verus!
