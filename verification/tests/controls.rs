use red_engine2::controls::{
    attack, interaction, menu_action, menu_step, session_start, Attack, Gait, HeldKeys, Interaction, Key, KeyEffects, MenuAction, MenuEvent, Phase,
    Session, SessionAction, ViewMode, Weapon,
};
use red_engine2::player::Character;

#[test]
fn the_menu_keyboard() {
    let h = Character::Rat;
    assert_eq!(menu_action(Key::Digit1, h), MenuAction::Start(Character::Human));
    assert_eq!(menu_action(Key::Numpad1, h), MenuAction::Start(Character::Human));
    assert_eq!(menu_action(Key::Digit2, Character::Human), MenuAction::Start(Character::Rat));
    assert_eq!(menu_action(Key::Numpad2, Character::Human), MenuAction::Start(Character::Rat));
    assert_eq!(menu_action(Key::ArrowLeft, h), MenuAction::Highlight(Character::Human));
    assert_eq!(menu_action(Key::KeyA, h), MenuAction::Highlight(Character::Human));
    assert_eq!(menu_action(Key::ArrowRight, Character::Human), MenuAction::Highlight(Character::Rat));
    assert_eq!(menu_action(Key::KeyD, Character::Human), MenuAction::Highlight(Character::Rat));
    for k in [Key::Enter, Key::NumpadEnter, Key::Space] {
        assert_eq!(menu_action(k, h), MenuAction::Start(Character::Rat));
        assert_eq!(menu_action(k, Character::Human), MenuAction::Start(Character::Human));
    }
    assert_eq!(menu_action(Key::Escape, h), MenuAction::Exit);
    assert_eq!(menu_action(Key::KeyW, h), MenuAction::Nothing);
    assert_eq!(menu_action(Key::Other, h), MenuAction::Nothing);
}

fn none() -> KeyEffects {
    KeyEffects { release_grab: false, sprint_held: None, jump: false, toggle_fullscreen: false, toggle_view: false, interact: false }
}

#[test]
fn held_keys_are_a_set() {
    let mut k = HeldKeys::new();
    assert!(!k.contains(Key::KeyW));
    k.press(Key::KeyW);
    k.press(Key::KeyW);
    k.press(Key::KeyA);
    assert!(k.contains(Key::KeyW) && k.contains(Key::KeyA));
    k.release(Key::KeyW);
    assert!(!k.contains(Key::KeyW) && k.contains(Key::KeyA));
    k.release(Key::KeyW);
    k.release(Key::KeyA);
    assert!(!k.contains(Key::KeyA));
}

#[test]
fn one_shot_keys_fire_once_per_press() {
    let mut k = HeldKeys::new();
    assert_eq!(k.key_event(Key::Space, true, true), KeyEffects { jump: true, ..none() });
    // Key repeat while held does nothing more.
    assert_eq!(k.key_event(Key::Space, true, true), none());
    assert_eq!(k.key_event(Key::Space, false, true), none());
    assert_eq!(k.key_event(Key::Space, true, true), KeyEffects { jump: true, ..none() });
    assert_eq!(k.key_event(Key::KeyF, true, false), KeyEffects { toggle_fullscreen: true, ..none() });
    assert_eq!(k.key_event(Key::KeyQ, true, false), KeyEffects { toggle_view: true, ..none() });
    // E only while the mouse is captured.
    assert_eq!(k.key_event(Key::KeyE, true, false), none());
    k.key_event(Key::KeyE, false, false);
    assert_eq!(k.key_event(Key::KeyE, true, true), KeyEffects { interact: true, ..none() });
    // Escape releases the mouse on every press; Shift sets the sprint modifier both ways.
    assert_eq!(k.key_event(Key::Escape, true, true), KeyEffects { release_grab: true, ..none() });
    assert_eq!(k.key_event(Key::Escape, true, true), KeyEffects { release_grab: true, ..none() });
    assert_eq!(k.key_event(Key::ShiftLeft, true, true), KeyEffects { sprint_held: Some(true), ..none() });
    assert_eq!(k.key_event(Key::ShiftRight, false, true), KeyEffects { sprint_held: Some(false), ..none() });
    assert!(k.contains(Key::ShiftLeft) && !k.contains(Key::ShiftRight));
}

#[test]
fn crouch_beats_sprint_and_there_is_no_sprinting_backward() {
    let mut k = HeldKeys::new();
    k.press(Key::KeyW);
    let m = k.move_intent(true, true);
    assert!(m.forward && !m.back && m.sprinting && !m.crouching);
    assert_eq!(m.gait(), Gait::Sprint);
    assert_eq!(k.move_intent(false, true).gait(), Gait::Walk);
    assert_eq!(k.move_intent(true, false).gait(), Gait::Walk, "a body that cannot sprint walks");
    k.press(Key::ControlRight);
    let m = k.move_intent(true, true);
    assert!(m.crouching && !m.sprinting);
    assert_eq!(m.gait(), Gait::Crouch);
    k.release(Key::ControlRight);
    k.press(Key::ArrowDown);
    let m = k.move_intent(true, true);
    assert!(m.forward && m.back && !m.sprinting);
    k.press(Key::ArrowLeft);
    k.press(Key::KeyD);
    let m = k.move_intent(false, true);
    assert!(m.left && m.right);
}

#[test]
fn e_drops_what_is_carried_before_picking_anything_up() {
    assert_eq!(interaction(true, Some(3)), Interaction::Drop);
    assert_eq!(interaction(true, None), Interaction::Drop);
    assert_eq!(interaction(false, Some(3)), Interaction::PickUp(3));
    assert_eq!(interaction(false, None), Interaction::Nothing);
}

#[test]
fn q_switches_between_the_two_views() {
    assert_eq!(ViewMode::FirstPerson.toggled(), ViewMode::ThirdPerson);
    assert_eq!(ViewMode::ThirdPerson.toggled(), ViewMode::FirstPerson);
    assert_eq!(ViewMode::FirstPerson.toggled().toggled(), ViewMode::FirstPerson);
}

#[test]
fn a_forced_character_skips_the_menu() {
    assert_eq!(
        session_start(Some(Character::Rat)),
        (Session { phase: Phase::Playing, character: Character::Rat }, SessionAction::StartGame(Character::Rat))
    );
    assert_eq!(
        session_start(None),
        (Session { phase: Phase::Menu, character: Character::Human }, SessionAction::Nothing)
    );
}

#[test]
fn the_menu_flow_highlights_then_starts_once() {
    let (s, _) = session_start(None);
    let (s, a) = menu_step(s, MenuEvent::Hover(Character::Rat));
    assert_eq!((s, a), (Session { phase: Phase::Menu, character: Character::Rat }, SessionAction::Nothing));
    let (s, a) = menu_step(s, MenuEvent::Key(Key::ArrowLeft));
    assert_eq!((s.character, a), (Character::Human, SessionAction::Nothing));
    let (s, a) = menu_step(s, MenuEvent::Key(Key::KeyW));
    assert_eq!((s.phase, a), (Phase::Menu, SessionAction::Nothing));
    let (s, a) = menu_step(s, MenuEvent::Key(Key::Enter));
    assert_eq!((s, a), (Session { phase: Phase::Playing, character: Character::Human }, SessionAction::StartGame(Character::Human)));
    // Once playing, the menu's inputs do nothing.
    for ev in [MenuEvent::Key(Key::Digit2), MenuEvent::Key(Key::Escape), MenuEvent::Hover(Character::Rat), MenuEvent::Click(Character::Rat)] {
        assert_eq!(menu_step(s, ev), (s, SessionAction::Nothing));
    }
}

#[test]
fn clicking_or_a_digit_starts_and_escape_quits() {
    let (s, _) = session_start(None);
    assert_eq!(menu_step(s, MenuEvent::Click(Character::Rat)).1, SessionAction::StartGame(Character::Rat));
    assert_eq!(menu_step(s, MenuEvent::Key(Key::Numpad2)).1, SessionAction::StartGame(Character::Rat));
    assert_eq!(menu_step(s, MenuEvent::Key(Key::Escape)), (s, SessionAction::Exit));
}

#[test]
fn clicks_attack_with_the_weapon_in_hand_unless_carrying() {
    assert_eq!(attack(true, true, false, false, Weapon::Bat), Attack::Swing);
    assert_eq!(attack(true, true, false, false, Weapon::Revolver), Attack::Fire);
    assert_eq!(attack(false, true, false, false, Weapon::Bat), Attack::Nothing);
    assert_eq!(attack(true, true, true, false, Weapon::Bat), Attack::Nothing, "no swing while carrying");
    assert_eq!(attack(true, true, false, true, Weapon::Revolver), Attack::Nothing, "not mid-switch");
    assert_eq!(attack(true, false, false, false, Weapon::Bat), Attack::Nothing, "the rat has no weapons");
}
