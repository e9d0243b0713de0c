use red_engine2::player::Character;

#[test]
fn characters_parse_from_their_words_in_any_case() {
    assert_eq!(Character::parse("human"), Some(Character::Human));
    assert_eq!(Character::parse("  RAT\t"), Some(Character::Rat));
    assert_eq!(Character::parse("Cheddar"), Some(Character::Rat));
    assert_eq!(Character::parse("person"), Some(Character::Human));
    assert_eq!(Character::parse("h"), Some(Character::Human));
    assert_eq!(Character::parse("r"), Some(Character::Rat));
    assert_eq!(Character::parse("\u{3000}human\u{a0}"), Some(Character::Human));
    assert_eq!(Character::parse("mouse"), None);
    assert_eq!(Character::parse(""), None);
    assert_eq!(Character::parse("hu man"), None);
}

#[test]
fn characters_have_display_names() {
    assert_eq!(Character::Human.name(), "Human");
    assert_eq!(Character::Rat.name(), "Cheddar the rat");
    assert_eq!(Character::ALL, [Character::Human, Character::Rat]);
    // The display name of the rat is not one of its command-line words.
    assert_eq!(Character::parse(Character::Rat.name()), None);
    assert_eq!(Character::parse(Character::Human.name()), Some(Character::Human));
}
