use red_engine2::launch::{parse_args, DEFAULT_SCENE};
use red_engine2::player::Character;

fn args(a: &[&str]) -> Vec<String> {
    a.iter().map(|s| s.to_string()).collect()
}

#[test]
fn without_arguments_the_default_scene_and_the_menu() {
    let o = parse_args(&args(&[]), None);
    assert_eq!(o.scene, "examples/room.json");
    assert_eq!(DEFAULT_SCENE, "examples/room.json");
    assert_eq!(o.character, None);
    assert_eq!(o.rejected, 0);
}

#[test]
fn the_first_plain_argument_is_the_scene() {
    let o = parse_args(&args(&["maps/house.json", "other.json"]), None);
    assert_eq!(o.scene, "maps/house.json");
    let o = parse_args(&args(&["--as", "rat", "x.json"]), None);
    assert_eq!((o.scene.as_str(), o.character, o.rejected), ("x.json", Some(Character::Rat), 0));
}

#[test]
fn the_character_comes_from_the_option_or_the_environment() {
    assert_eq!(parse_args(&args(&["--as", "human"]), None).character, Some(Character::Human));
    assert_eq!(parse_args(&args(&["--character", " Cheddar "]), None).character, Some(Character::Rat));
    assert_eq!(parse_args(&args(&[]), Some("rat")).character, Some(Character::Rat));
    // The command line wins over the environment.
    assert_eq!(parse_args(&args(&["--as", "human"]), Some("rat")).character, Some(Character::Human));
    // An unknown environment value is ignored silently.
    let o = parse_args(&args(&[]), Some("dragon"));
    assert_eq!((o.character, o.rejected), (None, 0));
}

#[test]
fn a_bad_character_value_is_reported_and_keeps_the_previous_choice() {
    let o = parse_args(&args(&["--as", "dragon"]), None);
    assert_eq!((o.character, o.rejected), (None, 1));
    let o = parse_args(&args(&["--character", "dragon"]), Some("human"));
    assert_eq!((o.character, o.rejected), (Some(Character::Human), 1));
    // A trailing `--as` has no value.
    let o = parse_args(&args(&["a.json", "--as"]), None);
    assert_eq!((o.scene.as_str(), o.character, o.rejected), ("a.json", None, 1));
    // The option takes the next argument whatever it is.
    let o = parse_args(&args(&["--as", "--as", "rat"]), None);
    assert_eq!((o.scene.as_str(), o.character, o.rejected), ("rat", None, 1));
}
