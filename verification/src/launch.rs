//! The game's command line: `re2 [scene.json] [--as human|rat]`, the character also coming from
//! the `RE2_CHARACTER` environment variable; without one the launch menu asks.
use vstd::prelude::*;
use crate::player::{Character, parse_spec};
use crate::text::str_eq;

verus! {

/// The scene loaded when the command line names none.
pub const DEFAULT_SCENE: &'static str = "examples/room.json";

/// Whether `a` is the option that picks the character.
pub open spec fn is_character_flag(a: Seq<char>) -> bool {
    a == "--as"@ || a == "--character"@
}

/// The command line read from argument `i` on, given the scene, character and count of rejected
/// character values found before it: the first argument that is not an option names the scene,
/// later ones are ignored; `--as` / `--character` take the next argument as the character, and one
/// that names no character (or is missing) keeps the previous choice and counts as rejected.
pub open spec fn launch_from(
    args: Seq<Seq<char>>,
    i: int,
    scene: Option<Seq<char>>,
    who: Option<Character>,
    rejected: nat,
) -> (Option<Seq<char>>, Option<Character>, nat)
    decreases args.len() + 1 - i,
{
    if i < 0 || i >= args.len() {
        (scene, who, rejected)
    } else if is_character_flag(args[i]) {
        let value = if i + 1 < args.len() {
            parse_spec(args[i + 1])
        } else {
            None
        };
        match value {
            Some(c) => launch_from(args, i + 2, scene, Some(c), rejected),
            None => launch_from(args, i + 2, scene, who, rejected + 1),
        }
    } else if scene is None {
        launch_from(args, i + 1, Some(args[i]), who, rejected)
    } else {
        launch_from(args, i + 1, scene, who, rejected)
    }
}

/// The launch options for arguments `args` (without the program name) and the value of
/// `RE2_CHARACTER`, if set: the scene path, the character (the command line wins over the
/// environment), and how many character values were rejected.
pub open spec fn launch_spec(args: Seq<Seq<char>>, env: Option<Seq<char>>) -> (Seq<char>, Option<Character>, nat) {
    let who0 = match env {
        Some(e) => parse_spec(e),
        None => None,
    };
    let (scene, who, rejected) = launch_from(args, 0, None, who0, 0);
    (
        match scene {
            Some(s) => s,
            None => DEFAULT_SCENE@,
        },
        who,
        rejected,
    )
}

/// The views of a list of strings.
pub open spec fn arg_views(args: Seq<String>) -> Seq<Seq<char>> {
    args.map_values(|a: String| a@)
}

/// What the command line asks for.
pub struct LaunchOptions {
    /// Path of the scene to load.
    pub scene: String,
    /// The character to play, if chosen; `None` shows the launch menu.
    pub character: Option<Character>,
    /// How many `--as` values named no character (each is reported, and the menu is shown unless
    /// another choice stands).
    pub rejected: usize,
}

/// Reads the command line `args` (without the program name) and the `RE2_CHARACTER` value.
pub fn parse_args(args: &Vec<String>, env_character: Option<&str>) -> (r: LaunchOptions)
    ensures
        (r.scene@, r.character, r.rejected as nat) == launch_spec(
            arg_views(args@),
            match env_character {
                Some(e) => Some(e@),
                None => None,
            },
        ),
{
    let ghost views = arg_views(args@);
    let ghost env = match env_character {
        Some(e) => Some(e@),
        None => None,
    };
    let mut who: Option<Character> = match env_character {
        Some(e) => Character::parse(e),
        None => None,
    };
    let mut scene: Option<String> = None;
    let mut rejected: usize = 0;
    let mut i: usize = 0;
    proof {
        assert(who == match env {
            Some(e) => parse_spec(e),
            None => None::<Character>,
        });
    }
    while i < args.len()
        invariant
            views == arg_views(args@),
            0 <= i <= args@.len(),
            rejected <= i,
            launch_from(
                views,
                i as int,
                match scene {
                    Some(s) => Some(s@),
                    None => None,
                },
                who,
                rejected as nat,
            ) == launch_from(
                views,
                0,
                None,
                match env {
                    Some(e) => parse_spec(e),
                    None => None,
                },
                0,
            ),
        decreases args@.len() + 1 - i,
    {
        let a = args[i].as_str();
        let ghost sc0 = match &scene {
            Some(s) => Some(s@),
            None => None::<Seq<char>>,
        };
        let ghost who0 = who;
        let ghost rej0 = rejected as nat;
        let ghost i0 = i as int;
        proof {
            assert(views[i as int] == a@);
            reveal_strlit("--as");
            reveal_strlit("--character");
        }
        if str_eq(a, "--as") || str_eq(a, "--character") {
            let value = if i + 1 < args.len() {
                proof {
                    assert(views[i + 1] == args@[i + 1]@);
                }
                Character::parse(args[i + 1].as_str())
            } else {
                None
            };
            match value {
                Some(c) => {
                    who = Some(c);
                },
                None => {
                    rejected = rejected + 1;
                },
            }
            i = if i + 1 < args.len() {
                i + 2
            } else {
                args.len()
            };
            proof {
                assert(is_character_flag(views[i0]));
                assert(value == if i0 + 1 < views.len() {
                    parse_spec(views[i0 + 1])
                } else {
                    None::<Character>
                });
                assert(launch_from(views, i0, sc0, who0, rej0) == match value {
                    Some(c) => launch_from(views, i0 + 2, sc0, Some(c), rej0),
                    None => launch_from(views, i0 + 2, sc0, who0, rej0 + 1),
                });
            }
        } else {
            if scene.is_none() {
                scene = Some(args[i].clone());
            }
            i = i + 1;
        }
    }
    let scene = match scene {
        Some(s) => s,
        None => DEFAULT_SCENE.to_owned(),
    };
    LaunchOptions { scene, character: who, rejected }
}

proof fn lemma_launch_from_who(
    args: Seq<Seq<char>>,
    i: int,
    scene: Option<Seq<char>>,
    who: Option<Character>,
    rejected: nat,
)
    ensures
        launch_from(args, i, scene, who, rejected).0 == launch_from(args, i, scene, None, rejected).0,
        launch_from(args, i, scene, who, rejected).2 == launch_from(args, i, scene, None, rejected).2,
        launch_from(args, i, scene, who, rejected).1 == match launch_from(args, i, scene, None, rejected).1 {
            Some(c) => Some(c),
            None => who,
        },
        who is Some ==> launch_from(args, i, scene, who, rejected).1 is Some,
    decreases args.len() + 1 - i,
{
    if i < 0 || i >= args.len() {
    } else if is_character_flag(args[i]) {
        let value = if i + 1 < args.len() {
            parse_spec(args[i + 1])
        } else {
            None
        };
        match value {
            Some(c) => {
                lemma_launch_from_who(args, i + 2, scene, Some(c), rejected);
            },
            None => {
                lemma_launch_from_who(args, i + 2, scene, who, rejected + 1);
            },
        }
    } else if scene is None {
        lemma_launch_from_who(args, i + 1, Some(args[i]), who, rejected);
    } else {
        lemma_launch_from_who(args, i + 1, scene, who, rejected);
    }
}

/// The command line's character wins over `RE2_CHARACTER`, which counts only when the command
/// line picks none; the scene and the rejected values do not depend on the environment at all.
pub proof fn lemma_command_line_wins(args: Seq<Seq<char>>, env: Option<Seq<char>>)
    ensures
        launch_spec(args, env).0 == launch_spec(args, None).0,
        launch_spec(args, env).2 == launch_spec(args, None).2,
        launch_spec(args, env).1 == match launch_spec(args, None).1 {
            Some(c) => Some(c),
            None => match env {
                Some(e) => parse_spec(e),
                None => None,
            },
        },
{
    let who0 = match env {
        Some(e) => parse_spec(e),
        None => None,
    };
    lemma_launch_from_who(args, 0, None, who0, 0);
}

} // verus!
