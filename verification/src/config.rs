//! Game configuration as the verified core sees it: the level cap and the
//! key bindings, with the matching of pressed keys against binding lists.
//! Reading the configuration file and the physics numbers stay outside the
//! library.
use vstd::prelude::*;

verus! {

/// The fallback level cap when the configuration names none.
pub fn default_max_level() -> (r: u32)
    ensures
        r == 10,
{
    10
}

/// A pressed key as the library models input: the named control keys the
/// bindings may speak of, a plain character, or anything else.
#[derive(Clone, Copy, PartialEq, Eq, Structural, Debug)]
pub enum KeyCode {
    Left,
    Right,
    Up,
    Down,
    Enter,
    Esc,
    Char(char),
    Other,
}

/// The key lists that trigger each action.
#[derive(Clone, Debug)]
pub struct KeysConfig {
    pub left: Vec<String>,
    pub right: Vec<String>,
    pub jump: Vec<String>,
    pub quit: Vec<String>,
    pub restart: Vec<String>,
}

/// Game configuration: the level cap and the key bindings.
#[derive(Clone, Debug)]
pub struct Config {
    pub max_level: u32,
    pub keys: KeysConfig,
}

/// The first character of `char::to_lowercase`'s mapping for a character:
/// a function of the character alone.
pub uninterp spec fn lower_char_of(c: char) -> char;

/// The first character of `char::to_uppercase`'s mapping for a character:
/// a function of the character alone.
pub uninterp spec fn upper_char_of(c: char) -> char;

/// Relies on char::to_lowercase: its iterator yields the character's
/// lowercase mapping, at least one character long; the first is taken.
#[verifier::external_body]
fn lowercase_char(c: char) -> (r: char)
    ensures
        r == lower_char_of(c),
{
    c.to_lowercase().next().unwrap()
}

/// Relies on char::to_uppercase: its iterator yields the character's
/// uppercase mapping, at least one character long; the first is taken.
#[verifier::external_body]
fn uppercase_char(c: char) -> (r: char)
    ensures
        r == upper_char_of(c),
{
    c.to_uppercase().next().unwrap()
}

/// Whether one binding entry matches the pressed key: the named control keys
/// by their names, a single-character entry by its character, taken exactly,
/// lowercased or uppercased.
pub open spec fn entry_matches(code: KeyCode, k: Seq<char>) -> bool {
    if k == "Left"@ {
        code == KeyCode::Left
    } else if k == "Right"@ {
        code == KeyCode::Right
    } else if k == "Up"@ {
        code == KeyCode::Up
    } else if k == "Down"@ {
        code == KeyCode::Down
    } else if k == "Enter"@ {
        code == KeyCode::Enter
    } else if k == "Esc"@ {
        code == KeyCode::Esc
    } else if k == "Space"@ {
        code == KeyCode::Char(' ')
    } else if k.len() == 1 {
        code == KeyCode::Char(k[0]) || code == KeyCode::Char(lower_char_of(k[0])) || code
            == KeyCode::Char(upper_char_of(k[0]))
    } else {
        false
    }
}

/// Whether any entry of the binding list matches the pressed key.
pub open spec fn spec_key_matches(code: KeyCode, keys: Seq<Seq<char>>) -> bool {
    exists|i: int| 0 <= i < keys.len() && entry_matches(code, #[trigger] keys[i])
}

/// The views of a list of strings.
pub open spec fn key_views(keys: Seq<String>) -> Seq<Seq<char>> {
    Seq::new(keys.len(), |i: int| keys[i]@)
}

impl Config {
    /// Whether the pressed key appears in the binding list.
    pub fn key_matches(&self, code: KeyCode, key_list: &[String]) -> (r: bool)
        ensures
            r == spec_key_matches(code, key_views(key_list@)),
    {
        let ghost kv = key_views(key_list@);
        let mut i: usize = 0;
        while i < key_list.len()
            invariant
                i <= key_list.len(),
                forall|j: int| 0 <= j < i ==> !entry_matches(code, #[trigger] kv[j]),
            decreases key_list.len() - i,
        {
            let k = &key_list[i];
            proof {
                assert(kv[i as int] == k@);
            }
            let matched = if *k == "Left".to_owned() {
                code == KeyCode::Left
            } else if *k == "Right".to_owned() {
                code == KeyCode::Right
            } else if *k == "Up".to_owned() {
                code == KeyCode::Up
            } else if *k == "Down".to_owned() {
                code == KeyCode::Down
            } else if *k == "Enter".to_owned() {
                code == KeyCode::Enter
            } else if *k == "Esc".to_owned() {
                code == KeyCode::Esc
            } else if *k == "Space".to_owned() {
                code == KeyCode::Char(' ')
            } else if k.as_str().unicode_len() == 1 {
                let c = k.as_str().get_char(0);
                code == KeyCode::Char(c) || code == KeyCode::Char(lowercase_char(c)) || code
                    == KeyCode::Char(uppercase_char(c))
            } else {
                false
            };
            proof {
                assert(matched == entry_matches(code, kv[i as int]));
            }
            if matched {
                return true;
            }
            i += 1;
        }
        false
    }
}

/// One key list built from string literals.
fn key_list(a: &str) -> (v: Vec<String>)
    ensures
        v@.len() == 1,
        v@[0]@ == a@,
{
    let mut v: Vec<String> = Vec::new();
    v.push(a.to_owned());
    v
}

/// The key bindings the game falls back to: arrows plus the classic letter
/// keys, space to jump, escape to quit, enter to restart.
pub fn default_keys() -> (k: KeysConfig)
    ensures
        k.left@.len() == 3 && k.left@[0]@ == "Left"@ && k.left@[1]@ == "a"@ && k.left@[2]@
            == "A"@,
        k.right@.len() == 3 && k.right@[0]@ == "Right"@ && k.right@[1]@ == "d"@ && k.right@[2]@
            == "D"@,
        k.jump@.len() == 4 && k.jump@[0]@ == "Up"@ && k.jump@[1]@ == "w"@ && k.jump@[2]@ == "W"@
            && k.jump@[3]@ == "Space"@,
        k.quit@.len() == 3 && k.quit@[0]@ == "Esc"@ && k.quit@[1]@ == "q"@ && k.quit@[2]@ == "Q"@,
        k.restart@.len() == 1 && k.restart@[0]@ == "Enter"@,
{
    let mut left = key_list("Left");
    left.push("a".to_owned());
    left.push("A".to_owned());
    let mut right = key_list("Right");
    right.push("d".to_owned());
    right.push("D".to_owned());
    let mut jump = key_list("Up");
    jump.push("w".to_owned());
    jump.push("W".to_owned());
    jump.push("Space".to_owned());
    let mut quit = key_list("Esc");
    quit.push("q".to_owned());
    quit.push("Q".to_owned());
    let restart = key_list("Enter");
    KeysConfig { left, right, jump, quit, restart }
}

impl Default for Config {
    /// The configuration the game falls back to when none can be loaded:
    /// level cap ten and the default key bindings.
    fn default() -> (c: Config)
        ensures
            c.max_level == 10,
            c.keys.left@.len() == 3 && c.keys.left@[0]@ == "Left"@ && c.keys.left@[1]@ == "a"@
                && c.keys.left@[2]@ == "A"@,
            c.keys.right@.len() == 3 && c.keys.right@[0]@ == "Right"@ && c.keys.right@[1]@
                == "d"@ && c.keys.right@[2]@ == "D"@,
            c.keys.jump@.len() == 4 && c.keys.jump@[0]@ == "Up"@ && c.keys.jump@[1]@ == "w"@
                && c.keys.jump@[2]@ == "W"@ && c.keys.jump@[3]@ == "Space"@,
            c.keys.quit@.len() == 3 && c.keys.quit@[0]@ == "Esc"@ && c.keys.quit@[1]@ == "q"@
                && c.keys.quit@[2]@ == "Q"@,
            c.keys.restart@.len() == 1 && c.keys.restart@[0]@ == "Enter"@,
    {
        Config { max_level: 10, keys: default_keys() }
    }
}

} // verus!
