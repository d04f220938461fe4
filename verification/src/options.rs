//! What the options of a run select: the figure, its eyes and tongue, who
//! speaks, and where the image goes.

use crate::glyphs::Mood;
use crate::graphics::Offset;
use crate::terminal::is_kitty;
use crate::text::{
    chars_of, contains_chars, contains_text, same_chars, texts, to_chars, truncate, truncated,
};
use rand::seq::SliceRandom;
use vstd::prelude::*;
use vstd::string::*;

verus! {

/// The looks that can be asked for by name, in the order in which they win.
pub struct EyeFlags {
    pub borg: bool,
    pub dead: bool,
    pub greedy: bool,
    pub paranoid: bool,
    pub stoned: bool,
    pub tired: bool,
    pub wired: bool,
    pub youthful: bool,
}

/// The eyes of the figure: those of the first look asked for; without one,
/// the first two characters of `custom`; without that, `oo`.
pub open spec fn eyes_spec(flags: EyeFlags, custom: Option<Seq<char>>) -> Seq<char> {
    if flags.borg {
        "=="@
    } else if flags.dead {
        "xx"@
    } else if flags.greedy {
        "$$"@
    } else if flags.paranoid {
        "@@"@
    } else if flags.stoned {
        "**"@
    } else if flags.tired {
        "--"@
    } else if flags.wired {
        "OO"@
    } else if flags.youthful {
        ".."@
    } else {
        match custom {
            Some(s) => truncated(s, 2),
            None => "oo"@,
        }
    }
}

/// The tongue of the figure: the first character of `custom`, or a space.
pub open spec fn tongue_spec(custom: Option<Seq<char>>) -> Seq<char> {
    match custom {
        Some(s) => truncated(s, 1),
        None => " "@,
    }
}

/// The eyes of the figure.
pub fn select_eyes(flags: &EyeFlags, custom: Option<&str>) -> (eyes: String)
    ensures
        eyes@ == eyes_spec(*flags, chars_of(custom)),
{
    let chosen: &str = if flags.borg {
        "=="
    } else if flags.dead {
        "xx"
    } else if flags.greedy {
        "$$"
    } else if flags.paranoid {
        "@@"
    } else if flags.stoned {
        "**"
    } else if flags.tired {
        "--"
    } else if flags.wired {
        "OO"
    } else if flags.youthful {
        ".."
    } else {
        match custom {
            Some(s) => truncate(s, 2),
            None => "oo",
        }
    };
    chosen.to_owned()
}

/// The tongue of the figure.
pub fn select_tongue(custom: Option<&str>) -> (tongue: String)
    ensures
        tongue@ == tongue_spec(chars_of(custom)),
{
    let chosen: &str = match custom {
        Some(s) => truncate(s, 1),
        None => " ",
    };
    chosen.to_owned()
}

/// Whether the program was started under the name that makes the figure
/// think.
pub open spec fn thinks(program: Seq<char>) -> bool {
    program == "cowthink"@
}

/// What the line from the bubble to the figure is drawn with: `o` for
/// thoughts, a backslash for speech, a box-drawing diagonal in the modern
/// style.
pub open spec fn voice_spec(thinking: bool, modern: bool) -> char {
    if thinking {
        'o'
    } else if modern {
        '\u{2572}'
    } else {
        '\\'
    }
}

/// The mood that the program's name selects, and the character that the
/// line from the bubble to the figure is drawn with.
pub fn speaker(program: &str, modern: bool) -> (r: (Mood, char))
    ensures
        r.0 == if thinks(program@) {
            Mood::Think
        } else {
            Mood::Speak
        },
        r.1 == voice_spec(thinks(program@), modern),
{
    if same_chars(&to_chars(program), &to_chars("cowthink")) {
        (Mood::Think, 'o')
    } else if modern {
        (Mood::Speak, '\u{2572}')
    } else {
        (Mood::Speak, '\\')
    }
}

/// Whether the run draws in the modern style: it was asked for, as such or
/// with the alternative figure, and the terminal can draw it.
pub fn use_modern(modern: bool, pipboy: bool, term: Option<&str>) -> (r: bool)
    ensures
        r == ((modern || pipboy) && term is Some && contains_text(term->Some_0@, "kitty"@)),
{
    (modern || pipboy) && is_kitty(term)
}

/// Where the image is drawn, relative to the cursor below the bubble.
pub fn image_offset(pipboy: bool) -> (offset: Offset)
    ensures
        offset.x == if pipboy {
            4u32
        } else {
            11u32
        },
        offset.y == if pipboy {
            -2i32
        } else {
            -1i32
        },
{
    if pipboy {
        Offset { x: 4, y: -2 }
    } else {
        Offset { x: 11, y: -1 }
    }
}

/// The bundled image of the figure.
pub fn image_asset(pipboy: bool) -> (name: &'static str)
    ensures
        name@ == if pipboy {
            "pipboy.png"@
        } else {
            "cow.png"@
        },
{
    if pipboy {
        "pipboy.png"
    } else {
        "cow.png"
    }
}

/// Whether `cow` names a file of its own rather than a bundled figure: it
/// holds `extension`.
pub fn names_file(cow: &str, extension: &str) -> (r: bool)
    ensures
        r == contains_text(cow@, extension@),
{
    contains_chars(&to_chars(cow), &to_chars(extension))
}

/// The bundled template of the figure `cow`.
pub fn cow_asset(cow: &str) -> (name: String)
    ensures
        name@ == cow@ + ".cow"@,
{
    cow.to_owned().concat(".cow")
}

/// The message to show: `message`, or a stock phrase where it is empty.
pub fn message_or_default(message: String) -> (r: String)
    ensures
        r@ == if message@.len() == 0 {
            "I've got nothing to say"@
        } else {
            message@
        },
{
    if message.as_str().unicode_len() == 0 {
        "I've got nothing to say".to_owned()
    } else {
        message
    }
}

/// Calls `choose` of the `rand` crate's `SliceRandom` on the names, with the
/// generator that `rand::thread_rng()` returns. It yields nothing for an
/// empty list and one of the names otherwise; which one is left open.
#[verifier::external_body]
pub(crate) fn choose_name(names: &Vec<String>) -> (r: Option<&String>)
    ensures
        names@.len() == 0 <==> r is None,
        r is Some ==> texts(names@).contains(r->Some_0@),
{
    names.choose(&mut rand::thread_rng())
}

/// The figure to draw: the one drawn by lot if there is one, else the one
/// asked for, else `default`.
pub fn settle_cow(requested: Option<String>, drawn: Option<&String>) -> (cow: String)
    ensures
        cow@ == match (drawn, requested) {
            (Some(d), _) => d@,
            (None, Some(r)) => r@,
            (None, None) => "default"@,
        },
{
    match drawn {
        Some(d) => d.clone(),
        None => match requested {
            Some(r) => r,
            None => "default".to_owned(),
        },
    }
}

/// The figure to draw. With `random` it is one of `cows`, whichever the lot
/// falls on, or the one asked for where `cows` is empty; without, the one
/// asked for, or `default`.
pub fn pick_cow(requested: Option<String>, random: bool, cows: &Vec<String>) -> (cow: String)
    ensures
        random && cows@.len() > 0 ==> texts(cows@).contains(cow@),
        !(random && cows@.len() > 0) ==> cow@ == match requested {
            Some(r) => r@,
            None => "default"@,
        },
{
    let drawn: Option<&String> = if random {
        choose_name(cows)
    } else {
        None
    };
    settle_cow(requested, drawn)
}

} // verus!
