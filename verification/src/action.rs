//! The verbs that keys are bound to.
use vstd::prelude::*;

use crate::text;

verus! {

#[derive(Debug, Clone)]
pub enum Action {
    Spawn(String),
    CloseWindow,
    Quit,
    MruNext,
    MruPrev,
    MruNextGlobal,
    MruPrevGlobal,
    /// A tag, counted from 0.
    ViewTag(usize),
    ViewPrevTag,
    ViewNextTag,
    /// A tag, counted from 0.
    MoveToTag(usize),
    ToggleAbove,
    ToggleFullscreen,
    ToggleLayout,
    RunPrompt,
    Screenshot,
    Lock,
    VolumeUp,
    VolumeDown,
    VolumeMute,
    VolumeMicMute,
    BrightnessUp,
    BrightnessDown,
    MediaPlayPause,
    MediaNext,
    MediaPrev,
}

/// The verbs that take no argument, by name.
pub open spec fn plain_action(name: Seq<char>) -> Option<Action> {
    if name == "close_window"@ {
        Some(Action::CloseWindow)
    } else if name == "quit"@ {
        Some(Action::Quit)
    } else if name == "mru_next"@ {
        Some(Action::MruNext)
    } else if name == "mru_prev"@ {
        Some(Action::MruPrev)
    } else if name == "mru_next_global"@ {
        Some(Action::MruNextGlobal)
    } else if name == "mru_prev_global"@ {
        Some(Action::MruPrevGlobal)
    } else if name == "view_prev_tag"@ {
        Some(Action::ViewPrevTag)
    } else if name == "view_next_tag"@ {
        Some(Action::ViewNextTag)
    } else if name == "toggle_above"@ {
        Some(Action::ToggleAbove)
    } else if name == "toggle_fullscreen"@ {
        Some(Action::ToggleFullscreen)
    } else if name == "toggle_layout"@ {
        Some(Action::ToggleLayout)
    } else if name == "run_prompt"@ {
        Some(Action::RunPrompt)
    } else if name == "screenshot"@ {
        Some(Action::Screenshot)
    } else if name == "lock"@ {
        Some(Action::Lock)
    } else if name == "volume_up"@ {
        Some(Action::VolumeUp)
    } else if name == "volume_down"@ {
        Some(Action::VolumeDown)
    } else if name == "volume_mute"@ {
        Some(Action::VolumeMute)
    } else if name == "volume_mic_mute"@ {
        Some(Action::VolumeMicMute)
    } else if name == "brightness_up"@ {
        Some(Action::BrightnessUp)
    } else if name == "brightness_down"@ {
        Some(Action::BrightnessDown)
    } else if name == "media_play_pause"@ {
        Some(Action::MediaPlayPause)
    } else if name == "media_next"@ {
        Some(Action::MediaNext)
    } else if name == "media_prev"@ {
        Some(Action::MediaPrev)
    } else {
        None
    }
}

/// Whether there is a verb of that name.
pub open spec fn is_action(name: Seq<char>) -> bool {
    name == "spawn"@ || name == "view_tag"@ || name == "move_to_tag"@ || plain_action(name) is Some
}

/// The verb of a name that takes no argument.
pub fn named(name: &str) -> (r: Option<Action>)
    ensures
        r == plain_action(name@),
{
    if text::same_text(name, "close_window") {
        Some(Action::CloseWindow)
    } else if text::same_text(name, "quit") {
        Some(Action::Quit)
    } else if text::same_text(name, "mru_next") {
        Some(Action::MruNext)
    } else if text::same_text(name, "mru_prev") {
        Some(Action::MruPrev)
    } else if text::same_text(name, "mru_next_global") {
        Some(Action::MruNextGlobal)
    } else if text::same_text(name, "mru_prev_global") {
        Some(Action::MruPrevGlobal)
    } else if text::same_text(name, "view_prev_tag") {
        Some(Action::ViewPrevTag)
    } else if text::same_text(name, "view_next_tag") {
        Some(Action::ViewNextTag)
    } else if text::same_text(name, "toggle_above") {
        Some(Action::ToggleAbove)
    } else if text::same_text(name, "toggle_fullscreen") {
        Some(Action::ToggleFullscreen)
    } else if text::same_text(name, "toggle_layout") {
        Some(Action::ToggleLayout)
    } else if text::same_text(name, "run_prompt") {
        Some(Action::RunPrompt)
    } else if text::same_text(name, "screenshot") {
        Some(Action::Screenshot)
    } else if text::same_text(name, "lock") {
        Some(Action::Lock)
    } else if text::same_text(name, "volume_up") {
        Some(Action::VolumeUp)
    } else if text::same_text(name, "volume_down") {
        Some(Action::VolumeDown)
    } else if text::same_text(name, "volume_mute") {
        Some(Action::VolumeMute)
    } else if text::same_text(name, "volume_mic_mute") {
        Some(Action::VolumeMicMute)
    } else if text::same_text(name, "brightness_up") {
        Some(Action::BrightnessUp)
    } else if text::same_text(name, "brightness_down") {
        Some(Action::BrightnessDown)
    } else if text::same_text(name, "media_play_pause") {
        Some(Action::MediaPlayPause)
    } else if text::same_text(name, "media_next") {
        Some(Action::MediaNext)
    } else if text::same_text(name, "media_prev") {
        Some(Action::MediaPrev)
    } else {
        None
    }
}

/// Whether a keybinding can name that verb.
pub fn is_known(name: &str) -> (r: bool)
    ensures
        r == is_action(name@),
{
    text::same_text(name, "spawn") || text::same_text(name, "view_tag") || text::same_text(
        name,
        "move_to_tag",
    ) || named(name).is_some()
}

/// The tag that an argument names, counted from 0: arguments count from 1.
pub open spec fn tag_argument(arg: Seq<char>) -> Option<int> {
    match text::unsigned_value(text::codes(arg), 10, 0xffff_ffff) {
        Some(n) => if n >= 1 {
            Some(n - 1)
        } else {
            None
        },
        None => None,
    }
}

pub fn tag_of(arg: &str) -> (r: Option<usize>)
    ensures
        match r {
            Some(n) => tag_argument(arg@) == Some(n as int),
            None => tag_argument(arg@) is None,
        },
{
    let chars = text::chars_of(arg);
    let codes = text::codes_of(chars.as_slice());
    match text::parse_unsigned(codes.as_slice(), 10, 0xffff_ffff) {
        Some(n) => if n >= 1 {
            Some((n - 1) as usize)
        } else {
            None
        },
        None => None,
    }
}

/// The verb of a keybinding: its name, and the argument where it takes one. `None` where there is
/// no such verb or its argument is missing or no tag.
pub fn bound(name: &str, args: &Option<String>) -> (r: Option<Action>)
    ensures
        match r {
            Some(Action::Spawn(cmd)) => name@ == "spawn"@ && (args matches Some(a) && a@ == cmd@),
            Some(Action::ViewTag(n)) => name@ == "view_tag"@ && (args matches Some(a)
                && tag_argument(a@) == Some(n as int)),
            Some(Action::MoveToTag(n)) => name@ == "move_to_tag"@ && (args matches Some(a)
                && tag_argument(a@) == Some(n as int)),
            Some(a) => plain_action(name@) == Some(a),
            None => {
                ||| !is_action(name@)
                ||| name@ == "spawn"@ && args is None
                ||| (name@ == "view_tag"@ || name@ == "move_to_tag"@) && (args matches Some(a)
                    ==> tag_argument(a@) is None)
            },
        },
{
    proof {
        reveal_strlit("spawn");
        reveal_strlit("view_tag");
        reveal_strlit("move_to_tag");
    }
    if text::same_text(name, "spawn") {
        return match args {
            Some(a) => Some(Action::Spawn(a.clone())),
            None => None,
        };
    }
    if text::same_text(name, "view_tag") {
        return match args {
            Some(a) => match tag_of(a.as_str()) {
                Some(n) => Some(Action::ViewTag(n)),
                None => None,
            },
            None => None,
        };
    }
    if text::same_text(name, "move_to_tag") {
        return match args {
            Some(a) => match tag_of(a.as_str()) {
                Some(n) => Some(Action::MoveToTag(n)),
                None => None,
            },
            None => None,
        };
    }
    named(name)
}

/// The name under which an action is bound.
pub open spec fn name_of(a: Action) -> Seq<char> {
    match a {
        Action::Spawn(_) => "spawn"@,
        Action::ViewTag(_) => "view_tag"@,
        Action::MoveToTag(_) => "move_to_tag"@,
        Action::CloseWindow => "close_window"@,
        Action::Quit => "quit"@,
        Action::MruNext => "mru_next"@,
        Action::MruPrev => "mru_prev"@,
        Action::MruNextGlobal => "mru_next_global"@,
        Action::MruPrevGlobal => "mru_prev_global"@,
        Action::ViewPrevTag => "view_prev_tag"@,
        Action::ViewNextTag => "view_next_tag"@,
        Action::ToggleAbove => "toggle_above"@,
        Action::ToggleFullscreen => "toggle_fullscreen"@,
        Action::ToggleLayout => "toggle_layout"@,
        Action::RunPrompt => "run_prompt"@,
        Action::Screenshot => "screenshot"@,
        Action::Lock => "lock"@,
        Action::VolumeUp => "volume_up"@,
        Action::VolumeDown => "volume_down"@,
        Action::VolumeMute => "volume_mute"@,
        Action::VolumeMicMute => "volume_mic_mute"@,
        Action::BrightnessUp => "brightness_up"@,
        Action::BrightnessDown => "brightness_down"@,
        Action::MediaPlayPause => "media_play_pause"@,
        Action::MediaNext => "media_next"@,
        Action::MediaPrev => "media_prev"@,
    }
}

/// Whether an action takes an argument.
pub open spec fn takes_argument(a: Action) -> bool {
    a is Spawn || a is ViewTag || a is MoveToTag
}

proof fn lemma_names_differ()
    ensures
        "quit"@ != "close_window"@,
        "mru_next"@ != "close_window"@,
        "mru_next"@ != "quit"@,
        "mru_prev"@ != "close_window"@,
        "mru_prev"@ != "quit"@,
        "mru_prev"@ != "mru_next"@,
        "mru_next_global"@ != "close_window"@,
        "mru_next_global"@ != "quit"@,
        "mru_next_global"@ != "mru_next"@,
        "mru_next_global"@ != "mru_prev"@,
        "mru_prev_global"@ != "close_window"@,
        "mru_prev_global"@ != "quit"@,
        "mru_prev_global"@ != "mru_next"@,
        "mru_prev_global"@ != "mru_prev"@,
        "mru_prev_global"@ != "mru_next_global"@,
        "view_prev_tag"@ != "close_window"@,
        "view_prev_tag"@ != "quit"@,
        "view_prev_tag"@ != "mru_next"@,
        "view_prev_tag"@ != "mru_prev"@,
        "view_prev_tag"@ != "mru_next_global"@,
        "view_prev_tag"@ != "mru_prev_global"@,
        "view_next_tag"@ != "close_window"@,
        "view_next_tag"@ != "quit"@,
        "view_next_tag"@ != "mru_next"@,
        "view_next_tag"@ != "mru_prev"@,
        "view_next_tag"@ != "mru_next_global"@,
        "view_next_tag"@ != "mru_prev_global"@,
        "view_next_tag"@ != "view_prev_tag"@,
        "toggle_above"@ != "close_window"@,
        "toggle_above"@ != "quit"@,
        "toggle_above"@ != "mru_next"@,
        "toggle_above"@ != "mru_prev"@,
        "toggle_above"@ != "mru_next_global"@,
        "toggle_above"@ != "mru_prev_global"@,
        "toggle_above"@ != "view_prev_tag"@,
        "toggle_above"@ != "view_next_tag"@,
        "toggle_fullscreen"@ != "close_window"@,
        "toggle_fullscreen"@ != "quit"@,
        "toggle_fullscreen"@ != "mru_next"@,
        "toggle_fullscreen"@ != "mru_prev"@,
        "toggle_fullscreen"@ != "mru_next_global"@,
        "toggle_fullscreen"@ != "mru_prev_global"@,
        "toggle_fullscreen"@ != "view_prev_tag"@,
        "toggle_fullscreen"@ != "view_next_tag"@,
        "toggle_fullscreen"@ != "toggle_above"@,
        "toggle_layout"@ != "close_window"@,
        "toggle_layout"@ != "quit"@,
        "toggle_layout"@ != "mru_next"@,
        "toggle_layout"@ != "mru_prev"@,
        "toggle_layout"@ != "mru_next_global"@,
        "toggle_layout"@ != "mru_prev_global"@,
        "toggle_layout"@ != "view_prev_tag"@,
        "toggle_layout"@ != "view_next_tag"@,
        "toggle_layout"@ != "toggle_above"@,
        "toggle_layout"@ != "toggle_fullscreen"@,
        "run_prompt"@ != "close_window"@,
        "run_prompt"@ != "quit"@,
        "run_prompt"@ != "mru_next"@,
        "run_prompt"@ != "mru_prev"@,
        "run_prompt"@ != "mru_next_global"@,
        "run_prompt"@ != "mru_prev_global"@,
        "run_prompt"@ != "view_prev_tag"@,
        "run_prompt"@ != "view_next_tag"@,
        "run_prompt"@ != "toggle_above"@,
        "run_prompt"@ != "toggle_fullscreen"@,
        "run_prompt"@ != "toggle_layout"@,
        "screenshot"@ != "close_window"@,
        "screenshot"@ != "quit"@,
        "screenshot"@ != "mru_next"@,
        "screenshot"@ != "mru_prev"@,
        "screenshot"@ != "mru_next_global"@,
        "screenshot"@ != "mru_prev_global"@,
        "screenshot"@ != "view_prev_tag"@,
        "screenshot"@ != "view_next_tag"@,
        "screenshot"@ != "toggle_above"@,
        "screenshot"@ != "toggle_fullscreen"@,
        "screenshot"@ != "toggle_layout"@,
        "screenshot"@ != "run_prompt"@,
        "lock"@ != "close_window"@,
        "lock"@ != "quit"@,
        "lock"@ != "mru_next"@,
        "lock"@ != "mru_prev"@,
        "lock"@ != "mru_next_global"@,
        "lock"@ != "mru_prev_global"@,
        "lock"@ != "view_prev_tag"@,
        "lock"@ != "view_next_tag"@,
        "lock"@ != "toggle_above"@,
        "lock"@ != "toggle_fullscreen"@,
        "lock"@ != "toggle_layout"@,
        "lock"@ != "run_prompt"@,
        "lock"@ != "screenshot"@,
        "volume_up"@ != "close_window"@,
        "volume_up"@ != "quit"@,
        "volume_up"@ != "mru_next"@,
        "volume_up"@ != "mru_prev"@,
        "volume_up"@ != "mru_next_global"@,
        "volume_up"@ != "mru_prev_global"@,
        "volume_up"@ != "view_prev_tag"@,
        "volume_up"@ != "view_next_tag"@,
        "volume_up"@ != "toggle_above"@,
        "volume_up"@ != "toggle_fullscreen"@,
        "volume_up"@ != "toggle_layout"@,
        "volume_up"@ != "run_prompt"@,
        "volume_up"@ != "screenshot"@,
        "volume_up"@ != "lock"@,
        "volume_down"@ != "close_window"@,
        "volume_down"@ != "quit"@,
        "volume_down"@ != "mru_next"@,
        "volume_down"@ != "mru_prev"@,
        "volume_down"@ != "mru_next_global"@,
        "volume_down"@ != "mru_prev_global"@,
        "volume_down"@ != "view_prev_tag"@,
        "volume_down"@ != "view_next_tag"@,
        "volume_down"@ != "toggle_above"@,
        "volume_down"@ != "toggle_fullscreen"@,
        "volume_down"@ != "toggle_layout"@,
        "volume_down"@ != "run_prompt"@,
        "volume_down"@ != "screenshot"@,
        "volume_down"@ != "lock"@,
        "volume_down"@ != "volume_up"@,
        "volume_mute"@ != "close_window"@,
        "volume_mute"@ != "quit"@,
        "volume_mute"@ != "mru_next"@,
        "volume_mute"@ != "mru_prev"@,
        "volume_mute"@ != "mru_next_global"@,
        "volume_mute"@ != "mru_prev_global"@,
        "volume_mute"@ != "view_prev_tag"@,
        "volume_mute"@ != "view_next_tag"@,
        "volume_mute"@ != "toggle_above"@,
        "volume_mute"@ != "toggle_fullscreen"@,
        "volume_mute"@ != "toggle_layout"@,
        "volume_mute"@ != "run_prompt"@,
        "volume_mute"@ != "screenshot"@,
        "volume_mute"@ != "lock"@,
        "volume_mute"@ != "volume_up"@,
        "volume_mute"@ != "volume_down"@,
        "volume_mic_mute"@ != "close_window"@,
        "volume_mic_mute"@ != "quit"@,
        "volume_mic_mute"@ != "mru_next"@,
        "volume_mic_mute"@ != "mru_prev"@,
        "volume_mic_mute"@ != "mru_next_global"@,
        "volume_mic_mute"@ != "mru_prev_global"@,
        "volume_mic_mute"@ != "view_prev_tag"@,
        "volume_mic_mute"@ != "view_next_tag"@,
        "volume_mic_mute"@ != "toggle_above"@,
        "volume_mic_mute"@ != "toggle_fullscreen"@,
        "volume_mic_mute"@ != "toggle_layout"@,
        "volume_mic_mute"@ != "run_prompt"@,
        "volume_mic_mute"@ != "screenshot"@,
        "volume_mic_mute"@ != "lock"@,
        "volume_mic_mute"@ != "volume_up"@,
        "volume_mic_mute"@ != "volume_down"@,
        "volume_mic_mute"@ != "volume_mute"@,
        "brightness_up"@ != "close_window"@,
        "brightness_up"@ != "quit"@,
        "brightness_up"@ != "mru_next"@,
        "brightness_up"@ != "mru_prev"@,
        "brightness_up"@ != "mru_next_global"@,
        "brightness_up"@ != "mru_prev_global"@,
        "brightness_up"@ != "view_prev_tag"@,
        "brightness_up"@ != "view_next_tag"@,
        "brightness_up"@ != "toggle_above"@,
        "brightness_up"@ != "toggle_fullscreen"@,
        "brightness_up"@ != "toggle_layout"@,
        "brightness_up"@ != "run_prompt"@,
        "brightness_up"@ != "screenshot"@,
        "brightness_up"@ != "lock"@,
        "brightness_up"@ != "volume_up"@,
        "brightness_up"@ != "volume_down"@,
        "brightness_up"@ != "volume_mute"@,
        "brightness_up"@ != "volume_mic_mute"@,
        "brightness_down"@ != "close_window"@,
        "brightness_down"@ != "quit"@,
        "brightness_down"@ != "mru_next"@,
        "brightness_down"@ != "mru_prev"@,
        "brightness_down"@ != "mru_next_global"@,
        "brightness_down"@ != "mru_prev_global"@,
        "brightness_down"@ != "view_prev_tag"@,
        "brightness_down"@ != "view_next_tag"@,
        "brightness_down"@ != "toggle_above"@,
        "brightness_down"@ != "toggle_fullscreen"@,
        "brightness_down"@ != "toggle_layout"@,
        "brightness_down"@ != "run_prompt"@,
        "brightness_down"@ != "screenshot"@,
        "brightness_down"@ != "lock"@,
        "brightness_down"@ != "volume_up"@,
        "brightness_down"@ != "volume_down"@,
        "brightness_down"@ != "volume_mute"@,
        "brightness_down"@ != "volume_mic_mute"@,
        "brightness_down"@ != "brightness_up"@,
        "media_play_pause"@ != "close_window"@,
        "media_play_pause"@ != "quit"@,
        "media_play_pause"@ != "mru_next"@,
        "media_play_pause"@ != "mru_prev"@,
        "media_play_pause"@ != "mru_next_global"@,
        "media_play_pause"@ != "mru_prev_global"@,
        "media_play_pause"@ != "view_prev_tag"@,
        "media_play_pause"@ != "view_next_tag"@,
        "media_play_pause"@ != "toggle_above"@,
        "media_play_pause"@ != "toggle_fullscreen"@,
        "media_play_pause"@ != "toggle_layout"@,
        "media_play_pause"@ != "run_prompt"@,
        "media_play_pause"@ != "screenshot"@,
        "media_play_pause"@ != "lock"@,
        "media_play_pause"@ != "volume_up"@,
        "media_play_pause"@ != "volume_down"@,
        "media_play_pause"@ != "volume_mute"@,
        "media_play_pause"@ != "volume_mic_mute"@,
        "media_play_pause"@ != "brightness_up"@,
        "media_play_pause"@ != "brightness_down"@,
        "media_next"@ != "close_window"@,
        "media_next"@ != "quit"@,
        "media_next"@ != "mru_next"@,
        "media_next"@ != "mru_prev"@,
        "media_next"@ != "mru_next_global"@,
        "media_next"@ != "mru_prev_global"@,
        "media_next"@ != "view_prev_tag"@,
        "media_next"@ != "view_next_tag"@,
        "media_next"@ != "toggle_above"@,
        "media_next"@ != "toggle_fullscreen"@,
        "media_next"@ != "toggle_layout"@,
        "media_next"@ != "run_prompt"@,
        "media_next"@ != "screenshot"@,
        "media_next"@ != "lock"@,
        "media_next"@ != "volume_up"@,
        "media_next"@ != "volume_down"@,
        "media_next"@ != "volume_mute"@,
        "media_next"@ != "volume_mic_mute"@,
        "media_next"@ != "brightness_up"@,
        "media_next"@ != "brightness_down"@,
        "media_next"@ != "media_play_pause"@,
        "media_prev"@ != "close_window"@,
        "media_prev"@ != "quit"@,
        "media_prev"@ != "mru_next"@,
        "media_prev"@ != "mru_prev"@,
        "media_prev"@ != "mru_next_global"@,
        "media_prev"@ != "mru_prev_global"@,
        "media_prev"@ != "view_prev_tag"@,
        "media_prev"@ != "view_next_tag"@,
        "media_prev"@ != "toggle_above"@,
        "media_prev"@ != "toggle_fullscreen"@,
        "media_prev"@ != "toggle_layout"@,
        "media_prev"@ != "run_prompt"@,
        "media_prev"@ != "screenshot"@,
        "media_prev"@ != "lock"@,
        "media_prev"@ != "volume_up"@,
        "media_prev"@ != "volume_down"@,
        "media_prev"@ != "volume_mute"@,
        "media_prev"@ != "volume_mic_mute"@,
        "media_prev"@ != "brightness_up"@,
        "media_prev"@ != "brightness_down"@,
        "media_prev"@ != "media_play_pause"@,
        "media_prev"@ != "media_next"@,
        "spawn"@ != "close_window"@,
        "spawn"@ != "quit"@,
        "spawn"@ != "mru_next"@,
        "spawn"@ != "mru_prev"@,
        "spawn"@ != "mru_next_global"@,
        "spawn"@ != "mru_prev_global"@,
        "spawn"@ != "view_prev_tag"@,
        "spawn"@ != "view_next_tag"@,
        "spawn"@ != "toggle_above"@,
        "spawn"@ != "toggle_fullscreen"@,
        "spawn"@ != "toggle_layout"@,
        "spawn"@ != "run_prompt"@,
        "spawn"@ != "screenshot"@,
        "spawn"@ != "lock"@,
        "spawn"@ != "volume_up"@,
        "spawn"@ != "volume_down"@,
        "spawn"@ != "volume_mute"@,
        "spawn"@ != "volume_mic_mute"@,
        "spawn"@ != "brightness_up"@,
        "spawn"@ != "brightness_down"@,
        "spawn"@ != "media_play_pause"@,
        "spawn"@ != "media_next"@,
        "spawn"@ != "media_prev"@,
        "view_tag"@ != "close_window"@,
        "view_tag"@ != "quit"@,
        "view_tag"@ != "mru_next"@,
        "view_tag"@ != "mru_prev"@,
        "view_tag"@ != "mru_next_global"@,
        "view_tag"@ != "mru_prev_global"@,
        "view_tag"@ != "view_prev_tag"@,
        "view_tag"@ != "view_next_tag"@,
        "view_tag"@ != "toggle_above"@,
        "view_tag"@ != "toggle_fullscreen"@,
        "view_tag"@ != "toggle_layout"@,
        "view_tag"@ != "run_prompt"@,
        "view_tag"@ != "screenshot"@,
        "view_tag"@ != "lock"@,
        "view_tag"@ != "volume_up"@,
        "view_tag"@ != "volume_down"@,
        "view_tag"@ != "volume_mute"@,
        "view_tag"@ != "volume_mic_mute"@,
        "view_tag"@ != "brightness_up"@,
        "view_tag"@ != "brightness_down"@,
        "view_tag"@ != "media_play_pause"@,
        "view_tag"@ != "media_next"@,
        "view_tag"@ != "media_prev"@,
        "move_to_tag"@ != "close_window"@,
        "move_to_tag"@ != "quit"@,
        "move_to_tag"@ != "mru_next"@,
        "move_to_tag"@ != "mru_prev"@,
        "move_to_tag"@ != "mru_next_global"@,
        "move_to_tag"@ != "mru_prev_global"@,
        "move_to_tag"@ != "view_prev_tag"@,
        "move_to_tag"@ != "view_next_tag"@,
        "move_to_tag"@ != "toggle_above"@,
        "move_to_tag"@ != "toggle_fullscreen"@,
        "move_to_tag"@ != "toggle_layout"@,
        "move_to_tag"@ != "run_prompt"@,
        "move_to_tag"@ != "screenshot"@,
        "move_to_tag"@ != "lock"@,
        "move_to_tag"@ != "volume_up"@,
        "move_to_tag"@ != "volume_down"@,
        "move_to_tag"@ != "volume_mute"@,
        "move_to_tag"@ != "volume_mic_mute"@,
        "move_to_tag"@ != "brightness_up"@,
        "move_to_tag"@ != "brightness_down"@,
        "move_to_tag"@ != "media_play_pause"@,
        "move_to_tag"@ != "media_next"@,
        "move_to_tag"@ != "media_prev"@,
{
    reveal_strlit("close_window");
    reveal_strlit("quit");
    reveal_strlit("mru_next");
    reveal_strlit("mru_prev");
    reveal_strlit("mru_next_global");
    reveal_strlit("mru_prev_global");
    reveal_strlit("view_prev_tag");
    reveal_strlit("view_next_tag");
    reveal_strlit("toggle_above");
    reveal_strlit("toggle_fullscreen");
    reveal_strlit("toggle_layout");
    reveal_strlit("run_prompt");
    reveal_strlit("screenshot");
    reveal_strlit("lock");
    reveal_strlit("volume_up");
    reveal_strlit("volume_down");
    reveal_strlit("volume_mute");
    reveal_strlit("volume_mic_mute");
    reveal_strlit("brightness_up");
    reveal_strlit("brightness_down");
    reveal_strlit("media_play_pause");
    reveal_strlit("media_next");
    reveal_strlit("media_prev");
    reveal_strlit("spawn");
    reveal_strlit("view_tag");
    reveal_strlit("move_to_tag");
    assert("close_window"@.len() == 12);
    assert("quit"@.len() == 4);
    assert("mru_next"@.len() == 8);
    assert("mru_prev"@.len() == 8);
    assert("mru_next_global"@.len() == 15);
    assert("mru_prev_global"@.len() == 15);
    assert("view_prev_tag"@.len() == 13);
    assert("view_next_tag"@.len() == 13);
    assert("toggle_above"@.len() == 12);
    assert("toggle_fullscreen"@.len() == 17);
    assert("toggle_layout"@.len() == 13);
    assert("run_prompt"@.len() == 10);
    assert("screenshot"@.len() == 10);
    assert("lock"@.len() == 4);
    assert("volume_up"@.len() == 9);
    assert("volume_down"@.len() == 11);
    assert("volume_mute"@.len() == 11);
    assert("volume_mic_mute"@.len() == 15);
    assert("brightness_up"@.len() == 13);
    assert("brightness_down"@.len() == 15);
    assert("media_play_pause"@.len() == 16);
    assert("media_next"@.len() == 10);
    assert("media_prev"@.len() == 10);
    assert("spawn"@.len() == 5);
    assert("view_tag"@.len() == 8);
    assert("move_to_tag"@.len() == 11);
    assert("mru_prev"@[4] != "mru_next"@[4]);
    assert("mru_prev_global"@[4] != "mru_next_global"@[4]);
    assert("view_next_tag"@[5] != "view_prev_tag"@[5]);
    assert("toggle_above"@[0] != "close_window"@[0]);
    assert("toggle_layout"@[0] != "view_prev_tag"@[0]);
    assert("toggle_layout"@[0] != "view_next_tag"@[0]);
    assert("screenshot"@[0] != "run_prompt"@[0]);
    assert("lock"@[0] != "quit"@[0]);
    assert("volume_mute"@[7] != "volume_down"@[7]);
    assert("volume_mic_mute"@[0] != "mru_next_global"@[0]);
    assert("volume_mic_mute"@[0] != "mru_prev_global"@[0]);
    assert("brightness_up"@[0] != "view_prev_tag"@[0]);
    assert("brightness_up"@[0] != "view_next_tag"@[0]);
    assert("brightness_up"@[0] != "toggle_layout"@[0]);
    assert("brightness_down"@[0] != "mru_next_global"@[0]);
    assert("brightness_down"@[0] != "mru_prev_global"@[0]);
    assert("brightness_down"@[0] != "volume_mic_mute"@[0]);
    assert("media_next"@[0] != "run_prompt"@[0]);
    assert("media_next"@[0] != "screenshot"@[0]);
    assert("media_prev"@[0] != "run_prompt"@[0]);
    assert("media_prev"@[0] != "screenshot"@[0]);
    assert("media_prev"@[6] != "media_next"@[6]);
    assert("view_tag"@[0] != "mru_next"@[0]);
    assert("view_tag"@[0] != "mru_prev"@[0]);
    assert("move_to_tag"@[0] != "volume_down"@[0]);
    assert("move_to_tag"@[0] != "volume_mute"@[0]);
}

/// An action is found by its name, and by no other: each action that takes no argument has one name,
/// and a name that is found is that of the action that it leads to.
pub proof fn law_action_is_found_by_its_name(a: Action, name: Seq<char>)
    ensures
        !takes_argument(a) ==> plain_action(name_of(a)) == Some(a),
        plain_action(name) == Some(a) ==> name == name_of(a) && !takes_argument(a),
        is_action(name_of(a)),
        is_action(name) <==> exists|x: Action| #[trigger] name_of(x) == name,
{
    lemma_names_differ();
    if is_action(name) {
        if name == "spawn"@ {
            assert(name_of(Action::Spawn(arbitrary())) == name);
        } else if name == "view_tag"@ {
            assert(name_of(Action::ViewTag(0)) == name);
        } else if name == "move_to_tag"@ {
            assert(name_of(Action::MoveToTag(0)) == name);
        } else {
            assert(name_of(plain_action(name)->0) == name);
        }
    }
    if exists|x: Action| #[trigger] name_of(x) == name {
        let x = choose|x: Action| #[trigger] name_of(x) == name;
        assert(takes_argument(x) || plain_action(name_of(x)) == Some(x));
    }
}

/// Tags are numbered from one where keys are bound, and from zero here: the number that is written
/// for a tag is one more than the tag. There is no tag before the first.
pub proof fn law_tags_are_counted_from_one(tag: nat)
    requires
        tag < 0xffff_ffff,
    ensures
        tag_argument(text::decimal(tag + 1)) == Some(tag as int),
        tag_argument(text::decimal(0)) is None,
        tag_argument(Seq::empty()) is None,
{
    lemma_written(tag + 1);
    lemma_written(0);
    assert(text::codes(Seq::empty()) =~= Seq::empty());
}

proof fn lemma_written(n: nat)
    requires
        n <= 0xffff_ffff,
    ensures
        text::unsigned_value(text::codes(text::decimal(n)), 10, 0xffff_ffff) == Some(n as int),
{
    let d = text::decimal(n);
    let c = text::codes(d);
    text::lemma_decimal(n);
    assert(c.len() == d.len());
    assert(text::digit(c[0] as int, 10) >= 0);
    assert(c[0] != 0x2b);
}

} // verus!
